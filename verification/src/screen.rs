//! The editable text buffer: placed glyphs, cursor, and selection mark.

use vstd::prelude::*;

use crate::glyph::{
    chars_of, glyphs_text, lemma_chars_of_insert, lemma_chars_of_remove, FontChar,
};

verus! {

/// Number of `'\n'` characters among the first `i` characters: the row a
/// cursor standing at absolute index `i` is on.
pub open spec fn row_of(s: Seq<char>, i: int) -> int
    decreases i,
{
    if i <= 0 {
        0
    } else {
        row_of(s, i - 1) + if s[i - 1] == '\n' {
            1int
        } else {
            0int
        }
    }
}

/// Absolute index where the line containing position `i` begins: the
/// position right after the last `'\n'` strictly before `i`.
pub open spec fn line_start(s: Seq<char>, i: int) -> int
    decreases i,
{
    if i <= 0 {
        0
    } else if s[i - 1] == '\n' {
        i
    } else {
        line_start(s, i - 1)
    }
}

/// The column of a cursor at absolute index `i`: characters since the
/// start of its line.
pub open spec fn col_of(s: Seq<char>, i: int) -> int {
    i - line_start(s, i)
}

pub proof fn lemma_cursor_addr_bounds(s: Seq<char>, i: int)
    requires
        0 <= i,
    ensures
        0 <= row_of(s, i) <= i,
        0 <= line_start(s, i) <= i,
    decreases i,
{
    if i > 0 {
        lemma_cursor_addr_bounds(s, i - 1);
    }
}

/// Row and line start at position `i` depend only on the characters
/// before `i`.
pub proof fn lemma_cursor_addr_prefix(s1: Seq<char>, s2: Seq<char>, i: int)
    requires
        0 <= i,
        forall|j: int| 0 <= j < i ==> s1[j] == s2[j],
    ensures
        row_of(s1, i) == row_of(s2, i),
        line_start(s1, i) == line_start(s2, i),
    decreases i,
{
    if i > 0 {
        lemma_cursor_addr_prefix(s1, s2, i - 1);
    }
}

/// Sentinel for "no highlight mark set".
pub const NO_HIGHLIGHT: u32 = u32::MAX;

/// An editable, ordered sequence of placed glyphs with a cursor and an
/// optional highlight mark.
///
/// The cursor is primarily the absolute index `cursor_abs`; the cached
/// `cursor_row` / `cursor_col` pair always agrees with a scan of the
/// content up to `cursor_abs` (see [`TextScreen::wf`]).
#[derive(Clone, Debug)]
pub struct TextScreen {
    pub content: Vec<FontChar>,
    pub width: usize,
    pub height: usize,
    pub row_height: usize,
    pub cursor_abs: u32,
    pub cursor_col: u32,
    pub cursor_row: u32,
    pub highlight_mark: u32,
    pub _cursor_enabled: bool,
}

impl TextScreen {
    /// The buffer's text, character by character.
    pub open spec fn text(self) -> Seq<char> {
        chars_of(self.content@)
    }

    /// Cursor address consistency plus the size bounds that keep pixel
    /// and index arithmetic inside the machine's integers: the cursor is
    /// a valid insertion point, and its cached row/column equal the
    /// newline count and line offset of the content before it.
    pub open spec fn wf(self) -> bool {
        &&& self.cursor_abs <= self.content@.len()
        &&& self.content@.len() <= u32::MAX
        &&& self.cursor_row == row_of(self.text(), self.cursor_abs as int)
        &&& self.cursor_col == col_of(self.text(), self.cursor_abs as int)
        &&& self.width <= u32::MAX
        &&& self.height <= u32::MAX
        &&& self.row_height <= u32::MAX
    }

    /// Everything but the buffer and the cursor address is the same in
    /// both states.
    pub open spec fn same_frame(self, other: TextScreen) -> bool {
        &&& self.width == other.width
        &&& self.height == other.height
        &&& self.row_height == other.row_height
        &&& self.highlight_mark == other.highlight_mark
        &&& self._cursor_enabled == other._cursor_enabled
    }

    pub fn new(width: usize, height: usize, row_height: usize) -> (r: TextScreen)
        requires
            width <= u32::MAX,
            height <= u32::MAX,
            row_height <= u32::MAX,
        ensures
            r.wf(),
            r.content@ == Seq::<FontChar>::empty(),
            r.width == width,
            r.height == height,
            r.row_height == row_height,
            r.cursor_abs == 0,
            r.cursor_row == 0,
            r.cursor_col == 0,
            r.highlight_mark == NO_HIGHLIGHT,
            !r._cursor_enabled,
    {
        TextScreen {
            content: Vec::new(),
            width,
            height,
            row_height,
            cursor_abs: 0,
            cursor_col: 0,
            cursor_row: 0,
            highlight_mark: NO_HIGHLIGHT,
            _cursor_enabled: false,
        }
    }

    pub fn width(&self) -> (r: usize)
        ensures
            r == self.width,
    {
        self.width
    }

    pub fn set_width(&mut self, new_width: usize)
        requires
            new_width <= u32::MAX,
        ensures
            *final(self) == (TextScreen { width: new_width, ..*old(self) }),
            old(self).wf() ==> final(self).wf(),
    {
        self.width = new_width;
    }

    pub fn height(&self) -> (r: usize)
        ensures
            r == self.height,
    {
        self.height
    }

    pub fn set_height(&mut self, new_height: usize)
        requires
            new_height <= u32::MAX,
        ensures
            *final(self) == (TextScreen { height: new_height, ..*old(self) }),
            old(self).wf() ==> final(self).wf(),
    {
        self.height = new_height;
    }

    pub fn cursor_enable(&mut self)
        ensures
            *final(self) == (TextScreen { _cursor_enabled: true, ..*old(self) }),
            old(self).wf() ==> final(self).wf(),
    {
        self._cursor_enabled = true;
    }

    pub fn cursor_disable(&mut self)
        ensures
            *final(self) == (TextScreen { _cursor_enabled: false, ..*old(self) }),
            old(self).wf() ==> final(self).wf(),
    {
        self._cursor_enabled = false;
    }

    pub fn cursor_enabled(&self) -> (r: bool)
        ensures
            r == self._cursor_enabled,
    {
        self._cursor_enabled
    }

    /// Raw accessor kept for callers that manage the cursor themselves;
    /// it does not maintain cursor address consistency.
    pub fn set_cursor_row(&mut self, row: u32)
        ensures
            *final(self) == (TextScreen { cursor_row: row, ..*old(self) }),
    {
        self.cursor_row = row;
    }

    /// Raw accessor kept for callers that manage the cursor themselves;
    /// it does not maintain cursor address consistency.
    pub fn set_cursor_col(&mut self, col: u32)
        ensures
            *final(self) == (TextScreen { cursor_col: col, ..*old(self) }),
    {
        self.cursor_col = col;
    }

    /// Record one endpoint of a selection; the cursor is the other.
    /// Passing [`NO_HIGHLIGHT`] clears the selection.
    pub fn set_highlight_mark(&mut self, pos: u32)
        ensures
            *final(self) == (TextScreen { highlight_mark: pos, ..*old(self) }),
            old(self).wf() ==> final(self).wf(),
    {
        self.highlight_mark = pos;
    }

    /// Raw accessor kept for callers that manage the cursor themselves;
    /// it does not maintain cursor address consistency.
    pub fn set_cursor_abs(&mut self, pos: u32)
        ensures
            *final(self) == (TextScreen { cursor_abs: pos, ..*old(self) }),
    {
        self.cursor_abs = pos;
    }

    pub fn get_cursor_row(&self) -> (r: u32)
        ensures
            r == self.cursor_row,
    {
        self.cursor_row
    }

    pub fn get_cursor_col(&self) -> (r: u32)
        ensures
            r == self.cursor_col,
    {
        self.cursor_col
    }

    pub fn get_highlight_mark(&self) -> (r: u32)
        ensures
            r == self.highlight_mark,
    {
        self.highlight_mark
    }

    pub fn get_cursor_abs(&self) -> (r: u32)
        ensures
            r == self.cursor_abs,
    {
        self.cursor_abs
    }

    /// The buffer's text as one string.
    pub fn get_text(&self) -> (r: String)
        ensures
            r@ == self.text(),
    {
        glyphs_text(&self.content)
    }

    /// Move the cursor one position right, stepping over the glyph at
    /// `cursor_abs`; crossing a `'\n'` starts a new row. At the buffer
    /// end this is a no-op.
    pub fn cursor_forward(&mut self)
        requires
            old(self).wf(),
        ensures
            final(self).wf(),
            final(self).content == old(self).content,
            final(self).same_frame(*old(self)),
            old(self).cursor_abs < old(self).content@.len() ==> final(self).cursor_abs == old(
                self,
            ).cursor_abs + 1,
            old(self).cursor_abs >= old(self).content@.len() ==> *final(self) == *old(self),
    {
        if (self.cursor_abs as usize) < self.content.len() {
            let i = self.cursor_abs as usize;
            proof {
                lemma_cursor_addr_bounds(self.text(), self.cursor_abs as int);
            }
            if self.content[i].ch == '\n' {
                self.cursor_col = 0;
                self.cursor_row = self.cursor_row + 1;
            } else {
                self.cursor_col = self.cursor_col + 1;
            }
            self.cursor_abs = self.cursor_abs + 1;
        }
    }

    /// Move the cursor one position left; stepping back over a `'\n'`
    /// returns to the previous row, recomputing the column by scanning
    /// back to that row's start. At position 0 this is a no-op.
    pub fn cursor_back(&mut self)
        requires
            old(self).wf(),
        ensures
            final(self).wf(),
            final(self).content == old(self).content,
            final(self).same_frame(*old(self)),
            old(self).cursor_abs > 0 ==> final(self).cursor_abs == old(self).cursor_abs - 1,
            old(self).cursor_abs == 0 ==> *final(self) == *old(self),
    {
        if self.cursor_abs == 0 {
            return ;
        }
        let i: u32 = self.cursor_abs - 1;
        proof {
            lemma_cursor_addr_bounds(self.text(), i as int);
        }
        if self.content[i as usize].ch == '\n' {
            // The cursor leaves a line start; find where the previous
            // line begins to recover the column.
            let mut j: u32 = i;
            while j > 0 && self.content[(j - 1) as usize].ch != '\n'
                invariant
                    0 <= j <= i,
                    i < self.content@.len(),
                    self.wf(),
                    line_start(self.text(), i as int) == line_start(self.text(), j as int),
                decreases j,
            {
                j = j - 1;
            }
            self.cursor_row = self.cursor_row - 1;
            self.cursor_col = i - j;
        } else {
            self.cursor_col = self.cursor_col - 1;
        }
        self.cursor_abs = i;
    }

    /// Insert a glyph at the cursor, then advance the cursor past it.
    pub fn push_char(&mut self, fch: FontChar)
        requires
            old(self).wf(),
            old(self).content@.len() < u32::MAX,
        ensures
            final(self).wf(),
            final(self).content@ == old(self).content@.insert(old(self).cursor_abs as int, fch),
            final(self).cursor_abs == old(self).cursor_abs + 1,
            final(self).same_frame(*old(self)),
    {
        let i = self.cursor_abs as usize;
        let ghost pre = *self;
        self.content.insert(i, fch);
        proof {
            lemma_chars_of_insert(pre.content@, i as int, fch);
            lemma_cursor_addr_prefix(self.text(), pre.text(), i as int);
        }
        self.cursor_forward();
    }

    /// Remove the glyph just before the cursor, moving the cursor back
    /// onto its slot first. At position 0 the buffer is left alone.
    pub fn pop_char(&mut self) -> (r: Option<FontChar>)
        requires
            old(self).wf(),
        ensures
            final(self).wf(),
            final(self).same_frame(*old(self)),
            old(self).cursor_abs == 0 ==> *final(self) == *old(self) && r is None,
            old(self).cursor_abs > 0 ==> {
                &&& r == Some(old(self).content@[old(self).cursor_abs - 1])
                &&& final(self).content@ == old(self).content@.remove(old(self).cursor_abs - 1)
                &&& final(self).cursor_abs == old(self).cursor_abs - 1
            },
    {
        if self.cursor_abs == 0 {
            return None;
        }
        self.cursor_back();
        let ghost mid = *self;
        let i = self.cursor_abs as usize;
        let g = self.content.remove(i);
        proof {
            lemma_chars_of_remove(mid.content@, i as int);
            lemma_cursor_addr_prefix(self.text(), mid.text(), i as int);
        }
        Some(g)
    }

    /// Insert a run of glyphs at the cursor, in order, leaving the
    /// cursor after the last of them.
    pub fn push_string(&mut self, fstr: Vec<FontChar>)
        requires
            old(self).wf(),
            old(self).content@.len() + fstr@.len() <= u32::MAX,
        ensures
            final(self).wf(),
            final(self).content@ == old(self).content@.take(old(self).cursor_abs as int) + fstr@
                + old(self).content@.skip(old(self).cursor_abs as int),
            final(self).cursor_abs == old(self).cursor_abs + fstr@.len(),
            final(self).same_frame(*old(self)),
    {
        let ghost orig = *old(self);
        let ghost abs = old(self).cursor_abs as int;
        let mut k: usize = 0;
        proof {
            assert(orig.content@.take(abs) + fstr@.take(0) + orig.content@.skip(abs)
                =~= orig.content@);
        }
        while k < fstr.len()
            invariant
                0 <= k <= fstr@.len(),
                self.wf(),
                self.same_frame(orig),
                orig.wf(),
                0 <= abs <= orig.content@.len(),
                orig.content@.len() + fstr@.len() <= u32::MAX,
                self.cursor_abs == abs + k,
                self.content@ == orig.content@.take(abs) + fstr@.take(k as int)
                    + orig.content@.skip(abs),
            decreases fstr@.len() - k,
        {
            let g = fstr[k];
            let ghost pre = self.content@;
            self.push_char(g);
            proof {
                assert(pre.insert(abs + k, g) =~= orig.content@.take(abs) + fstr@.take(k + 1)
                    + orig.content@.skip(abs));
            }
            k = k + 1;
        }
        proof {
            assert(fstr@.take(fstr@.len() as int) =~= fstr@);
        }
    }

    /// Empty the buffer and return the cursor to the origin. The
    /// highlight mark is left as it is, as is the viewport.
    pub fn clear(&mut self)
        ensures
            final(self).wf() <==> (old(self).width <= u32::MAX && old(self).height <= u32::MAX
                && old(self).row_height <= u32::MAX),
            final(self).content@ == Seq::<FontChar>::empty(),
            final(self).cursor_abs == 0,
            final(self).cursor_row == 0,
            final(self).cursor_col == 0,
            final(self).same_frame(*old(self)),
    {
        self.cursor_col = 0;
        self.cursor_row = 0;
        self.cursor_abs = 0;
        self.content.clear();
    }
}

/// Insert/delete round trip on the underlying sequence: inserting at any
/// valid slot and removing that slot gives back the original sequence.
pub proof fn lemma_insert_remove_roundtrip(s: Seq<FontChar>, i: int, g: FontChar)
    requires
        0 <= i <= s.len(),
    ensures
        s.insert(i, g).remove(i) == s,
{
    assert(s.insert(i, g).remove(i) =~= s);
}

/// Insert/delete round trip for the whole screen: if `mid` relates to
/// `before` as `push_char(g)` promises, and `after` relates to `mid` as
/// `pop_char` promises, then `after` equals `before` in content, cursor
/// address, and cached row/column.
pub proof fn lemma_push_pop_restores(
    before: TextScreen,
    mid: TextScreen,
    after: TextScreen,
    g: FontChar,
)
    requires
        before.wf(),
        mid.wf(),
        after.wf(),
        mid.content@ == before.content@.insert(before.cursor_abs as int, g),
        mid.cursor_abs == before.cursor_abs + 1,
        mid.same_frame(before),
        after.content@ == mid.content@.remove(mid.cursor_abs - 1),
        after.cursor_abs == mid.cursor_abs - 1,
        after.same_frame(mid),
    ensures
        after.content@ == before.content@,
        after.cursor_abs == before.cursor_abs,
        after.cursor_row == before.cursor_row,
        after.cursor_col == before.cursor_col,
        after.same_frame(before),
{
    lemma_insert_remove_roundtrip(before.content@, before.cursor_abs as int, g);
}

} // verus!

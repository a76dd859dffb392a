//! Per-glyph records: metrics plus the glyph's region inside the atlas.

use vstd::prelude::*;

use crate::geometry::Rect;

verus! {

/// Whitespace test for the code points a glyph atlas carries.
///
/// Over the Latin-1 range this agrees with Unicode whitespace; layout
/// uses it to skip blitting blank glyph bitmaps and to recognize `'\n'`.
pub open spec fn spec_is_whitespace(c: char) -> bool {
    ||| c == ' '
    ||| c == '\t'
    ||| c == '\n'
    ||| c == '\r'
    ||| c == '\u{000B}'
    ||| c == '\u{000C}'
}

#[verifier::when_used_as_spec(spec_is_whitespace)]
pub fn is_whitespace_char(c: char) -> (r: bool)
    ensures
        r == spec_is_whitespace(c),
{
    c == ' ' || c == '\t' || c == '\n' || c == '\r' || c == '\u{000B}' || c == '\u{000C}'
}

/// Metrics and atlas location for one renderable character.
///
/// `bbox` is the glyph's source region inside the atlas bitmap. `_ax` and
/// `_ay` are the horizontal and vertical advances, `bl` and `bt` the left
/// and top bearings, all in pixels as the rasterizer reported them.
/// Records are built once per font load and read-only afterwards.
#[derive(Clone, Copy, Debug, PartialEq, Eq, Structural)]
pub struct FontChar {
    pub ch: char,
    pub bbox: Rect,
    pub _ax: u32,
    pub _ay: u32,
    pub bl: i32,
    pub bt: i32,
}

impl FontChar {
    pub fn default() -> (r: Self)
        ensures
            r.ch == '\0',
            r.bbox == (Rect { x: 0, y: 0, w: 0, h: 0 }),
            r._ax == 0,
            r._ay == 0,
            r.bl == 0,
            r.bt == 0,
    {
        FontChar { ch: '\0', bbox: Rect { x: 0, y: 0, w: 0, h: 0 }, _ax: 0, _ay: 0, bl: 0, bt: 0 }
    }

    pub fn new(ch: char, bbox: Rect, _ax: u32, _ay: u32, bl: i32, bt: i32) -> (r: Self)
        ensures
            r == (FontChar { ch, bbox, _ax, _ay, bl, bt }),
    {
        FontChar { ch, bbox, _ax, _ay, bl, bt }
    }
}

/// The characters of a sequence of placed glyphs, in document order.
pub open spec fn chars_of(s: Seq<FontChar>) -> Seq<char> {
    s.map_values(|g: FontChar| g.ch)
}

/// Relies on `String::push`: appends exactly the given character.
#[verifier::external_body]
pub(crate) fn string_push_char(s: &mut String, c: char)
    ensures
        final(s)@ == old(s)@.push(c),
{
    s.push(c);
}

/// The text of a glyph run as one string.
pub fn glyphs_text(content: &Vec<FontChar>) -> (r: String)
    ensures
        r@ == chars_of(content@),
{
    let mut s = String::new();
    let mut i: usize = 0;
    proof {
        assert(chars_of(content@).take(0) =~= Seq::<char>::empty());
    }
    while i < content.len()
        invariant
            0 <= i <= content@.len(),
            s@ == chars_of(content@).take(i as int),
        decreases content@.len() - i,
    {
        string_push_char(&mut s, content[i].ch);
        proof {
            assert(chars_of(content@).take(i + 1) =~= chars_of(content@).take(i as int).push(
                chars_of(content@)[i as int],
            ));
        }
        i = i + 1;
    }
    proof {
        assert(chars_of(content@).take(content@.len() as int) =~= chars_of(content@));
    }
    s
}

pub proof fn lemma_chars_of_insert(s: Seq<FontChar>, i: int, g: FontChar)
    requires
        0 <= i <= s.len(),
    ensures
        chars_of(s.insert(i, g)) == chars_of(s).insert(i, g.ch),
{
    assert(chars_of(s.insert(i, g)) =~= chars_of(s).insert(i, g.ch));
}

pub proof fn lemma_chars_of_remove(s: Seq<FontChar>, i: int)
    requires
        0 <= i < s.len(),
    ensures
        chars_of(s.remove(i)) == chars_of(s).remove(i),
{
    assert(chars_of(s.remove(i)) =~= chars_of(s).remove(i));
}

} // verus!

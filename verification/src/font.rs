//! Font-wide metrics and the code point -> glyph record table.

use vstd::prelude::*;

use vstd::string::StrSliceExecFns;

use crate::geometry::Rect;
use crate::glyph::FontChar;

verus! {

/// A glyph record is compatible with the font-wide maxima: its top
/// bearing never rises above `max_ascent` and its left bearing never
/// reaches further back than `max_forward` reaches forward, so every
/// placement coordinate stays non-negative. The size bounds keep pixel
/// arithmetic inside `u64`.
pub open spec fn glyph_fits(max_ascent: u32, max_forward: u32, g: FontChar) -> bool {
    &&& g.bt <= max_ascent
    &&& max_forward + g.bl >= 0
    &&& g.bbox.w <= u32::MAX
    &&& g.bbox.h <= u32::MAX
}

/// Total of the atlas-box widths of a glyph table, used for the
/// whitespace width (the mean glyph width).
pub open spec fn sum_widths(s: Seq<FontChar>) -> int
    decreases s.len(),
{
    if s.len() == 0 {
        0
    } else {
        sum_widths(s.drop_last()) + s.last().bbox.w
    }
}

pub proof fn lemma_sum_widths_bound(s: Seq<FontChar>, m: int)
    requires
        0 <= m,
        forall|i: int| 0 <= i < s.len() ==> s[i].bbox.w <= m,
    ensures
        0 <= sum_widths(s) <= s.len() * m,
    decreases s.len(),
{
    if s.len() == 0 {
    } else {
        lemma_sum_widths_bound(s.drop_last(), m);
        assert((s.len() - 1) * m + m == s.len() * m) by (nonlinear_arith);
    }
}

/// The lookup table and global metrics of one packed atlas.
///
/// `char_lookup` holds one record per code point of the built range, at
/// index `code point - range_first`. `glyph_height` is the common row
/// height, always `max_ascent + max_descent`. `whitespace_width` is the
/// mean glyph width, reserved by zero-width glyphs at layout time.
#[derive(Clone, Debug)]
pub struct FontDef {
    pub glyph_height: u32,
    pub glyph_width: u32,
    pub whitespace_width: u32,
    pub char_spacing: u32,
    pub monospaced: bool,
    pub char_lookup: Vec<FontChar>,
    pub range_first: u32,
    pub max_ascent: u32,
    pub max_descent: u32,
    pub max_back: u32,
    pub max_forward: u32,
    pub font_pixel_size: u32,
}

impl FontDef {
    pub open spec fn valid_glyph(self, g: FontChar) -> bool {
        glyph_fits(self.max_ascent, self.max_forward, g)
    }

    /// The table invariant: the baseline identity on the row height, a
    /// record for every code point of the range, and every record
    /// compatible with the font-wide maxima.
    pub open spec fn wf(self) -> bool {
        &&& self.glyph_height == self.max_ascent + self.max_descent
        &&& self.range_first + self.char_lookup@.len() <= u32::MAX as int + 1
        &&& forall|i: int|
            0 <= i < self.char_lookup@.len() ==> self.valid_glyph(#[trigger] self.char_lookup@[i])
    }

    /// True when `cp` is a code point the built range covers.
    pub open spec fn spec_in_range(self, cp: int) -> bool {
        self.range_first <= cp < self.range_first + self.char_lookup@.len()
    }

    /// The record the table holds for code point `cp`.
    pub open spec fn spec_glyph(self, cp: int) -> FontChar {
        self.char_lookup@[cp - self.range_first]
    }

    pub fn new(
        char_lookup: Vec<FontChar>,
        range_first: u32,
        max_height: u32,
        max_width: u32,
        char_spacing: u32,
        max_ascent: u32,
        max_descent: u32,
        max_back: u32,
        max_forward: u32,
        font_pixel_size: u32,
        monospaced: bool,
    ) -> (r: FontDef)
        requires
            0 < char_lookup@.len() <= u32::MAX,
            max_height == max_ascent + max_descent,
            range_first + char_lookup@.len() <= u32::MAX as int + 1,
            forall|i: int|
                0 <= i < char_lookup@.len() ==> glyph_fits(
                    max_ascent,
                    max_forward,
                    #[trigger] char_lookup@[i],
                ),
        ensures
            r.wf(),
            r.char_lookup == char_lookup,
            r.range_first == range_first,
            r.glyph_height == max_height,
            r.glyph_width == max_width,
            r.char_spacing == char_spacing,
            r.monospaced == monospaced,
            r.max_ascent == max_ascent,
            r.max_descent == max_descent,
            r.max_back == max_back,
            r.max_forward == max_forward,
            r.font_pixel_size == font_pixel_size,
            r.whitespace_width == sum_widths(char_lookup@) / char_lookup@.len() as int,
    {
        let ghost all = char_lookup@;
        let n = char_lookup.len();
        let mut total: u64 = 0;
        let mut i: usize = 0;
        proof {
            assert(all.take(0) =~= Seq::<FontChar>::empty());
        }
        while i < n
            invariant
                n == all.len(),
                0 < n <= u32::MAX,
                0 <= i <= n,
                char_lookup@ == all,
                forall|j: int| 0 <= j < n ==> (#[trigger] all[j]).bbox.w <= u32::MAX,
                total == sum_widths(all.take(i as int)),
            decreases n - i,
        {
            proof {
                lemma_sum_widths_bound(all.take(i as int), u32::MAX as int);
                assert(all.take(i as int).len() * (u32::MAX as int) <= (u32::MAX as int) * (
                u32::MAX as int)) by (nonlinear_arith)
                    requires
                        0 <= all.take(i as int).len() <= u32::MAX as int,
                ;
                assert(all.take(i as int + 1).drop_last() =~= all.take(i as int));
            }
            total = total + char_lookup[i].bbox.w;
            i = i + 1;
        }
        proof {
            assert(all.take(n as int) =~= all);
            lemma_sum_widths_bound(all, u32::MAX as int);
            vstd::arithmetic::div_mod::lemma_div_is_ordered(
                sum_widths(all),
                all.len() * (u32::MAX as int),
                all.len() as int,
            );
            vstd::arithmetic::div_mod::lemma_div_multiples_vanish(
                u32::MAX as int,
                all.len() as int,
            );
            assert(all.len() * (u32::MAX as int) == (u32::MAX as int) * all.len());
        }
        let avg_width: u32 = (total / (n as u64)) as u32;
        FontDef {
            char_lookup,
            char_spacing,
            glyph_height: max_height,
            glyph_width: max_width,
            whitespace_width: avg_width,
            monospaced,
            range_first,
            max_ascent,
            max_descent,
            max_back,
            max_forward,
            font_pixel_size,
        }
    }

    /// Look a code point up in the atlas table. Outside the built range
    /// the lookup fails and the caller must substitute a fallback glyph
    /// or refuse the character.
    pub fn get_char(&self, cp: usize) -> (r: Result<FontChar, ()>)
        ensures
            r is Ok <==> self.spec_in_range(cp as int),
            self.spec_in_range(cp as int) ==> r == Ok::<FontChar, ()>(self.spec_glyph(cp as int)),
    {
        if cp >= self.range_first as usize && cp - (self.range_first as usize)
            < self.char_lookup.len() {
            Ok(self.char_lookup[cp - self.range_first as usize])
        } else {
            Err(())
        }
    }

    /// Look every character of a string up in the atlas table, in order.
    /// One character outside the built range fails the whole lookup.
    pub fn get_string(&self, s: &str) -> (r: Result<Vec<FontChar>, ()>)
        ensures
            r is Ok <==> (forall|i: int| 0 <= i < s@.len() ==> self.spec_in_range(s@[i] as int)),
            r matches Ok(v) ==> v@.len() == s@.len() && (forall|i: int|
                0 <= i < s@.len() ==> v@[i] == self.spec_glyph(s@[i] as int)),
    {
        let n = s.unicode_len();
        let mut v: Vec<FontChar> = Vec::new();
        let mut i: usize = 0;
        while i < n
            invariant
                n == s@.len(),
                0 <= i <= n,
                v@.len() == i,
                forall|j: int|
                    0 <= j < i ==> self.spec_in_range(#[trigger] s@[j] as int) && v@[j]
                        == self.spec_glyph(s@[j] as int),
            decreases n - i,
        {
            let c = s.get_char(i);
            match self.get_char(c as usize) {
                Ok(g) => {
                    v.push(g);
                },
                Err(_) => {
                    return Err(());
                },
            }
            i = i + 1;
        }
        Ok(v)
    }

    /// Destination rectangle for blitting a glyph whose layout origin is
    /// `(x, y)`: shifted down so every glyph of a row shares one
    /// baseline, shifted right by the fixed cell offset when the font is
    /// laid out monospaced, and widened to `whitespace_width` for
    /// zero-width glyphs.
    pub open spec fn spec_aligned_x(self, x: int, g: FontChar) -> int {
        if self.monospaced {
            x + self.max_forward + g.bl
        } else {
            x
        }
    }

    pub open spec fn spec_aligned_y(self, y: int, g: FontChar) -> int {
        y + self.max_ascent - g.bt
    }

    pub open spec fn spec_aligned_w(self, g: FontChar) -> int {
        if g.bbox.w > 1 {
            g.bbox.w as int
        } else {
            self.whitespace_width as int
        }
    }

    pub fn get_char_aligned_rect(&self, x: u64, y: u64, info: &FontChar) -> (r: Rect)
        requires
            self.valid_glyph(*info),
            self.spec_aligned_x(x as int, *info) <= u64::MAX,
            self.spec_aligned_y(y as int, *info) <= u64::MAX,
        ensures
            r.x == self.spec_aligned_x(x as int, *info),
            r.y == self.spec_aligned_y(y as int, *info),
            r.w == self.spec_aligned_w(*info),
            r.h == info.bbox.h,
    {
        let center_dist: u64 = ((self.max_forward as i64) + (info.bl as i64)) as u64;
        let baseline_dist: u64 = ((self.max_ascent as i64) - (info.bt as i64)) as u64;
        let rx: u64 = if self.monospaced {
            x + center_dist
        } else {
            x
        };
        let rw: u64 = if info.bbox.w > 1 {
            info.bbox.w
        } else {
            self.whitespace_width as u64
        };
        Rect { x: rx, y: y + baseline_dist, w: rw, h: info.bbox.h }
    }
}

/// Baseline invariant: any two glyphs placed with the same row origin
/// `y` sit on one common baseline, `y + max_ascent`, whatever their own
/// bearings are.
pub proof fn lemma_common_baseline(f: FontDef, y: int, a: FontChar, b: FontChar)
    requires
        f.valid_glyph(a),
        f.valid_glyph(b),
    ensures
        f.spec_aligned_y(y, a) + a.bt == y + f.max_ascent,
        f.spec_aligned_y(y, a) + a.bt == f.spec_aligned_y(y, b) + b.bt,
{
}

} // verus!

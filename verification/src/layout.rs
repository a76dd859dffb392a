//! The layout engine: one full pass over a buffer produces wrapped-row
//! drawing instructions for a caller-supplied surface.

use vstd::prelude::*;

use crate::font::FontDef;
use crate::geometry::{rect_at, Rect};
use crate::glyph::{chars_of, is_whitespace_char, spec_is_whitespace, FontChar};
use crate::screen::{TextScreen, NO_HIGHLIGHT};

verus! {

/// One drawing instruction emitted by a layout pass. The pass itself
/// never touches pixels; the caller's surface executes these in order.
#[derive(Clone, Copy, Debug, PartialEq, Eq, Structural)]
pub enum RenderOp {
    /// Copy region `src` of the atlas bitmap onto region `dst` of the
    /// target surface.
    Blit { src: Rect, dst: Rect },
    /// Fill `region` with the highlight color, additively blended.
    Highlight { region: Rect },
    /// Draw the cursor bar over `region`.
    Cursor { region: Rect },
}

/// Result of a full layout pass: the instructions in drawing order and
/// the overall rectangle the laid-out text consumed.
#[derive(Clone, Debug, PartialEq, Eq)]
pub struct RenderPass {
    pub ops: Vec<RenderOp>,
    pub bounds: Rect,
}

/// Running state of a layout pass: the pen offset relative to the pass
/// origin and the instructions emitted so far.
pub struct LayoutState {
    pub x_off: int,
    pub y_off: int,
    pub ops: Seq<RenderOp>,
}

/// The destination rectangle of a glyph whose layout origin is `(x, y)`.
pub open spec fn spec_dst_rect(f: FontDef, x: int, y: int, g: FontChar) -> Rect {
    rect_at(f.spec_aligned_x(x, g), f.spec_aligned_y(y, g), f.spec_aligned_w(g), g.bbox.h as int)
}

/// The highlighted absolute index range is `(min(mark, cursor),
/// max(mark, cursor)]`, half-open at the low end; a mark equal to
/// [`NO_HIGHLIGHT`] means no index is ever highlighted, and a disabled
/// cursor suppresses highlighting as well.
pub open spec fn spec_highlight_active(scr: TextScreen, cur: int) -> bool {
    let lo = if scr.highlight_mark <= scr.cursor_abs {
        scr.highlight_mark as int
    } else {
        scr.cursor_abs as int
    };
    let hi = if scr.highlight_mark <= scr.cursor_abs {
        scr.cursor_abs as int
    } else {
        scr.highlight_mark as int
    };
    &&& scr._cursor_enabled
    &&& scr.highlight_mark != NO_HIGHLIGHT
    &&& lo < cur <= hi
}

/// One glyph's step of the layout pass, for the glyph at `idx`.
///
/// A glyph that would overrun the target width starts a new row before
/// it is placed; a `'\n'` is placed on the current row and starts a new
/// row after it. The glyph's rectangle is computed for every glyph but
/// only non-whitespace glyphs are blitted. A highlighted index adds a
/// highlight fill over the glyph's rectangle, and the cursor bar is
/// emitted right after the glyph the cursor sits behind.
pub open spec fn render_step(
    scr: TextScreen,
    f: FontDef,
    x: int,
    y: int,
    st: LayoutState,
    idx: int,
) -> LayoutState {
    let g = scr.content@[idx];
    let cur = idx + 1;
    let wraps_before = g.ch != '\n' && st.x_off + g._ax > scr.width;
    let xo1 = if wraps_before {
        0int
    } else {
        st.x_off
    };
    let yo1 = if wraps_before {
        st.y_off + scr.row_height
    } else {
        st.y_off
    };
    let dst = spec_dst_rect(f, x + xo1, y + yo1, g);
    let ops1 = if spec_is_whitespace(g.ch) {
        st.ops
    } else {
        st.ops.push(RenderOp::Blit { src: g.bbox, dst })
    };
    let xo2 = xo1 + g._ax;
    let ops2 = if spec_highlight_active(scr, cur) {
        ops1.push(RenderOp::Highlight { region: dst })
    } else {
        ops1
    };
    let xo3 = if g.ch == '\n' {
        0int
    } else {
        xo2
    };
    let yo3 = if g.ch == '\n' {
        yo1 + scr.row_height
    } else {
        yo1
    };
    let cursor_rect = rect_at(x + xo3, y + yo3, f.glyph_width as int / 16, scr.row_height as int);
    let ops3 = if scr._cursor_enabled && scr.cursor_abs == cur {
        ops2.push(RenderOp::Cursor { region: cursor_rect })
    } else {
        ops2
    };
    LayoutState { x_off: xo3, y_off: yo3, ops: ops3 }
}

/// The layout pass after the first `i` glyphs of the buffer.
pub open spec fn render_upto(scr: TextScreen, f: FontDef, x: int, y: int, i: int) -> LayoutState
    decreases i,
{
    if i <= 0 {
        LayoutState { x_off: 0, y_off: 0, ops: Seq::empty() }
    } else {
        render_step(scr, f, x, y, render_upto(scr, f, x, y, i - 1), i - 1)
    }
}

/// The layout pass over the whole buffer.
pub open spec fn spec_render(scr: TextScreen, f: FontDef, x: int, y: int) -> LayoutState {
    render_upto(scr, f, x, y, scr.content@.len() as int)
}

/// Every glyph of a run is compatible with the font's maxima, as
/// records handed out by the font's own table are.
pub open spec fn glyphs_fit(f: FontDef, s: Seq<FontChar>) -> bool {
    forall|i: int| 0 <= i < s.len() ==> f.valid_glyph(#[trigger] s[i])
}

/// The pen never runs past one advance beyond the target width, and
/// never descends below one row per glyph.
proof fn lemma_render_upto_bounds(scr: TextScreen, f: FontDef, x: int, y: int, i: int)
    requires
        scr.wf(),
        0 <= i <= scr.content@.len(),
    ensures
        0 <= render_upto(scr, f, x, y, i).x_off <= u32::MAX as int + scr.width,
        0 <= render_upto(scr, f, x, y, i).y_off <= i * scr.row_height,
    decreases i,
{
    if i > 0 {
        lemma_render_upto_bounds(scr, f, x, y, i - 1);
        assert((i - 1) * scr.row_height + scr.row_height == i * scr.row_height)
            by (nonlinear_arith);
        assert(0 <= (i - 1) * scr.row_height) by (nonlinear_arith)
            requires
                0 <= i - 1 && 0 <= scr.row_height,
        ;
    } else {
        assert(i * scr.row_height == 0) by (nonlinear_arith)
            requires
                i == 0,
        ;
    }
}

/// Wrapping idempotence: the layout pass is a function of the buffer,
/// the font, and the pass origin alone, so two passes over an unchanged
/// buffer and width produce identical instructions and offsets.
pub proof fn lemma_render_idempotent(
    scr: TextScreen,
    f: FontDef,
    x: int,
    y: int,
    r1: LayoutState,
    r2: LayoutState,
)
    requires
        r1 == spec_render(scr, f, x, y),
        r2 == spec_render(scr, f, x, y),
    ensures
        r1.ops == r2.ops,
        r1.x_off == r2.x_off,
        r1.y_off == r2.y_off,
{
}

impl TextScreen {
    /// Lay the whole buffer out against the screen's width: the wrapped
    /// rows of glyph blits, highlight fills and the cursor bar, plus the
    /// overall bounding rectangle consumed (the target width by the
    /// final row offset), all relative to the pass origin `(x, y)`.
    ///
    /// The pass only reads the screen and the font, so re-running it
    /// with an unchanged buffer and width returns identical rectangles.
    pub fn render_all(&self, font: &FontDef, x: u64, y: u64) -> (r: RenderPass)
        requires
            self.wf(),
            font.wf(),
            glyphs_fit(*font, self.content@),
            x <= u32::MAX,
            y + self.content@.len() * self.row_height + font.max_ascent + i32::MAX + 1
                <= u64::MAX,
        ensures
            r.ops@ == spec_render(*self, *font, x as int, y as int).ops,
            r.bounds == rect_at(
                x as int,
                y as int,
                self.width as int,
                spec_render(*self, *font, x as int, y as int).y_off,
            ),
    {
        let len = self.content.len();
        let ghost gx = x as int;
        let ghost gy = y as int;
        let mut ops: Vec<RenderOp> = Vec::new();
        let mut x_off: u64 = 0;
        let mut y_off: u64 = 0;
        let mut i: usize = 0;
        proof {
            vstd::arithmetic::mul::lemma_mul_upper_bound(
                len as int,
                u32::MAX as int,
                self.row_height as int,
                u32::MAX as int,
            );
        }
        while i < len
            invariant
                self.wf(),
                font.wf(),
                glyphs_fit(*font, self.content@),
                x <= u32::MAX,
                gx == x as int,
                gy == y as int,
                y + len * self.row_height + font.max_ascent + i32::MAX + 1 <= u64::MAX,
                len == self.content@.len(),
                0 <= i <= len,
                x_off == render_upto(*self, *font, gx, gy, i as int).x_off,
                y_off == render_upto(*self, *font, gx, gy, i as int).y_off,
                ops@ == render_upto(*self, *font, gx, gy, i as int).ops,
                x_off <= u32::MAX as int + self.width,
                y_off <= (i as int) * self.row_height,
            decreases len - i,
        {
            let ghost pre = render_upto(*self, *font, gx, gy, i as int);
            proof {
                lemma_render_upto_bounds(*self, *font, gx, gy, i as int);
                vstd::arithmetic::mul::lemma_mul_inequality(
                    i as int,
                    len as int,
                    self.row_height as int,
                );
                assert((i as int + 1) * self.row_height == i as int * self.row_height
                    + self.row_height) by (nonlinear_arith);
                vstd::arithmetic::mul::lemma_mul_inequality(
                    i as int + 1,
                    len as int,
                    self.row_height as int,
                );
            }
            let g = self.content[i];
            let adv = g._ax as u64;
            let is_nl = g.ch == '\n';
            if !is_nl && x_off + adv > self.width as u64 {
                x_off = 0;
                y_off = y_off + self.row_height as u64;
            }
            let dst = font.get_char_aligned_rect(x + x_off, y + y_off, &g);
            if !is_whitespace_char(g.ch) {
                ops.push(RenderOp::Blit { src: g.bbox, dst });
            }
            x_off = x_off + adv;
            let cur: u32 = (i as u32) + 1;
            let lo: u32 = if self.highlight_mark <= self.cursor_abs {
                self.highlight_mark
            } else {
                self.cursor_abs
            };
            let hi: u32 = if self.highlight_mark <= self.cursor_abs {
                self.cursor_abs
            } else {
                self.highlight_mark
            };
            if self._cursor_enabled && self.highlight_mark != NO_HIGHLIGHT && lo < cur && cur
                <= hi {
                ops.push(RenderOp::Highlight { region: dst });
            }
            if is_nl {
                x_off = 0;
                y_off = y_off + self.row_height as u64;
            }
            if self._cursor_enabled && self.cursor_abs == cur {
                let bar = Rect::new(
                    x + x_off,
                    y + y_off,
                    (font.glyph_width / 16) as u64,
                    self.row_height as u64,
                );
                ops.push(RenderOp::Cursor { region: bar });
            }
            proof {
                assert(render_upto(*self, *font, gx, gy, i as int + 1) == render_step(
                    *self,
                    *font,
                    gx,
                    gy,
                    pre,
                    i as int,
                ));
            }
            i = i + 1;
        }
        RenderPass { ops, bounds: Rect::new(x, y, self.width as u64, y_off) }
    }
}

/// The horizontal space one glyph consumes on a screen line: its atlas
/// box width, or the whitespace width for boxes no wider than one pixel.
pub open spec fn line_char_w(f: FontDef, g: FontChar) -> int {
    if g.bbox.w <= 1 {
        f.whitespace_width as int
    } else {
        g.bbox.w as int
    }
}

/// One glyph's step of a single line's pass: wrap to the next row when
/// the glyph would overrun the target width, then blit it unless it is
/// whitespace, then advance the pen by its consumed width.
pub open spec fn line_render_step(
    f: FontDef,
    target: int,
    x: int,
    s: Seq<FontChar>,
    st: LayoutState,
    idx: int,
) -> LayoutState {
    let g = s[idx];
    let cw = line_char_w(f, g);
    let wraps = st.x_off + cw > target;
    let xo1 = if wraps {
        0int
    } else {
        st.x_off
    };
    let yo1 = if wraps {
        st.y_off + f.glyph_height
    } else {
        st.y_off
    };
    let ops1 = if spec_is_whitespace(g.ch) {
        st.ops
    } else {
        st.ops.push(RenderOp::Blit { src: g.bbox, dst: spec_dst_rect(f, x + xo1, yo1, g) })
    };
    LayoutState { x_off: xo1 + cw, y_off: yo1, ops: ops1 }
}

/// A single line's pass after its first `i` glyphs, starting at the
/// absolute row offset `y0`. Unlike the full pass, the vertical offset
/// here is absolute and the horizontal offset relative to `x`.
pub open spec fn line_render_upto(
    f: FontDef,
    target: int,
    x: int,
    y0: int,
    s: Seq<FontChar>,
    i: int,
) -> LayoutState
    decreases i,
{
    if i <= 0 {
        LayoutState { x_off: 0, y_off: y0, ops: Seq::empty() }
    } else {
        line_render_step(f, target, x, s, line_render_upto(f, target, x, y0, s, i - 1), i - 1)
    }
}

proof fn lemma_line_render_upto_bounds(
    f: FontDef,
    target: int,
    x: int,
    y0: int,
    s: Seq<FontChar>,
    i: int,
)
    requires
        0 <= i <= s.len(),
        glyphs_fit(f, s),
        0 <= y0,
        0 <= target,
    ensures
        0 <= line_render_upto(f, target, x, y0, s, i).x_off <= target + u32::MAX,
        y0 <= line_render_upto(f, target, x, y0, s, i).y_off <= y0 + i * f.glyph_height,
    decreases i,
{
    if i > 0 {
        lemma_line_render_upto_bounds(f, target, x, y0, s, i - 1);
        assert((i - 1) * f.glyph_height + f.glyph_height == i * f.glyph_height)
            by (nonlinear_arith);
        assert(0 <= (i - 1) * f.glyph_height) by (nonlinear_arith)
            requires
                0 <= i - 1 && 0 <= f.glyph_height,
        ;
    } else {
        assert(i * f.glyph_height == 0) by (nonlinear_arith)
            requires
                i == 0,
        ;
    }
}

proof fn lemma_line_y_bound(y: int, row: int, i: int, len: int, gh: int)
    requires
        0 <= y,
        0 <= row,
        0 <= gh,
        0 <= i <= len,
    ensures
        (y + row * gh) + i * gh + gh <= y + (row + len + 1) * gh,
{
    assert(row * gh + i * gh + gh == (row + i + 1) * gh) by (nonlinear_arith);
    assert((row + i + 1) * gh <= (row + len + 1) * gh) by (nonlinear_arith)
        requires
            i <= len && 0 <= gh,
    ;
}

/// Number of wrapped rows a run of total width `w` occupies under a row
/// width of `max_w`: the quotient, rounded up.
pub open spec fn spec_wrapped_rows(w: int, max_w: int) -> int {
    w / max_w + if w % max_w != 0 {
        1int
    } else {
        0int
    }
}

/// One logical line of placed glyphs, remembering which row of its
/// screen it is, and the total width everything ever pushed onto it
/// consumed. The width only accumulates: popping a glyph does not give
/// its width back.
#[derive(Clone, Debug)]
pub struct ScreenLine {
    pub content: Vec<FontChar>,
    pub width: u64,
    pub row: usize,
}

impl ScreenLine {
    pub fn new(row: usize) -> (r: ScreenLine)
        ensures
            r.content@ == Seq::<FontChar>::empty(),
            r.width == 0,
            r.row == row,
    {
        ScreenLine { content: Vec::new(), width: 0, row }
    }

    /// The line's text, character by character.
    pub fn get_text(&self) -> (r: String)
        ensures
            r@ == chars_of(self.content@),
    {
        crate::glyph::glyphs_text(&self.content)
    }

    pub fn content(&self) -> (r: &Vec<FontChar>)
        ensures
            r@ == self.content@,
    {
        &self.content
    }

    pub fn push_char(&mut self, fch: FontChar)
        requires
            old(self).width + fch.bbox.w <= u64::MAX,
        ensures
            final(self).content@ == old(self).content@.push(fch),
            final(self).width == old(self).width + fch.bbox.w,
            final(self).row == old(self).row,
    {
        self.width = self.width + fch.bbox.w;
        self.content.push(fch);
    }

    pub fn pop_char(&mut self) -> (r: Option<FontChar>)
        ensures
            final(self).width == old(self).width,
            final(self).row == old(self).row,
            old(self).content@.len() == 0 ==> r is None && final(self).content@ == old(
                self,
            ).content@,
            old(self).content@.len() > 0 ==> r == Some(old(self).content@.last())
                && final(self).content@ == old(self).content@.drop_last(),
    {
        self.content.pop()
    }

    /// The rectangle this line covers once wrapped into rows of width
    /// `max_width`: as wide as its content up to that width, and one row
    /// of height `row_height` per wrapped row.
    pub fn wrapped_bbox(&self, max_width: u64, row_height: u64) -> (r: Rect)
        requires
            max_width >= 1,
            spec_wrapped_rows(self.width as int, max_width as int) <= u64::MAX,
            spec_wrapped_rows(self.width as int, max_width as int) * row_height <= u64::MAX,
        ensures
            r == rect_at(
                0,
                0,
                if self.width <= max_width {
                    self.width as int
                } else {
                    max_width as int
                },
                spec_wrapped_rows(self.width as int, max_width as int) * row_height,
            ),
    {
        let rows: u64 = if self.width % max_width != 0 {
            self.width / max_width + 1
        } else {
            self.width / max_width
        };
        let w: u64 = if self.width <= max_width {
            self.width
        } else {
            max_width
        };
        proof {
            assert(rows * row_height == spec_wrapped_rows(self.width as int, max_width as int)
                * row_height);
        }
        Rect::new(0, 0, w, rows * row_height)
    }

    /// Lay this line out against a target width, one glyph blit per
    /// non-whitespace glyph, wrapping onto extra rows as needed; the
    /// returned rectangle reports the width consumed (up to the target)
    /// and spans from the caller's origin row through the final row.
    pub fn render(&self, font: &FontDef, target_width: u64, x: u64, y: u64) -> (r: (
        Vec<RenderOp>,
        Rect,
    ))
        requires
            glyphs_fit(*font, self.content@),
            self.content@.len() <= u32::MAX,
            target_width <= u32::MAX,
            x <= u32::MAX,
            y + (self.row + self.content@.len() + 1) * font.glyph_height + font.max_ascent
                + i32::MAX + 1 <= u64::MAX,
        ensures
            ({
                let y0 = y + self.row * font.glyph_height;
                let fin = line_render_upto(
                    *font,
                    target_width as int,
                    x as int,
                    y0,
                    self.content@,
                    self.content@.len() as int,
                );
                &&& r.0@ == fin.ops
                &&& r.1 == rect_at(
                    x as int,
                    fin.y_off,
                    if fin.x_off <= target_width {
                        fin.x_off
                    } else {
                        target_width as int
                    },
                    font.glyph_height + fin.y_off - y,
                )
            }),
    {
        let len = self.content.len();
        let gh = font.glyph_height as u64;
        proof {
            vstd::arithmetic::mul::lemma_mul_inequality(
                self.row as int,
                self.row + len + 1,
                font.glyph_height as int,
            );
            assert(0 <= (self.row + len + 1) * font.glyph_height) by (nonlinear_arith)
                requires
                    0 <= self.row + len + 1 && 0 <= font.glyph_height,
            ;
        }
        let y0: u64 = y + (self.row as u64) * gh;
        let ghost gy0 = y0 as int;
        let ghost gt = target_width as int;
        let ghost gx = x as int;
        let mut ops: Vec<RenderOp> = Vec::new();
        let mut x_off: u64 = 0;
        let mut y_off: u64 = y0;
        let mut i: usize = 0;
        while i < len
            invariant
                glyphs_fit(*font, self.content@),
                len == self.content@.len(),
                len <= u32::MAX,
                target_width <= u32::MAX,
                x <= u32::MAX,
                y + (self.row + len + 1) * font.glyph_height + font.max_ascent + i32::MAX + 1
                    <= u64::MAX,
                gy0 == y0 as int,
                gt == target_width as int,
                gx == x as int,
                y0 == y + self.row * font.glyph_height,
                gh == font.glyph_height,
                0 <= i <= len,
                x_off == line_render_upto(*font, gt, gx, gy0, self.content@, i as int).x_off,
                y_off == line_render_upto(*font, gt, gx, gy0, self.content@, i as int).y_off,
                ops@ == line_render_upto(*font, gt, gx, gy0, self.content@, i as int).ops,
                x_off <= target_width + u32::MAX,
                y0 <= y_off,
                y_off <= y0 + (i as int) * font.glyph_height,
            decreases len - i,
        {
            let ghost pre = line_render_upto(*font, gt, gx, gy0, self.content@, i as int);
            proof {
                lemma_line_render_upto_bounds(*font, gt, gx, gy0, self.content@, i as int);
                lemma_line_y_bound(
                    y as int,
                    self.row as int,
                    i as int,
                    len as int,
                    font.glyph_height as int,
                );
                assert((i as int + 1) * font.glyph_height == i as int * font.glyph_height
                    + font.glyph_height) by (nonlinear_arith);
            }
            let g = self.content[i];
            let cw: u64 = if g.bbox.w <= 1 {
                font.whitespace_width as u64
            } else {
                g.bbox.w
            };
            if x_off + cw > target_width {
                x_off = 0;
                y_off = y_off + gh;
            }
            if !is_whitespace_char(g.ch) {
                let dst = font.get_char_aligned_rect(x + x_off, y_off, &g);
                ops.push(RenderOp::Blit { src: g.bbox, dst });
            }
            x_off = x_off + cw;
            proof {
                assert(line_render_upto(*font, gt, gx, gy0, self.content@, i as int + 1)
                    == line_render_step(*font, gt, gx, self.content@, pre, i as int));
            }
            i = i + 1;
        }
        let w: u64 = if x_off <= target_width {
            x_off
        } else {
            target_width
        };
        proof {
            lemma_line_y_bound(
                y as int,
                self.row as int,
                len as int,
                len as int,
                font.glyph_height as int,
            );
            assert(0 <= (len as int) * font.glyph_height) by (nonlinear_arith)
                requires
                    0 <= len as int && 0 <= font.glyph_height,
            ;
        }
        (ops, Rect::new(x, y_off, w, gh + y_off - y))
    }
}

} // verus!

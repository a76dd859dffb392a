//! The atlas builder: packs every rasterized glyph of a code-point
//! range into one bitmap and derives the font-wide metrics.

use vstd::prelude::*;

use crate::font::{FontDef, sum_widths};
use crate::geometry::{rect_at, Rect};
use crate::glyph::FontChar;
use crate::layout::spec_wrapped_rows;
use crate::{ATLAS_MAX_HEIGHT, ATLAS_MAX_WIDTH};

verus! {

/// What the rasterizer capability reports for one character: a one
/// byte per pixel bitmap, row-major with `pitch` bytes per row, plus
/// bearings and advances, all in pixels.
#[derive(Clone, Debug)]
pub struct RasterGlyph {
    pub ch: char,
    pub width: u32,
    pub height: u32,
    pub pitch: u32,
    pub bl: i32,
    pub bt: i32,
    pub ax: u32,
    pub ay: u32,
    pub bitmap: Vec<u8>,
}

impl RasterGlyph {
    /// Sane rasterizer output: the bitmap geometry is consistent, and no
    /// dimension or bearing exceeds the largest atlas this crate will
    /// build. A glyph violating these is a configuration error the
    /// caller must reject before packing.
    pub open spec fn wf(self) -> bool {
        &&& self.width <= ATLAS_MAX_WIDTH
        &&& self.height <= ATLAS_MAX_HEIGHT
        &&& -(ATLAS_MAX_WIDTH as int) <= self.bl <= ATLAS_MAX_WIDTH as int
        &&& -(ATLAS_MAX_HEIGHT as int) <= self.bt <= ATLAS_MAX_HEIGHT as int
        &&& self.width <= self.pitch
        &&& self.pitch * self.height <= self.bitmap@.len()
    }
}

/// Largest top bearing of a run of glyphs, at least 0: how far the
/// tallest glyph rises above the baseline.
pub open spec fn max_ascent_of(s: Seq<RasterGlyph>) -> int
    decreases s.len(),
{
    if s.len() == 0 {
        0
    } else {
        let m = max_ascent_of(s.drop_last());
        if s.last().bt > m {
            s.last().bt as int
        } else {
            m
        }
    }
}

/// Largest descent of a run of glyphs, at least 0: how far the deepest
/// glyph hangs below the baseline.
pub open spec fn max_descent_of(s: Seq<RasterGlyph>) -> int
    decreases s.len(),
{
    if s.len() == 0 {
        0
    } else {
        let m = max_descent_of(s.drop_last());
        if s.last().height - s.last().bt > m {
            s.last().height - s.last().bt
        } else {
            m
        }
    }
}

/// Largest left bearing of a run of glyphs, at least 0.
pub open spec fn max_back_of(s: Seq<RasterGlyph>) -> int
    decreases s.len(),
{
    if s.len() == 0 {
        0
    } else {
        let m = max_back_of(s.drop_last());
        if s.last().bl > m {
            s.last().bl as int
        } else {
            m
        }
    }
}

/// Largest right extent beyond the origin of a run of glyphs, at least
/// 0: bitmap width minus left bearing.
pub open spec fn max_forward_of(s: Seq<RasterGlyph>) -> int
    decreases s.len(),
{
    if s.len() == 0 {
        0
    } else {
        let m = max_forward_of(s.drop_last());
        if s.last().width - s.last().bl > m {
            s.last().width - s.last().bl
        } else {
            m
        }
    }
}

/// Largest bitmap width of a run of glyphs.
pub open spec fn max_width_of(s: Seq<RasterGlyph>) -> int
    decreases s.len(),
{
    if s.len() == 0 {
        0
    } else {
        let m = max_width_of(s.drop_last());
        if s.last().width > m {
            s.last().width as int
        } else {
            m
        }
    }
}

/// The font-wide maxima stay within the bounds the per-glyph metrics
/// respect.
pub proof fn lemma_maxima_bounds(s: Seq<RasterGlyph>)
    requires
        forall|i: int| 0 <= i < s.len() ==> (#[trigger] s[i]).wf(),
    ensures
        0 <= max_ascent_of(s) <= ATLAS_MAX_HEIGHT,
        0 <= max_descent_of(s) <= 2 * ATLAS_MAX_HEIGHT,
        0 <= max_back_of(s) <= ATLAS_MAX_WIDTH,
        0 <= max_forward_of(s) <= 2 * ATLAS_MAX_WIDTH,
        0 <= max_width_of(s) <= ATLAS_MAX_WIDTH,
    decreases s.len(),
{
    if s.len() > 0 {
        assert(s[s.len() - 1].wf());
        lemma_maxima_bounds(s.drop_last());
    }
}

/// Each glyph's own metrics are dominated by the font-wide maxima.
pub proof fn lemma_maxima_dominate(s: Seq<RasterGlyph>, i: int)
    requires
        0 <= i < s.len(),
    ensures
        max_ascent_of(s) >= s[i].bt,
        max_descent_of(s) >= s[i].height - s[i].bt,
        max_back_of(s) >= s[i].bl,
        max_forward_of(s) >= s[i].width - s[i].bl,
        max_width_of(s) >= s[i].width,
    decreases s.len(),
{
    if i < s.len() - 1 {
        lemma_maxima_dominate(s.drop_last(), i);
    }
}

/// The byte of a row-major bitmap with row stride `stride` at pixel
/// column `gx` of pixel row `gy`.
pub open spec fn pix_at(s: Seq<u8>, stride: int, gx: int, gy: int) -> u8 {
    s[gy * stride + gx]
}

/// Distinct (column, row) pixel coordinates of a row-major bitmap have
/// distinct flat indices.
proof fn lemma_flat_injective(stride: int, gx1: int, gy1: int, gx2: int, gy2: int)
    requires
        0 <= gx1 < stride,
        0 <= gx2 < stride,
        0 <= gy1,
        0 <= gy2,
        gy1 * stride + gx1 == gy2 * stride + gx2,
    ensures
        gy1 == gy2,
        gx1 == gx2,
{
    assert(gy1 == gy2 && gx1 == gx2) by (nonlinear_arith)
        requires
            0 <= gx1 < stride,
            0 <= gx2 < stride,
            0 <= gy1,
            0 <= gy2,
            gy1 * stride + gx1 == gy2 * stride + gx2,
    ;
}

/// Copy the top-left `copy_w` by `copy_h` pixels of a glyph bitmap into
/// the atlas bitmap at cell origin `(cell_x, cell_y)`. Every other
/// atlas pixel keeps its value.
fn blit_cell(
    pixels: &mut Vec<u8>,
    atlas_w: u64,
    cell_x: u64,
    cell_y: u64,
    copy_w: u64,
    copy_h: u64,
    src: &Vec<u8>,
    pitch: u64,
)
    requires
        atlas_w >= 1,
        cell_x + copy_w <= atlas_w,
        (cell_y + copy_h) * atlas_w <= old(pixels)@.len(),
        copy_w <= pitch,
        copy_h * pitch <= src@.len(),
    ensures
        final(pixels)@.len() == old(pixels)@.len(),
        forall|px: int, py: int|
            0 <= px < copy_w && 0 <= py < copy_h ==> pix_at(
                final(pixels)@,
                atlas_w as int,
                cell_x + px,
                cell_y + py,
            ) == pix_at(src@, pitch as int, px, py),
        forall|gx: int, gy: int|
            0 <= gx < atlas_w && 0 <= gy && gy * atlas_w + gx < old(pixels)@.len() && !(cell_x
                <= gx < cell_x + copy_w && cell_y <= gy < cell_y + copy_h) ==> pix_at(
                final(pixels)@,
                atlas_w as int,
                gx,
                gy,
            ) == pix_at(old(pixels)@, atlas_w as int, gx, gy),
{
    let ghost orig = pixels@;
    let n_pixels: usize = pixels.len();
    let n_src: usize = src.len();
    let mut py: u64 = 0;
    while py < copy_h
        invariant
            atlas_w >= 1,
            cell_x + copy_w <= atlas_w,
            (cell_y + copy_h) * atlas_w <= orig.len(),
            copy_w <= pitch,
            copy_h * pitch <= src@.len(),
            orig.len() == n_pixels,
            src@.len() == n_src,
            0 <= py <= copy_h,
            pixels@.len() == orig.len(),
            forall|qx: int, qy: int|
                0 <= qx < copy_w && 0 <= qy < py ==> pix_at(
                    pixels@,
                    atlas_w as int,
                    cell_x + qx,
                    cell_y + qy,
                ) == pix_at(src@, pitch as int, qx, qy),
            forall|gx: int, gy: int|
                0 <= gx < atlas_w && 0 <= gy && gy * atlas_w + gx < orig.len() && !(cell_x <= gx
                    < cell_x + copy_w && cell_y <= gy < cell_y + copy_h) ==> pix_at(
                    pixels@,
                    atlas_w as int,
                    gx,
                    gy,
                ) == pix_at(orig, atlas_w as int, gx, gy),
        decreases copy_h - py,
    {
        proof {
            assert(cell_y as int + copy_h as int <= (cell_y as int + copy_h as int) * (
            atlas_w as int)) by (nonlinear_arith)
                requires
                    atlas_w >= 1 && 0 <= cell_y as int + copy_h as int,
            ;
            vstd::arithmetic::mul::lemma_mul_inequality(
                cell_y as int + py,
                cell_y as int + copy_h as int,
                atlas_w as int,
            );
            vstd::arithmetic::mul::lemma_mul_inequality(
                cell_y as int + py + 1,
                cell_y as int + copy_h as int,
                atlas_w as int,
            );
            vstd::arithmetic::mul::lemma_mul_is_distributive_add_other_way(
                atlas_w as int,
                cell_y as int + py,
                1,
            );
            vstd::arithmetic::mul::lemma_mul_inequality(py as int, copy_h as int, pitch as int);
            vstd::arithmetic::mul::lemma_mul_inequality(py + 1, copy_h as int, pitch as int);
            vstd::arithmetic::mul::lemma_mul_is_distributive_add_other_way(
                pitch as int,
                py as int,
                1,
            );
            assert(0 <= (cell_y + py) * (atlas_w as int)) by (nonlinear_arith)
                requires
                    0 <= cell_y as int + py && 0 <= atlas_w,
            ;
            assert(0 <= py * (pitch as int)) by (nonlinear_arith)
                requires
                    0 <= py && 0 <= pitch,
            ;
        }
        let row_base: u64 = (cell_y + py) * atlas_w;
        let src_base: u64 = py * pitch;
        let mut px: u64 = 0;
        while px < copy_w
            invariant
                atlas_w >= 1,
                cell_x + copy_w <= atlas_w,
                (cell_y + copy_h) * atlas_w <= orig.len(),
                copy_w <= pitch,
                copy_h * pitch <= src@.len(),
                orig.len() == n_pixels,
                src@.len() == n_src,
                0 <= py < copy_h,
                0 <= px <= copy_w,
                pixels@.len() == orig.len(),
                row_base == (cell_y + py) * atlas_w,
                src_base == py * pitch,
                row_base + atlas_w <= orig.len(),
                src_base + pitch <= src@.len(),
                forall|qx: int, qy: int|
                    0 <= qx < copy_w && 0 <= qy < py ==> pix_at(
                        pixels@,
                        atlas_w as int,
                        cell_x + qx,
                        cell_y + qy,
                    ) == pix_at(src@, pitch as int, qx, qy),
                forall|qx: int|
                    0 <= qx < px ==> pix_at(pixels@, atlas_w as int, cell_x + qx, cell_y + py)
                        == pix_at(src@, pitch as int, qx, py as int),
                forall|gx: int, gy: int|
                    0 <= gx < atlas_w && 0 <= gy && gy * atlas_w + gx < orig.len() && !(cell_x
                        <= gx < cell_x + copy_w && cell_y <= gy < cell_y + copy_h) ==> pix_at(
                        pixels@,
                        atlas_w as int,
                        gx,
                        gy,
                    ) == pix_at(orig, atlas_w as int, gx, gy),
            decreases copy_w - px,
        {
            let idx: u64 = row_base + cell_x + px;
            let sidx: u64 = src_base + px;
            let ghost prev = pixels@;
            let v: u8 = src[sidx as usize];
            pixels[idx as usize] = v;
            proof {
                let aw = atlas_w as int;
                let wx = cell_x as int + px;
                let wy = cell_y as int + py;
                assert(idx == wy * aw + wx);
                assert forall|qx: int, qy: int|
                    0 <= qx < copy_w && 0 <= qy < py implies pix_at(
                    pixels@,
                    aw,
                    cell_x + qx,
                    cell_y + qy,
                ) == pix_at(src@, pitch as int, qx, qy) by {
                    if cell_y + qy != wy || cell_x + qx != wx {
                        if (cell_y + qy) * aw + (cell_x + qx) == wy * aw + wx {
                            lemma_flat_injective(aw, cell_x + qx, cell_y + qy, wx, wy);
                        }
                        vstd::arithmetic::mul::lemma_mul_inequality(
                            cell_y as int + qy + 1,
                            cell_y as int + copy_h as int,
                            aw,
                        );
                        vstd::arithmetic::mul::lemma_mul_is_distributive_add_other_way(
                            aw,
                            cell_y as int + qy,
                            1,
                        );
                        assert(0 <= (cell_y + qy) * aw) by (nonlinear_arith)
                            requires
                                0 <= cell_y as int + qy && 0 <= aw,
                        ;
                    }
                }
                assert forall|qx: int| 0 <= qx < px implies pix_at(
                    pixels@,
                    aw,
                    cell_x + qx,
                    cell_y + py,
                ) == pix_at(src@, pitch as int, qx, py as int) by {
                    if cell_x + qx != wx {
                        if wy * aw + (cell_x + qx) == wy * aw + wx {
                            lemma_flat_injective(aw, cell_x + qx, wy, wx, wy);
                        }
                    }
                }
                assert forall|gx: int, gy: int|
                    0 <= gx < atlas_w && 0 <= gy && gy * aw + gx < orig.len() && !(cell_x <= gx
                        < cell_x + copy_w && cell_y <= gy < cell_y + copy_h) implies pix_at(
                    pixels@,
                    aw,
                    gx,
                    gy,
                ) == pix_at(orig, aw, gx, gy) by {
                    if gy * aw + gx == wy * aw + wx {
                        lemma_flat_injective(aw, gx, gy, wx, wy);
                    }
                }
                assert(pix_at(pixels@, aw, wx, wy) == pix_at(src@, pitch as int, px as int, py as int));
            }
            px = px + 1;
        }
        proof {
            assert forall|qx: int, qy: int|
                0 <= qx < copy_w && 0 <= qy < py + 1 implies pix_at(
                pixels@,
                atlas_w as int,
                cell_x + qx,
                cell_y + qy,
            ) == pix_at(src@, pitch as int, qx, qy) by {}
        }
        py = py + 1;
    }
}

/// The smaller of two values.
pub open spec fn spec_min(a: int, b: int) -> int {
    if a <= b {
        a
    } else {
        b
    }
}

/// Number of cell columns of the packing grid: all glyphs side by side
/// when one row of `n` cells of width `fs` fits the atlas width limit,
/// else as many cells as the limit holds.
pub open spec fn spec_atlas_cols(n: int, fs: int) -> int {
    if n * fs <= ATLAS_MAX_WIDTH {
        n
    } else {
        ATLAS_MAX_WIDTH as int / fs
    }
}

/// Number of cell rows of the packing grid: the glyph count divided by
/// the column count, rounded up.
pub open spec fn spec_atlas_rows(n: int, fs: int) -> int {
    spec_wrapped_rows(n, spec_atlas_cols(n, fs))
}

/// Width of the atlas bitmap in pixels.
pub open spec fn spec_atlas_width(n: int, fs: int) -> int {
    if n * fs <= ATLAS_MAX_WIDTH {
        n * fs
    } else {
        ATLAS_MAX_WIDTH as int
    }
}

/// Height of the atlas bitmap in pixels, one cell row height per row.
pub open spec fn spec_atlas_height(n: int, fs: int, ch: int) -> int {
    spec_atlas_rows(n, fs) * ch
}

/// Grid column of the cell glyph `i` is packed into.
pub open spec fn spec_cell_col(i: int, n: int, fs: int) -> int {
    i % spec_atlas_cols(n, fs)
}

/// Grid row of the cell glyph `i` is packed into.
pub open spec fn spec_cell_row(i: int, n: int, fs: int) -> int {
    i / spec_atlas_cols(n, fs)
}

/// Glyph `k`'s blitted region covers atlas pixel `(gx, gy)`: the cell
/// origin plus the glyph bitmap's size, clipped to the cell.
pub open spec fn spec_in_glyph_region(
    glyphs: Seq<RasterGlyph>,
    k: int,
    n: int,
    fs: int,
    ch: int,
    gx: int,
    gy: int,
) -> bool {
    let cx = spec_cell_col(k, n, fs) * fs;
    let cy = spec_cell_row(k, n, fs) * ch;
    &&& cx <= gx < cx + spec_min(glyphs[k].width as int, fs)
    &&& cy <= gy < cy + spec_min(glyphs[k].height as int, ch)
}

/// The glyph record the builder stores for glyph `i`: the glyph's own
/// metrics, and as atlas region its cell's origin with the bitmap's
/// size clipped to the cell.
pub open spec fn spec_record(g: RasterGlyph, i: int, n: int, fs: int, ch: int) -> FontChar {
    FontChar {
        ch: g.ch,
        bbox: rect_at(
            spec_cell_col(i, n, fs) * fs,
            spec_cell_row(i, n, fs) * ch,
            spec_min(g.width as int, fs),
            spec_min(g.height as int, ch),
        ),
        _ax: g.ax,
        _ay: g.ay,
        bl: g.bl,
        bt: g.bt,
    }
}

/// Every cell of the packing grid lies inside the atlas bitmap.
proof fn lemma_grid_bounds(i: int, n: int, fs: int, ch: int)
    requires
        0 <= i < n,
        1 <= fs <= ATLAS_MAX_WIDTH,
        0 <= ch,
    ensures
        1 <= spec_atlas_cols(n, fs) <= n,
        0 <= spec_cell_col(i, n, fs) < spec_atlas_cols(n, fs),
        0 <= spec_cell_row(i, n, fs) < spec_atlas_rows(n, fs),
        (spec_cell_col(i, n, fs) + 1) * fs <= spec_atlas_width(n, fs),
        (spec_cell_row(i, n, fs) + 1) * ch <= spec_atlas_height(n, fs, ch),
        spec_atlas_width(n, fs) <= ATLAS_MAX_WIDTH,
        spec_atlas_rows(n, fs) <= n,
{
    let w = ATLAS_MAX_WIDTH as int;
    let cols = spec_atlas_cols(n, fs);
    if n * fs <= w {
        assert(cols == n);
        assert(n <= n * fs) by (nonlinear_arith)
            requires
                1 <= fs && 1 <= n,
        ;
    } else {
        assert(cols == w / fs);
        assert(1 <= w / fs) by (nonlinear_arith)
            requires
                1 <= fs <= w,
        ;
        assert(w / fs <= n) by (nonlinear_arith)
            requires
                1 <= fs && n * fs > w && 0 <= n,
        ;
    }
    let col = spec_cell_col(i, n, fs);
    let row = spec_cell_row(i, n, fs);
    let rows = spec_atlas_rows(n, fs);
    vstd::arithmetic::div_mod::lemma_mod_bound(i, cols);
    vstd::arithmetic::div_mod::lemma_fundamental_div_mod(i, cols);
    vstd::arithmetic::div_mod::lemma_fundamental_div_mod(n, cols);
    vstd::arithmetic::div_mod::lemma_mod_bound(n, cols);
    // the grid has at least as many cells as glyphs
    assert(n <= rows * cols) by {
        vstd::arithmetic::mul::lemma_mul_is_commutative(n / cols, cols);
        vstd::arithmetic::mul::lemma_mul_basics(cols);
        if n % cols == 0 {
            assert(rows == n / cols);
        } else {
            assert(rows == n / cols + 1);
            vstd::arithmetic::mul::lemma_mul_is_distributive_add_other_way(cols, n / cols, 1);
        }
    }
    assert(0 <= row) by {
        vstd::arithmetic::div_mod::lemma_div_pos_is_pos(i, cols);
    }
    assert(row < rows) by {
        if row >= rows {
            vstd::arithmetic::mul::lemma_mul_inequality(rows, row, cols);
            assert(i >= row * cols);
        }
    }
    assert((col + 1) * fs <= cols * fs) by {
        vstd::arithmetic::mul::lemma_mul_inequality(col + 1, cols, fs);
    }
    if n * fs <= w {
        assert(cols * fs == spec_atlas_width(n, fs));
    } else {
        vstd::arithmetic::div_mod::lemma_fundamental_div_mod(w, fs);
        vstd::arithmetic::div_mod::lemma_mod_bound(w, fs);
        vstd::arithmetic::mul::lemma_mul_is_commutative(cols, fs);
        assert(cols * fs <= w);
    }
    assert((row + 1) * ch <= rows * ch) by {
        vstd::arithmetic::mul::lemma_mul_inequality(row + 1, rows, ch);
    }
    assert(rows <= n) by {
        if n % cols == 0 {
            assert(n / cols <= n) by (nonlinear_arith)
                requires
                    1 <= cols && 0 <= n,
            ;
        } else {
            assert(n / cols + 1 <= n) by (nonlinear_arith)
                requires
                    1 <= cols && 1 <= n && n % cols != 0,
            ;
        }
    }
}

/// A pixel coordinate inside a bitmap has a flat index inside it.
proof fn lemma_pix_index_bound(aw: int, ah: int, gx: int, gy: int)
    requires
        0 <= gx < aw,
        0 <= gy < ah,
    ensures
        0 <= gy * aw + gx < ah * aw,
{
    vstd::arithmetic::mul::lemma_mul_inequality(gy + 1, ah, aw);
    vstd::arithmetic::mul::lemma_mul_is_distributive_add_other_way(aw, gy, 1);
    assert(0 <= gy * aw) by (nonlinear_arith)
        requires
            0 <= gy && 0 <= aw,
    ;
}

/// Distinct glyphs are packed into disjoint cells: no pixel of glyph
/// `k`'s cell lies in glyph `i`'s cell.
proof fn lemma_cells_disjoint(k: int, i: int, n: int, fs: int, ch: int, gx: int, gy: int)
    requires
        0 <= k < n,
        0 <= i < n,
        k != i,
        1 <= fs <= ATLAS_MAX_WIDTH,
        0 <= ch,
        spec_cell_col(k, n, fs) * fs <= gx < spec_cell_col(k, n, fs) * fs + fs,
        spec_cell_row(k, n, fs) * ch <= gy < spec_cell_row(k, n, fs) * ch + ch,
    ensures
        !(spec_cell_col(i, n, fs) * fs <= gx < spec_cell_col(i, n, fs) * fs + fs
            && spec_cell_row(i, n, fs) * ch <= gy < spec_cell_row(i, n, fs) * ch + ch),
{
    let cols = spec_atlas_cols(n, fs);
    lemma_grid_bounds(k, n, fs, ch);
    lemma_grid_bounds(i, n, fs, ch);
    let ck = spec_cell_col(k, n, fs);
    let rk = spec_cell_row(k, n, fs);
    let ci = spec_cell_col(i, n, fs);
    let ri = spec_cell_row(i, n, fs);
    vstd::arithmetic::div_mod::lemma_fundamental_div_mod(k, cols);
    vstd::arithmetic::div_mod::lemma_fundamental_div_mod(i, cols);
    if rk == ri && ck == ci {
        assert(k == i);
    } else if rk == ri {
        if ck < ci {
            vstd::arithmetic::mul::lemma_mul_inequality(ck + 1, ci, fs);
            assert((ck + 1) * fs == ck * fs + fs) by (nonlinear_arith);
            assert(gx < ci * fs);
        } else {
            vstd::arithmetic::mul::lemma_mul_inequality(ci + 1, ck, fs);
            assert((ci + 1) * fs == ci * fs + fs) by (nonlinear_arith);
            assert(gx >= ci * fs + fs);
        }
    } else {
        if rk < ri {
            vstd::arithmetic::mul::lemma_mul_inequality(rk + 1, ri, ch);
            assert((rk + 1) * ch == rk * ch + ch) by (nonlinear_arith);
            assert(gy < ri * ch);
        } else {
            vstd::arithmetic::mul::lemma_mul_inequality(ri + 1, rk, ch);
            assert((ri + 1) * ch == ri * ch + ch) by (nonlinear_arith);
            assert(gy >= ri * ch + ch);
        }
    }
}

/// Why an atlas could not be built. All of these are fatal
/// configuration errors: there is no degraded-atlas mode.
#[derive(Clone, Copy, Debug, PartialEq, Eq, Structural)]
pub enum AtlasError {
    /// The code-point range holds no glyph.
    EmptyRange,
    /// One glyph cell is wider than the atlas width limit.
    CellTooWide,
    /// The packed rows would exceed the atlas height limit.
    AtlasTooTall,
}

/// One packed atlas: the bitmap (one byte per pixel, row-major, `width`
/// bytes per row) and the font table describing it.
#[derive(Clone, Debug)]
pub struct Atlas {
    pub pixels: Vec<u8>,
    pub width: u32,
    pub height: u32,
    pub font: FontDef,
}

/// Everything a successful atlas build guarantees: the font table holds
/// one record per glyph with the packing grid's cell as its atlas
/// region, the font-wide maxima are exactly the maxima over the input
/// run, every record's region lies inside the atlas bitmap, and the
/// bitmap holds each glyph's pixels at its region.
pub open spec fn spec_built_atlas(
    a: Atlas,
    glyphs: Seq<RasterGlyph>,
    range_first: u32,
    fs: u32,
    ch: u32,
    char_spacing: u32,
    monospaced: bool,
) -> bool {
    let n = glyphs.len() as int;
    &&& a.font.wf()
    &&& a.font.range_first == range_first
    &&& a.font.char_lookup@.len() == n
    &&& a.font.font_pixel_size == fs
    &&& a.font.char_spacing == char_spacing
    &&& a.font.monospaced == monospaced
    &&& a.font.max_ascent == max_ascent_of(glyphs)
    &&& a.font.max_descent == max_descent_of(glyphs)
    &&& a.font.max_back == max_back_of(glyphs)
    &&& a.font.max_forward == max_forward_of(glyphs)
    &&& a.font.glyph_width == max_width_of(glyphs)
    &&& a.font.glyph_height == a.font.max_ascent + a.font.max_descent
    &&& a.font.whitespace_width == sum_widths(a.font.char_lookup@) / n
    &&& a.width == spec_atlas_width(n, fs as int)
    &&& a.height == spec_atlas_height(n, fs as int, ch as int)
    &&& a.width <= ATLAS_MAX_WIDTH
    &&& a.height <= ATLAS_MAX_HEIGHT
    &&& a.pixels@.len() == a.width * a.height
    &&& forall|i: int|
        0 <= i < n ==> #[trigger] a.font.char_lookup@[i] == spec_record(
            glyphs[i],
            i,
            n,
            fs as int,
            ch as int,
        )
    &&& forall|i: int|
        0 <= i < n ==> (#[trigger] a.font.char_lookup@[i]).bbox.spec_within(
            a.width as int,
            a.height as int,
        )
    &&& forall|i: int, px: int, py: int|
        0 <= i < n && 0 <= px < spec_min(glyphs[i].width as int, fs as int) && 0 <= py < spec_min(
            glyphs[i].height as int,
            ch as int,
        ) ==> pix_at(
            a.pixels@,
            a.width as int,
            spec_cell_col(i, n, fs as int) * fs + px,
            spec_cell_row(i, n, fs as int) * ch + py,
        ) == pix_at(glyphs[i].bitmap@, glyphs[i].pitch as int, px, py)
    &&& forall|gx: int, gy: int|
        0 <= gx < a.width && 0 <= gy < a.height && (forall|k: int|
            0 <= k < n ==> !spec_in_glyph_region(glyphs, k, n, fs as int, ch as int, gx, gy))
            ==> pix_at(a.pixels@, a.width as int, gx, gy) == 0
}

/// Pack one rasterized glyph per code point of a range into a single
/// atlas bitmap, computing the font-wide metrics as running maxima and
/// each glyph's cell in a left-to-right, top-to-bottom grid of
/// `font_size` by `cell_row_height` cells. Fails, with nothing built,
/// when the range is empty or the grid cannot fit the atlas size
/// limits; those are configuration errors with no degraded mode.
pub fn build_atlas(
    glyphs: &Vec<RasterGlyph>,
    range_first: u32,
    font_size: u32,
    cell_row_height: u32,
    char_spacing: u32,
    monospaced: bool,
) -> (r: Result<Atlas, AtlasError>)
    requires
        forall|i: int| 0 <= i < glyphs@.len() ==> (#[trigger] glyphs@[i]).wf(),
        glyphs@.len() <= u32::MAX,
        font_size >= 1,
        range_first + glyphs@.len() <= u32::MAX as int + 1,
    ensures
        (glyphs@.len() == 0) <==> r == Err::<Atlas, AtlasError>(AtlasError::EmptyRange),
        (glyphs@.len() > 0 && font_size > ATLAS_MAX_WIDTH) <==> r == Err::<Atlas, AtlasError>(
            AtlasError::CellTooWide,
        ),
        (glyphs@.len() > 0 && font_size <= ATLAS_MAX_WIDTH && spec_atlas_height(
            glyphs@.len() as int,
            font_size as int,
            cell_row_height as int,
        ) > ATLAS_MAX_HEIGHT) <==> r == Err::<Atlas, AtlasError>(AtlasError::AtlasTooTall),
        r matches Ok(a) ==> spec_built_atlas(
            a,
            glyphs@,
            range_first,
            font_size,
            cell_row_height,
            char_spacing,
            monospaced,
        ),
{
    let n: usize = glyphs.len();
    if n == 0 {
        return Err(AtlasError::EmptyRange);
    }
    if font_size > ATLAS_MAX_WIDTH {
        return Err(AtlasError::CellTooWide);
    }
    let ghost gs = glyphs@;
    let ghost ni = n as int;
    let ghost fsi = font_size as int;
    let ghost chi = cell_row_height as int;
    let fs64: u64 = font_size as u64;
    let ch64: u64 = cell_row_height as u64;
    proof {
        vstd::arithmetic::mul::lemma_mul_upper_bound(
            ni,
            u32::MAX as int,
            fsi,
            ATLAS_MAX_WIDTH as int,
        );
        lemma_grid_bounds(0, ni, fsi, chi);
    }
    let total: u64 = (n as u64) * fs64;
    let cols: u64 = if total <= ATLAS_MAX_WIDTH as u64 {
        n as u64
    } else {
        (ATLAS_MAX_WIDTH / font_size) as u64
    };
    proof {
        assert(cols as int == spec_atlas_cols(ni, fsi));
        assert(ni / (cols as int) <= ni) by (nonlinear_arith)
            requires
                1 <= cols as int && 0 <= ni,
        ;
    }
    let rows: u64 = (n as u64) / cols + if (n as u64) % cols != 0 {
        1u64
    } else {
        0u64
    };
    proof {
        assert(rows as int == spec_atlas_rows(ni, fsi));
    }
    if cell_row_height > 0 && rows > (ATLAS_MAX_HEIGHT / cell_row_height) as u64 {
        proof {
            let h = ATLAS_MAX_HEIGHT as int;
            vstd::arithmetic::div_mod::lemma_fundamental_div_mod(h, chi);
            vstd::arithmetic::div_mod::lemma_mod_bound(h, chi);
            vstd::arithmetic::mul::lemma_mul_inequality(h / chi + 1, rows as int, chi);
            vstd::arithmetic::mul::lemma_mul_is_distributive_add_other_way(chi, h / chi, 1);
            vstd::arithmetic::mul::lemma_mul_is_commutative(h / chi, chi);
            vstd::arithmetic::mul::lemma_mul_basics(chi);
            assert(spec_atlas_height(ni, fsi, chi) > ATLAS_MAX_HEIGHT);
        }
        return Err(AtlasError::AtlasTooTall);
    }
    proof {
        if cell_row_height > 0 {
            let h = ATLAS_MAX_HEIGHT as int;
            vstd::arithmetic::div_mod::lemma_fundamental_div_mod(h, chi);
            vstd::arithmetic::div_mod::lemma_mod_bound(h, chi);
            vstd::arithmetic::mul::lemma_mul_inequality(rows as int, h / chi, chi);
            vstd::arithmetic::mul::lemma_mul_is_commutative(h / chi, chi);
        } else {
            assert((rows as int) * chi == 0) by (nonlinear_arith)
                requires
                    chi == 0,
            ;
        }
        assert((rows as int) * chi <= ATLAS_MAX_HEIGHT);
        assert(0 <= (rows as int) * chi) by (nonlinear_arith)
            requires
                0 <= rows as int && 0 <= chi,
        ;
    }
    let atlas_h: u64 = rows * ch64;
    let atlas_w: u64 = if total <= ATLAS_MAX_WIDTH as u64 {
        total
    } else {
        ATLAS_MAX_WIDTH as u64
    };
    proof {
        assert(atlas_w as int == spec_atlas_width(ni, fsi));
        assert(atlas_h as int == spec_atlas_height(ni, fsi, chi));
        assert(fsi <= ni * fsi) by (nonlinear_arith)
            requires
                1 <= ni && 0 <= fsi,
        ;
        vstd::arithmetic::mul::lemma_mul_upper_bound(
            atlas_w as int,
            ATLAS_MAX_WIDTH as int,
            atlas_h as int,
            ATLAS_MAX_HEIGHT as int,
        );
        assert(0 <= (atlas_w as int) * (atlas_h as int)) by (nonlinear_arith)
            requires
                0 <= atlas_w as int && 0 <= atlas_h as int,
        ;
    }
    let npix: u64 = atlas_w * atlas_h;
    let mut pixels: Vec<u8> = vec![0u8; npix as usize];
    proof {
        assert forall|gx: int, gy: int|
            0 <= gx < atlas_w && 0 <= gy < atlas_h implies pix_at(
            pixels@,
            atlas_w as int,
            gx,
            gy,
        ) == 0 by {
            lemma_pix_index_bound(atlas_w as int, atlas_h as int, gx, gy);
            vstd::arithmetic::mul::lemma_mul_is_commutative(atlas_h as int, atlas_w as int);
            let idx = gy * (atlas_w as int) + gx;
            assert(vstd::pervasive::cloned(0u8, pixels@[idx]));
        }
    }

    // Running maxima over the whole run.
    let mut max_ascent: u32 = 0;
    let mut max_descent: u32 = 0;
    let mut max_back: u32 = 0;
    let mut max_forward: u32 = 0;
    let mut max_width: u32 = 0;
    let mut i: usize = 0;
    proof {
        assert(gs.take(0) =~= Seq::<RasterGlyph>::empty());
    }
    while i < n
        invariant
            0 <= i <= n,
            n == gs.len(),
            gs == glyphs@,
            forall|k: int| 0 <= k < gs.len() ==> (#[trigger] gs[k]).wf(),
            max_ascent == max_ascent_of(gs.take(i as int)),
            max_descent == max_descent_of(gs.take(i as int)),
            max_back == max_back_of(gs.take(i as int)),
            max_forward == max_forward_of(gs.take(i as int)),
            max_width == max_width_of(gs.take(i as int)),
        decreases n - i,
    {
        proof {
            assert(forall|k: int|
                0 <= k < gs.take(i as int).len() ==> (#[trigger] gs.take(i as int)[k]).wf());
            lemma_maxima_bounds(gs.take(i as int));
            assert(gs.take(i + 1).drop_last() =~= gs.take(i as int));
            assert(gs.take(i + 1).last() == gs[i as int]);
        }
        let g = &glyphs[i];
        if g.bt > max_ascent as i32 {
            max_ascent = g.bt as u32;
        }
        let desc: i64 = g.height as i64 - g.bt as i64;
        if desc > max_descent as i64 {
            max_descent = desc as u32;
        }
        if g.bl > max_back as i32 {
            max_back = g.bl as u32;
        }
        let fwd: i64 = g.width as i64 - g.bl as i64;
        if fwd > max_forward as i64 {
            max_forward = fwd as u32;
        }
        if g.width > max_width {
            max_width = g.width;
        }
        i = i + 1;
    }
    proof {
        assert(gs.take(ni) =~= gs);
        lemma_maxima_bounds(gs);
    }

    // Pack each glyph into its grid cell and record its region.
    let mut records: Vec<FontChar> = Vec::new();
    let mut i: usize = 0;
    while i < n
        invariant
            0 <= i <= n,
            1 <= n <= u32::MAX,
            n == gs.len(),
            gs == glyphs@,
            forall|k: int| 0 <= k < gs.len() ==> (#[trigger] gs[k]).wf(),
            1 <= font_size <= ATLAS_MAX_WIDTH,
            fsi == font_size as int,
            chi == cell_row_height as int,
            ni == n as int,
            fs64 == font_size as u64,
            ch64 == cell_row_height as u64,
            cols as int == spec_atlas_cols(ni, fsi),
            atlas_w as int == spec_atlas_width(ni, fsi),
            atlas_h as int == spec_atlas_height(ni, fsi, chi),
            1 <= atlas_w <= ATLAS_MAX_WIDTH,
            atlas_h <= ATLAS_MAX_HEIGHT,
            pixels@.len() == (atlas_w as int) * (atlas_h as int),
            records@.len() == i,
            forall|k: int|
                0 <= k < i ==> #[trigger] records@[k] == spec_record(gs[k], k, ni, fsi, chi),
            forall|k: int, px: int, py: int|
                0 <= k < i && 0 <= px < spec_min(gs[k].width as int, fsi) && 0 <= py < spec_min(
                    gs[k].height as int,
                    chi,
                ) ==> pix_at(
                    pixels@,
                    atlas_w as int,
                    spec_cell_col(k, ni, fsi) * fsi + px,
                    spec_cell_row(k, ni, fsi) * chi + py,
                ) == pix_at(gs[k].bitmap@, gs[k].pitch as int, px, py),
            forall|gx: int, gy: int|
                0 <= gx < atlas_w && 0 <= gy < atlas_h && (forall|k: int|
                    0 <= k < i ==> !spec_in_glyph_region(gs, k, ni, fsi, chi, gx, gy)) ==> pix_at(
                    pixels@,
                    atlas_w as int,
                    gx,
                    gy,
                ) == 0,
        decreases n - i,
    {
        let ghost ii = i as int;
        proof {
            lemma_grid_bounds(ii, ni, fsi, chi);
            assert((spec_cell_col(ii, ni, fsi) + 1) * fsi == spec_cell_col(ii, ni, fsi) * fsi
                + fsi) by (nonlinear_arith);
            assert((spec_cell_row(ii, ni, fsi) + 1) * chi == spec_cell_row(ii, ni, fsi) * chi
                + chi) by (nonlinear_arith);
            assert(0 <= spec_cell_col(ii, ni, fsi) * fsi) by (nonlinear_arith)
                requires
                    0 <= spec_cell_col(ii, ni, fsi) && 0 <= fsi,
            ;
            assert(0 <= spec_cell_row(ii, ni, fsi) * chi) by (nonlinear_arith)
                requires
                    0 <= spec_cell_row(ii, ni, fsi) && 0 <= chi,
            ;
        }
        let g = &glyphs[i];
        let col: u64 = (i as u64) % cols;
        let row: u64 = (i as u64) / cols;
        let cell_x: u64 = col * fs64;
        let cell_y: u64 = row * ch64;
        let bw: u64 = if (g.width as u64) <= fs64 {
            g.width as u64
        } else {
            fs64
        };
        let bh: u64 = if (g.height as u64) <= ch64 {
            g.height as u64
        } else {
            ch64
        };
        proof {
            // the cell row lies inside the bitmap
            vstd::arithmetic::mul::lemma_mul_inequality(
                cell_y as int + bh,
                atlas_h as int,
                atlas_w as int,
            );
            vstd::arithmetic::mul::lemma_mul_is_commutative(atlas_h as int, atlas_w as int);
            // the glyph bitmap is large enough
            vstd::arithmetic::mul::lemma_mul_inequality(
                bh as int,
                g.height as int,
                g.pitch as int,
            );
            vstd::arithmetic::mul::lemma_mul_is_commutative(g.height as int, g.pitch as int);
        }
        let ghost before = pixels@;
        blit_cell(&mut pixels, atlas_w, cell_x, cell_y, bw, bh, &g.bitmap, g.pitch as u64);
        proof {
            assert forall|k: int, px: int, py: int|
                0 <= k < ii && 0 <= px < spec_min(gs[k].width as int, fsi) && 0 <= py < spec_min(
                    gs[k].height as int,
                    chi,
                ) implies pix_at(
                pixels@,
                atlas_w as int,
                spec_cell_col(k, ni, fsi) * fsi + px,
                spec_cell_row(k, ni, fsi) * chi + py,
            ) == pix_at(gs[k].bitmap@, gs[k].pitch as int, px, py) by {
                let gxv = spec_cell_col(k, ni, fsi) * fsi + px;
                let gyv = spec_cell_row(k, ni, fsi) * chi + py;
                lemma_grid_bounds(k, ni, fsi, chi);
                assert((spec_cell_col(k, ni, fsi) + 1) * fsi == spec_cell_col(k, ni, fsi) * fsi
                    + fsi) by (nonlinear_arith);
                assert((spec_cell_row(k, ni, fsi) + 1) * chi == spec_cell_row(k, ni, fsi) * chi
                    + chi) by (nonlinear_arith);
                assert(0 <= spec_cell_col(k, ni, fsi) * fsi) by (nonlinear_arith)
                    requires
                        0 <= spec_cell_col(k, ni, fsi) && 0 <= fsi,
                ;
                assert(0 <= spec_cell_row(k, ni, fsi) * chi) by (nonlinear_arith)
                    requires
                        0 <= spec_cell_row(k, ni, fsi) && 0 <= chi,
                ;
                lemma_cells_disjoint(k, ii, ni, fsi, chi, gxv, gyv);
                vstd::arithmetic::mul::lemma_mul_inequality(
                    gyv + 1,
                    atlas_h as int,
                    atlas_w as int,
                );
                vstd::arithmetic::mul::lemma_mul_is_distributive_add_other_way(
                    atlas_w as int,
                    gyv,
                    1,
                );
                vstd::arithmetic::mul::lemma_mul_is_commutative(atlas_h as int, atlas_w as int);
                assert(0 <= gyv * (atlas_w as int)) by (nonlinear_arith)
                    requires
                        0 <= gyv && 0 <= atlas_w as int,
                ;
            }
        }
        proof {
            assert forall|gx: int, gy: int|
                0 <= gx < atlas_w && 0 <= gy < atlas_h && (forall|k: int|
                    0 <= k < ii + 1 ==> !spec_in_glyph_region(gs, k, ni, fsi, chi, gx, gy))
                implies pix_at(pixels@, atlas_w as int, gx, gy) == 0 by {
                lemma_pix_index_bound(atlas_w as int, atlas_h as int, gx, gy);
                vstd::arithmetic::mul::lemma_mul_is_commutative(atlas_h as int, atlas_w as int);
                assert(!spec_in_glyph_region(gs, ii, ni, fsi, chi, gx, gy));
                assert(forall|k: int|
                    0 <= k < ii ==> !spec_in_glyph_region(gs, k, ni, fsi, chi, gx, gy));
                assert(pix_at(before, atlas_w as int, gx, gy) == 0);
            }
        }
        let rec = FontChar::new(g.ch, Rect::new(cell_x, cell_y, bw, bh), g.ax, g.ay, g.bl, g.bt);
        records.push(rec);
        proof {
            assert(records@[ii] == spec_record(gs[ii], ii, ni, fsi, chi));
        }
        i = i + 1;
    }

    proof {
        assert forall|k: int|
            0 <= k < records@.len() implies crate::font::glyph_fits(
            max_ascent,
            max_forward,
            #[trigger] records@[k],
        ) by {
            lemma_maxima_dominate(gs, k);
        }
    }
    let font = FontDef::new(
        records,
        range_first,
        max_ascent + max_descent,
        max_width,
        char_spacing,
        max_ascent,
        max_descent,
        max_back,
        max_forward,
        font_size,
        monospaced,
    );
    let atlas = Atlas { pixels, width: atlas_w as u32, height: atlas_h as u32, font };
    proof {
        assert forall|k: int|
            0 <= k < ni implies (#[trigger] atlas.font.char_lookup@[k]).bbox.spec_within(
            atlas.width as int,
            atlas.height as int,
        ) by {
            lemma_grid_bounds(k, ni, fsi, chi);
            assert((spec_cell_col(k, ni, fsi) + 1) * fsi == spec_cell_col(k, ni, fsi) * fsi + fsi)
                by (nonlinear_arith);
            assert((spec_cell_row(k, ni, fsi) + 1) * chi == spec_cell_row(k, ni, fsi) * chi + chi)
                by (nonlinear_arith);
            assert(0 <= spec_cell_col(k, ni, fsi) * fsi) by (nonlinear_arith)
                requires
                    0 <= spec_cell_col(k, ni, fsi) && 0 <= fsi,
            ;
            assert(0 <= spec_cell_row(k, ni, fsi) * chi) by (nonlinear_arith)
                requires
                    0 <= spec_cell_row(k, ni, fsi) && 0 <= chi,
            ;
        }
    }
    Ok(atlas)
}

/// Every lookup within the built range succeeds with a record whose
/// atlas rectangle lies entirely inside the atlas bitmap; together with
/// [`FontDef::get_char`]'s contract this covers every code point the
/// atlas was built for.
pub proof fn lemma_built_glyph_in_bounds(
    a: Atlas,
    glyphs: Seq<RasterGlyph>,
    range_first: u32,
    fs: u32,
    ch: u32,
    char_spacing: u32,
    monospaced: bool,
    cp: int,
)
    requires
        spec_built_atlas(a, glyphs, range_first, fs, ch, char_spacing, monospaced),
        a.font.spec_in_range(cp),
    ensures
        a.font.spec_glyph(cp).bbox.spec_within(a.width as int, a.height as int),
{
}

} // verus!

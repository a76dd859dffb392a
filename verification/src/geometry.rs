//! Pixel rectangles, the common coin of atlas regions and placements.

use vstd::prelude::*;

verus! {

/// An axis-aligned rectangle in pixel space: top-left corner plus size.
///
/// Both atlas source regions and on-screen destination regions use this
/// type. All coordinates produced by this crate are non-negative, so the
/// fields are unsigned.
#[derive(Clone, Copy, Debug, PartialEq, Eq, Structural)]
pub struct Rect {
    pub x: u64,
    pub y: u64,
    pub w: u64,
    pub h: u64,
}

/// A rectangle from mathematical coordinates; callers prove all four
/// values fit in `u64` before relying on this.
pub open spec fn rect_at(x: int, y: int, w: int, h: int) -> Rect {
    Rect { x: x as u64, y: y as u64, w: w as u64, h: h as u64 }
}

impl Rect {
    pub fn new(x: u64, y: u64, w: u64, h: u64) -> (r: Rect)
        ensures
            r == (Rect { x, y, w, h }),
    {
        Rect { x, y, w, h }
    }

    /// True when the rectangle lies entirely inside a `bound_w` by
    /// `bound_h` surface anchored at the origin.
    pub open spec fn spec_within(self, bound_w: int, bound_h: int) -> bool {
        &&& self.x + self.w <= bound_w
        &&& self.y + self.h <= bound_h
    }

    pub fn within(self, bound_w: u64, bound_h: u64) -> (r: bool)
        ensures
            r == self.spec_within(bound_w as int, bound_h as int),
    {
        self.x <= bound_w && self.w <= bound_w - self.x && self.y <= bound_h && self.h <= bound_h
            - self.y
    }
}

} // verus!

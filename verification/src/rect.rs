use vstd::prelude::*;

use crate::fmt_text::fmt_rect_line;
use crate::fmt_text::rect_line_of;

verus! {

/// The one-line description of a rectangle: its two corners rendered by
/// std's formatting.
pub open spec fn rect_text(r: Rect) -> Seq<char> {
    rect_line_of(r.top as int, r.left as int, r.top + r.height, r.left + r.width)
}

/// An axis-aligned bounding box. It describes the spatial extent of a
/// subtree for diagnostic output only; the search algorithm never reads it.
///
/// The corners are kept in `i64` fields: a child rectangle's width or height
/// is the difference between a splitting coordinate and a parent edge, which
/// can leave the `i32` range even though every edge itself stays within
/// `[-2^32, 2^32]` (see [`Rect::wf`]).
#[derive(Clone, Copy, PartialEq, Eq, Structural, Debug)]
pub struct Rect {
    pub top: i64,
    pub left: i64,
    pub width: i64,
    pub height: i64,
}

impl Rect {
    /// Well-formedness: the top-left corner holds `i32` coordinates and both
    /// far edges stay within one doubling of the `i32` range. Every rectangle
    /// derived during construction preserves this, so the diagnostic edge
    /// sums can never overflow.
    pub open spec fn wf(self) -> bool {
        &&& i32::MIN <= self.top <= i32::MAX
        &&& i32::MIN <= self.left <= i32::MAX
        &&& -0x1_0000_0000 <= self.left + self.width <= 0x1_0000_0000
        &&& -0x1_0000_0000 <= self.top + self.height <= 0x1_0000_0000
    }

    /// Builds a rectangle from a `(top, left, height, width)` tuple; note the
    /// tuple order places height before width.
    pub fn new(area: (i32, i32, i32, i32)) -> (r: Rect)
        ensures
            r.top == area.0,
            r.left == area.1,
            r.height == area.2,
            r.width == area.3,
            r.wf(),
    {
        let (top, left, height, width) = area;
        Rect {
            top: top as i64,
            left: left as i64,
            width: width as i64,
            height: height as i64,
        }
    }

    /// One-line description of the rectangle by its two corners.
    pub fn string(&self) -> (r: String)
        requires
            self.wf(),
        ensures
            r@ == rect_text(*self),
    {
        let top = self.top;
        let left = self.left;
        let bottom = top + self.height;
        let right = left + self.width;
        fmt_rect_line(top, left, bottom, right)
    }
}

} // verus!

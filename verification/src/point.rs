use vstd::prelude::*;

use crate::fmt_text::fmt_point_line;
use crate::fmt_text::point_line_of;

verus! {

/// A 2D point tagged with the identity of the simulation object it stands for.
#[derive(Clone, Copy, PartialEq, Eq, Structural, Debug)]
pub struct KDTreePoint {
    pub x: i32,
    pub y: i32,
    pub object_id: i32,
}

impl KDTreePoint {
    pub fn new(x: i32, y: i32, object_id: i32) -> (p: KDTreePoint)
        ensures
            p.x == x,
            p.y == y,
            p.object_id == object_id,
    {
        KDTreePoint { x, y, object_id }
    }

    /// One-line description of the point for diagnostic output.
    pub fn string(&self) -> (r: String)
        ensures
            r@ == point_text(*self),
    {
        fmt_point_line(self.object_id, self.x, self.y)
    }
}

/// The one-line description of a point: its identity and coordinates
/// rendered by std's formatting.
pub open spec fn point_text(p: KDTreePoint) -> Seq<char> {
    point_line_of(p.object_id as int, p.x as int, p.y as int)
}

/// The coordinate of `p` on the splitting axis: x where a node splits
/// vertically, y where it splits horizontally.
pub open spec fn axis_coord(p: KDTreePoint, vertical: bool) -> int {
    if vertical {
        p.x as int
    } else {
        p.y as int
    }
}

/// The square of an integer.
pub open spec fn sq(x: int) -> int {
    x * x
}

/// Squared Euclidean distance between two coordinate pairs.
pub open spec fn sqd(a: (i32, i32), b: (i32, i32)) -> int {
    sq(a.0 - b.0) + sq(a.1 - b.1)
}

pub proof fn lemma_sq_nonneg(x: int)
    ensures
        sq(x) >= 0,
{
    assert(x * x >= 0) by (nonlinear_arith);
}

pub proof fn lemma_sq_bound(x: int, b: int)
    requires
        -b <= x <= b,
        0 <= b,
    ensures
        0 <= sq(x) <= b * b,
{
    assert(-b <= x <= b && 0 <= b ==> 0 <= x * x <= b * b) by (nonlinear_arith);
}

/// Monotonicity of squaring over the non-negative integers.
pub proof fn lemma_sq_le(a: int, b: int)
    requires
        0 <= a <= b,
    ensures
        sq(a) <= sq(b),
{
    assert(0 <= a <= b ==> a * a <= b * b) by (nonlinear_arith);
}

/// Squared distance between two locations, exact and free of overflow for the
/// whole `i32` coordinate range.
pub fn square_dist(point_a: (i32, i32), point_b: (i32, i32)) -> (d: i128)
    ensures
        d == sqd(point_a, point_b),
        d >= 0,
{
    let dx: i128 = point_a.0 as i128 - point_b.0 as i128;
    let dy: i128 = point_a.1 as i128 - point_b.1 as i128;
    proof {
        lemma_sq_bound(dx as int, 0x1_0000_0000);
        lemma_sq_bound(dy as int, 0x1_0000_0000);
    }
    dx * dx + dy * dy
}

} // verus!

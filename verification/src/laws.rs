use vstd::prelude::*;

use crate::point::KDTreePoint;
use crate::search::from_cands;
use crate::search::le_dist;
use crate::search::nearest_ok;
use crate::search::pdist;
use crate::tree::shape_height;

verus! {

/// The floor of the base-2 logarithm, with `log2_floor(n) == 0` for `n <= 1`.
pub open spec fn log2_floor(n: int) -> nat
    decreases n,
{
    if n <= 1 {
        0
    } else {
        1 + log2_floor(n / 2)
    }
}

/// A tree built from at least one point has at least one level.
pub proof fn lemma_shape_height_pos(n: int)
    requires
        n >= 1,
    ensures
        shape_height(n) >= 1,
{
}

/// The height of the built shape never shrinks when points are added.
pub proof fn lemma_shape_height_mono(m: int, n: int)
    requires
        0 <= m <= n,
    ensures
        shape_height(m) <= shape_height(n),
    decreases n,
{
    if m <= 1 {
        if m == 1 {
            lemma_shape_height_pos(n);
        }
    } else {
        lemma_shape_height_mono(m / 2, n / 2);
        lemma_shape_height_mono(m - m / 2 - 1, n - n / 2 - 1);
    }
}

/// The tree that construction yields for `n` points is height-balanced: its
/// height in nodes is exactly `log2_floor(n) + 1`, the least height any
/// binary tree with `n` nodes can have.
pub proof fn lemma_balanced_height(n: int)
    requires
        n >= 1,
    ensures
        shape_height(n) == log2_floor(n) + 1,
    decreases n,
{
    if n >= 2 {
        lemma_balanced_height(n / 2);
        lemma_shape_height_mono(n - n / 2 - 1, n / 2);
    }
}

/// Queries are repeatable: any two results that satisfy the nearest-neighbour
/// contract for the same stored points, query location and excluded identity
/// agree on whether a neighbour exists, on the reported squared distance, and
/// both name candidates at that same distance.
pub proof fn lemma_nearest_result_unique(
    pts: Seq<KDTreePoint>,
    loc: (i32, i32),
    obj: i32,
    r1: Option<(i32, i128)>,
    r2: Option<(i32, i128)>,
)
    requires
        nearest_ok(pts, loc, obj, None::<(i32, i128)>, r1),
        nearest_ok(pts, loc, obj, None::<(i32, i128)>, r2),
    ensures
        r1 is Some <==> r2 is Some,
        r1 is Some ==> r1.unwrap().1 == r2.unwrap().1,
{
    if r1 is Some {
        assert(from_cands(pts, loc, obj, r1));
        let i = choose|i: int|
            0 <= i < pts.len() && (#[trigger] pts[i]).object_id != obj && r1 is Some
                && r1.unwrap().0 == pts[i].object_id && r1.unwrap().1 == pdist(pts[i], loc);
        assert(le_dist(r2, pdist(pts[i], loc)));
    }
    if r2 is Some {
        assert(from_cands(pts, loc, obj, r2));
        let j = choose|j: int|
            0 <= j < pts.len() && (#[trigger] pts[j]).object_id != obj && r2 is Some
                && r2.unwrap().0 == pts[j].object_id && r2.unwrap().1 == pdist(pts[j], loc);
        assert(le_dist(r1, pdist(pts[j], loc)));
    }
}

/// When no two candidates tie — no two stored points whose identities differ
/// from the excluded one and from each other lie at the same squared
/// distance from the query — the whole result is pinned, identity included:
/// any two results meeting the search contract are equal, so repeated
/// queries return identical pairs.
pub proof fn lemma_nearest_result_identical(
    pts: Seq<KDTreePoint>,
    loc: (i32, i32),
    obj: i32,
    r1: Option<(i32, i128)>,
    r2: Option<(i32, i128)>,
)
    requires
        nearest_ok(pts, loc, obj, None::<(i32, i128)>, r1),
        nearest_ok(pts, loc, obj, None::<(i32, i128)>, r2),
        forall|i: int, j: int|
            #![trigger pts[i], pts[j]]
            0 <= i < pts.len() && 0 <= j < pts.len() && pts[i].object_id != obj
                && pts[j].object_id != obj && pdist(pts[i], loc) == pdist(pts[j], loc)
                ==> pts[i].object_id == pts[j].object_id,
    ensures
        r1 == r2,
{
    lemma_nearest_result_unique(pts, loc, obj, r1, r2);
    if r1 is Some {
        assert(from_cands(pts, loc, obj, r1));
        assert(from_cands(pts, loc, obj, r2));
        let i = choose|i: int|
            0 <= i < pts.len() && (#[trigger] pts[i]).object_id != obj && r1 is Some
                && r1.unwrap().0 == pts[i].object_id && r1.unwrap().1 == pdist(pts[i], loc);
        let j = choose|j: int|
            0 <= j < pts.len() && (#[trigger] pts[j]).object_id != obj && r2 is Some
                && r2.unwrap().0 == pts[j].object_id && r2.unwrap().1 == pdist(pts[j], loc);
        assert(pdist(pts[i], loc) == pdist(pts[j], loc));
        assert(pts[i].object_id == pts[j].object_id);
    }
}

} // verus!

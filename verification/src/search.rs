use vstd::prelude::*;

use crate::point::KDTreePoint;
use crate::point::axis_coord;
use crate::point::lemma_sq_le;
use crate::point::lemma_sq_nonneg;
use crate::point::lemma_sq_bound;
use crate::point::sq;
use crate::point::sqd;
use crate::point::square_dist;
use crate::tree::KDTree;
use crate::tree::opt_points;
use crate::tree::opt_size;

verus! {

/// Squared Euclidean distance from a stored point to a query location.
pub open spec fn pdist(p: KDTreePoint, loc: (i32, i32)) -> int {
    sqd((p.x, p.y), loc)
}

/// The query location's coordinate on the given splitting axis.
pub open spec fn loc_axis(loc: (i32, i32), vertical: bool) -> int {
    if vertical {
        loc.0 as int
    } else {
        loc.1 as int
    }
}

/// Signed offset of the query location from the node's splitting plane; its
/// square is the least squared distance at which any point beyond that plane
/// can lie.
pub open spec fn plane_gap(t: KDTree, loc: (i32, i32)) -> int {
    loc_axis(loc, t.vertical) - axis_coord(t.stored(), t.vertical)
}

/// The result is a candidate taken from `pts`: a stored point whose identity
/// differs from the excluded one, reported with its exact squared distance.
pub open spec fn from_cands(
    pts: Seq<KDTreePoint>,
    loc: (i32, i32),
    obj: i32,
    r: Option<(i32, i128)>,
) -> bool {
    exists|i: int|
        0 <= i < pts.len() && (#[trigger] pts[i]).object_id != obj && r is Some
            && r.unwrap().0 == pts[i].object_id && r.unwrap().1 == pdist(pts[i], loc)
}

/// The result reports a squared distance no larger than `d`.
pub open spec fn le_dist(r: Option<(i32, i128)>, d: int) -> bool {
    r is Some && r.unwrap().1 <= d
}

/// The result is at least as close as every candidate among `pts`.
pub open spec fn all_at_least(
    pts: Seq<KDTreePoint>,
    loc: (i32, i32),
    obj: i32,
    r: Option<(i32, i128)>,
) -> bool {
    forall|i: int|
        0 <= i < pts.len() && (#[trigger] pts[i]).object_id != obj ==> le_dist(
            r,
            pdist(pts[i], loc),
        )
}

/// Full statement of one search step over the candidate set `pts`, the
/// running best `best` and the step's result `r`: the result is the running
/// best or an exact candidate record, it never falls behind the running
/// best, it displaces an incoming record only for a strictly smaller
/// distance (on a tie the incoming pair passes through unchanged), and no
/// candidate in `pts` beats it.
pub open spec fn nearest_ok(
    pts: Seq<KDTreePoint>,
    loc: (i32, i32),
    obj: i32,
    best: Option<(i32, i128)>,
    r: Option<(i32, i128)>,
) -> bool {
    &&& (r == best || from_cands(pts, loc, obj, r))
    &&& all_at_least(pts, loc, obj, r)
    &&& (best is Some ==> le_dist(r, best.unwrap().1 as int))
    &&& (r == best || best is None || (r is Some && best is Some && r.unwrap().1
        < best.unwrap().1))
}

/// Every point of `pts` lies at least the squared plane offset of `t` away
/// from the query location; holds for the subtree on the far side of `t`'s
/// splitting plane.
pub open spec fn separated(t: KDTree, loc: (i32, i32), pts: Seq<KDTreePoint>) -> bool {
    forall|i: int| 0 <= i < pts.len() ==> pdist(#[trigger] pts[i], loc) >= sq(plane_gap(t, loc))
}

/// Well-formedness of an optional subtree.
pub open spec fn opt_wf(o: Option<Box<KDTree>>) -> bool {
    match o {
        None => true,
        Some(t) => t.wf(),
    }
}

/// Points in the right subtree lie beyond the splitting plane whenever the
/// query location is on the left side of it.
proof fn lemma_separated_right(t: KDTree, loc: (i32, i32))
    requires
        t.wf(),
        loc_axis(loc, t.vertical) <= axis_coord(t.stored(), t.vertical),
    ensures
        separated(t, loc, opt_points(t.right)),
{
    let pts = opt_points(t.right);
    let s = axis_coord(t.stored(), t.vertical);
    let l = loc_axis(loc, t.vertical);
    assert forall|i: int| 0 <= i < pts.len() implies pdist(#[trigger] pts[i], loc) >= sq(
        plane_gap(t, loc),
    ) by {
        let rt = t.right.unwrap();
        assert(pts == rt.points());
        let p = pts[i];
        assert(axis_coord(rt.points()[i], t.vertical) >= s);
        lemma_sq_le(s - l, axis_coord(p, t.vertical) - l);
        if t.vertical {
            lemma_sq_nonneg(p.y - loc.1);
        } else {
            lemma_sq_nonneg(p.x - loc.0);
        }
        assert(sq(l - s) == sq(s - l)) by (nonlinear_arith);
    }
}

/// Points in the left subtree lie beyond the splitting plane whenever the
/// query location is on the right side of it.
proof fn lemma_separated_left(t: KDTree, loc: (i32, i32))
    requires
        t.wf(),
        loc_axis(loc, t.vertical) >= axis_coord(t.stored(), t.vertical),
    ensures
        separated(t, loc, opt_points(t.left)),
{
    let pts = opt_points(t.left);
    let s = axis_coord(t.stored(), t.vertical);
    let l = loc_axis(loc, t.vertical);
    assert forall|i: int| 0 <= i < pts.len() implies pdist(#[trigger] pts[i], loc) >= sq(
        plane_gap(t, loc),
    ) by {
        let lt = t.left.unwrap();
        assert(pts == lt.points());
        let p = pts[i];
        assert(axis_coord(lt.points()[i], t.vertical) <= s);
        lemma_sq_le(l - s, l - axis_coord(p, t.vertical));
        if t.vertical {
            lemma_sq_nonneg(p.y - loc.1);
        } else {
            lemma_sq_nonneg(p.x - loc.0);
        }
        assert(sq(l - axis_coord(p, t.vertical)) == sq(axis_coord(p, t.vertical) - l))
            by (nonlinear_arith);
    }
}

impl KDTree {
    /// Which child lies on the query's side of the splitting plane: the left
    /// one exactly when the query's coordinate on this node's axis falls
    /// short of the split coordinate.
    fn left_next(&self, location: (i32, i32), split_point: (i32, i32)) -> (r: bool)
        ensures
            r == if self.vertical {
                location.0 < split_point.0
            } else {
                location.1 < split_point.1
            },
    {
        if self.vertical {
            location.0 < split_point.0
        } else {
            location.1 < split_point.1
        }
    }

    /// Nearest stored point to `location` among those whose identity differs
    /// from `obj`, reported as `(object_id, squared distance)`; `None` when
    /// every stored point carries the excluded identity. The reported
    /// distance is exact and no other candidate lies closer.
    pub fn find_nearest_neighbour(&self, location: (i32, i32), obj: i32) -> (r: Option<
        (i32, i128),
    >)
        requires
            self.wf(),
        ensures
            nearest_ok(self.points(), location, obj, None::<(i32, i128)>, r),
            r is None <==> (forall|i: int|
                0 <= i < self.points().len() ==> (#[trigger] self.points()[i]).object_id == obj),
    {
        let r = self.find_nearest_neighbour_recursive(location, obj, None);
        proof {
            if r is None {
                assert forall|i: int| 0 <= i < self.points().len() implies (
                #[trigger] self.points()[i]).object_id == obj by {
                    if self.points()[i].object_id != obj {
                        assert(le_dist(r, pdist(self.points()[i], location)));
                    }
                }
            }
        }
        r
    }

    fn find_nearest_neighbour_recursive(
        &self,
        location: (i32, i32),
        obj: i32,
        best: Option<(i32, i128)>,
    ) -> (r: Option<(i32, i128)>)
        requires
            self.wf(),
        ensures
            nearest_ok(self.points(), location, obj, best, r),
        decreases self.size(), 0int,
    {
        let point: KDTreePoint = **self.point.as_ref().unwrap();
        let ghost pts = self.points();
        let ghost lps = opt_points(self.left);
        let ghost rps = opt_points(self.right);
        proof {
            assert(pts == lps + seq![point] + rps);
        }
        if obj != point.object_id {
            let local_dist = square_dist((point.x, point.y), location);
            let r = if self.left_next(location, (point.x, point.y)) {
                proof {
                    lemma_separated_right(*self, location);
                }
                self.handle_tree(location, obj, &self.left, &self.right, local_dist, best)
            } else {
                proof {
                    lemma_separated_left(*self, location);
                }
                self.handle_tree(location, obj, &self.right, &self.left, local_dist, best)
            };
            proof {
                assert(all_at_least(pts, location, obj, r)) by {
                    assert forall|i: int|
                        0 <= i < pts.len() && (#[trigger] pts[i]).object_id != obj implies le_dist(
                        r,
                        pdist(pts[i], location),
                    ) by {
                        if i < lps.len() {
                            assert(pts[i] == lps[i]);
                        } else if i == lps.len() {
                            assert(pts[i] == point);
                        } else {
                            assert(pts[i] == rps[i - lps.len() - 1]);
                        }
                    }
                }
                if r != best {
                    assert(from_cands(pts, location, obj, r)) by {
                        if from_cands(lps, location, obj, r) {
                            let j = choose|j: int|
                                0 <= j < lps.len() && (#[trigger] lps[j]).object_id != obj
                                    && r is Some && r.unwrap().0 == lps[j].object_id
                                    && r.unwrap().1 == pdist(lps[j], location);
                            assert(pts[j] == lps[j]);
                        } else if from_cands(rps, location, obj, r) {
                            let j = choose|j: int|
                                0 <= j < rps.len() && (#[trigger] rps[j]).object_id != obj
                                    && r is Some && r.unwrap().0 == rps[j].object_id
                                    && r.unwrap().1 == pdist(rps[j], location);
                            assert(pts[lps.len() + 1 + j] == rps[j]);
                        } else {
                            assert(pts[lps.len() as int] == point);
                        }
                    }
                }
            }
            r
        } else {
            // The stored point itself carries the excluded identity: it is no
            // candidate, and the query may lie on either side of the plane,
            // so both children are searched once each and the closer of the
            // two results wins.
            let r1 = self.handle_tree(location, obj, &self.left, &None, 0, best);
            let r2 = self.handle_tree(location, obj, &self.right, &None, 0, best);
            let r = match (r1, r2) {
                (Some(a), Some(b)) => if a.1 < b.1 {
                    Some(a)
                } else {
                    Some(b)
                },
                (Some(a), None) => Some(a),
                (None, other) => other,
            };
            proof {
                assert(all_at_least(pts, location, obj, r)) by {
                    assert forall|i: int|
                        0 <= i < pts.len() && (#[trigger] pts[i]).object_id != obj implies le_dist(
                        r,
                        pdist(pts[i], location),
                    ) by {
                        if i < lps.len() {
                            assert(pts[i] == lps[i]);
                        } else if i == lps.len() {
                            assert(pts[i] == point);
                        } else {
                            assert(pts[i] == rps[i - lps.len() - 1]);
                        }
                    }
                }
                if r != best {
                    assert(from_cands(pts, location, obj, r)) by {
                        if r == r1 && r1 != best {
                            assert(from_cands(lps, location, obj, r) || (point.object_id != obj
                                && r1 is Some && r1.unwrap().0 == point.object_id));
                            let j = choose|j: int|
                                0 <= j < lps.len() && (#[trigger] lps[j]).object_id != obj
                                    && r is Some && r.unwrap().0 == lps[j].object_id
                                    && r.unwrap().1 == pdist(lps[j], location);
                            assert(pts[j] == lps[j]);
                        } else {
                            assert(r == r2 && r2 != best);
                            assert(from_cands(rps, location, obj, r));
                            let j = choose|j: int|
                                0 <= j < rps.len() && (#[trigger] rps[j]).object_id != obj
                                    && r is Some && r.unwrap().0 == rps[j].object_id
                                    && r.unwrap().1 == pdist(rps[j], location);
                            assert(pts[lps.len() + 1 + j] == rps[j]);
                        }
                    }
                }
            }
            r
        }
    }

    /// One search step at this node: descend into the child on the query's
    /// side (`next_tree`), weigh the stored point in, and enter the far child
    /// (`other_tree`) only when the squared plane offset still beats the
    /// running best — the branch-and-bound pruning step.
    fn handle_tree(
        &self,
        location: (i32, i32),
        obj: i32,
        next_tree: &Option<Box<KDTree>>,
        other_tree: &Option<Box<KDTree>>,
        local_dist: i128,
        best: Option<(i32, i128)>,
    ) -> (r: Option<(i32, i128)>)
        requires
            self.point is Some,
            opt_wf(*next_tree),
            opt_wf(*other_tree),
            self.stored().object_id != obj ==> local_dist == pdist(self.stored(), location),
            separated(*self, location, opt_points(*other_tree)),
        ensures
            (r == best || from_cands(opt_points(*next_tree), location, obj, r) || from_cands(
                opt_points(*other_tree),
                location,
                obj,
                r,
            ) || (self.stored().object_id != obj && r is Some && r.unwrap().0
                == self.stored().object_id && r.unwrap().1 == local_dist)),
            all_at_least(opt_points(*next_tree), location, obj, r),
            all_at_least(opt_points(*other_tree), location, obj, r),
            self.stored().object_id != obj ==> le_dist(r, local_dist as int),
            best is Some ==> le_dist(r, best.unwrap().1 as int),
            (r == best || best is None || (r is Some && best is Some && r.unwrap().1
                < best.unwrap().1)),
        decreases opt_size(*next_tree) + opt_size(*other_tree), 2int,
    {
        match next_tree {
            Some(p) => self.handle_non_leave(location, obj, p, other_tree, local_dist, best),
            None => self.handle_leave(location, obj, other_tree, local_dist, best),
        }
    }

    /// The step of `handle_tree` for a node whose near child is absent: only
    /// the stored point and, if the plane offset allows it, the far child
    /// remain to be weighed against the running best.
    fn handle_leave(
        &self,
        location: (i32, i32),
        obj: i32,
        other_tree: &Option<Box<KDTree>>,
        local_dist: i128,
        best: Option<(i32, i128)>,
    ) -> (r: Option<(i32, i128)>)
        requires
            self.point is Some,
            opt_wf(*other_tree),
            self.stored().object_id != obj ==> local_dist == pdist(self.stored(), location),
            separated(*self, location, opt_points(*other_tree)),
        ensures
            (r == best || from_cands(opt_points(*other_tree), location, obj, r) || (
            self.stored().object_id != obj && r is Some && r.unwrap().0 == self.stored().object_id
                && r.unwrap().1 == local_dist)),
            all_at_least(opt_points(*other_tree), location, obj, r),
            self.stored().object_id != obj ==> le_dist(r, local_dist as int),
            best is Some ==> le_dist(r, best.unwrap().1 as int),
            (r == best || best is None || (r is Some && best is Some && r.unwrap().1
                < best.unwrap().1)),
        decreases opt_size(*other_tree), 1int,
    {
        let point: KDTreePoint = **self.point.as_ref().unwrap();
        let mut r = best;
        let improves = match r {
            None => true,
            Some(b) => local_dist < b.1,
        };
        if improves && point.object_id != obj {
            r = Some((point.object_id, local_dist));
        }
        let gap: i128 = if self.vertical {
            location.0 as i128 - point.x as i128
        } else {
            location.1 as i128 - point.y as i128
        };
        proof {
            lemma_sq_bound(gap as int, 0x1_0000_0000);
        }
        let explore = match r {
            None => true,
            Some(b) => gap * gap < b.1,
        };
        if explore {
            match other_tree {
                Some(o) => {
                    r = o.find_nearest_neighbour_recursive(location, obj, r);
                },
                None => {},
            }
        }
        r
    }

    /// The step of `handle_tree` for a node whose near child is present: the
    /// near child is searched first with the running best, the stored point
    /// is weighed in, and the far child is entered only if the squared plane
    /// offset still beats the best found so far.
    fn handle_non_leave(
        &self,
        location: (i32, i32),
        obj: i32,
        next_tree: &KDTree,
        other_tree: &Option<Box<KDTree>>,
        local_dist: i128,
        best: Option<(i32, i128)>,
    ) -> (r: Option<(i32, i128)>)
        requires
            self.point is Some,
            next_tree.wf(),
            opt_wf(*other_tree),
            self.stored().object_id != obj ==> local_dist == pdist(self.stored(), location),
            separated(*self, location, opt_points(*other_tree)),
        ensures
            (r == best || from_cands(next_tree.points(), location, obj, r) || from_cands(
                opt_points(*other_tree),
                location,
                obj,
                r,
            ) || (self.stored().object_id != obj && r is Some && r.unwrap().0
                == self.stored().object_id && r.unwrap().1 == local_dist)),
            all_at_least(next_tree.points(), location, obj, r),
            all_at_least(opt_points(*other_tree), location, obj, r),
            self.stored().object_id != obj ==> le_dist(r, local_dist as int),
            best is Some ==> le_dist(r, best.unwrap().1 as int),
            (r == best || best is None || (r is Some && best is Some && r.unwrap().1
                < best.unwrap().1)),
        decreases next_tree.size() + opt_size(*other_tree), 1int,
    {
        let point: KDTreePoint = **self.point.as_ref().unwrap();
        let mut r = next_tree.find_nearest_neighbour_recursive(location, obj, best);
        let improves = match r {
            None => true,
            Some(b) => local_dist < b.1,
        };
        if improves && point.object_id != obj {
            r = Some((point.object_id, local_dist));
        }
        let gap: i128 = if self.vertical {
            location.0 as i128 - point.x as i128
        } else {
            location.1 as i128 - point.y as i128
        };
        proof {
            lemma_sq_bound(gap as int, 0x1_0000_0000);
        }
        let explore = match r {
            None => true,
            Some(b) => gap * gap < b.1,
        };
        if explore {
            match other_tree {
                Some(o) => {
                    r = o.find_nearest_neighbour_recursive(location, obj, r);
                },
                None => {},
            }
        }
        r
    }
}

} // verus!

use vstd::prelude::*;
use vstd::seq_lib::group_to_multiset_ensures;

use crate::point::KDTreePoint;
use crate::point::axis_coord;

verus! {

/// The sequence is ordered by the coordinate on the splitting axis.
pub open spec fn sorted_by_axis(s: Seq<KDTreePoint>, vertical: bool) -> bool {
    forall|i: int, j: int|
        #![trigger s[i], s[j]]
        0 <= i <= j < s.len() ==> axis_coord(s[i], vertical) <= axis_coord(s[j], vertical)
}

/// Stable insertion of `p` into `s`: `p` goes in front of the first element
/// whose axis coordinate exceeds `p`'s, so it lands after every element with
/// an equal coordinate.
pub open spec fn insert_sorted(s: Seq<KDTreePoint>, p: KDTreePoint, vertical: bool) -> Seq<
    KDTreePoint,
>
    decreases s.len(),
{
    if s.len() == 0 {
        seq![p]
    } else if axis_coord(s[0], vertical) <= axis_coord(p, vertical) {
        seq![s[0]] + insert_sorted(s.drop_first(), p, vertical)
    } else {
        seq![p] + s
    }
}

/// The stable sort of `s` by the coordinate on the splitting axis: elements
/// with equal coordinates keep their input order. This pins the sorted list,
/// and with it the median split, to one deterministic outcome.
pub open spec fn stable_sort_by_axis(s: Seq<KDTreePoint>, vertical: bool) -> Seq<KDTreePoint>
    decreases s.len(),
{
    if s.len() == 0 {
        Seq::empty()
    } else {
        insert_sorted(stable_sort_by_axis(s.drop_last(), vertical), s.last(), vertical)
    }
}

/// Inserting at the position characterised by the scan — every element
/// before it no greater, the element at it strictly greater — is exactly the
/// stable insertion.
proof fn lemma_insert_sorted_at(s: Seq<KDTreePoint>, p: KDTreePoint, vertical: bool, pos: int)
    requires
        0 <= pos <= s.len(),
        forall|j: int|
            0 <= j < pos ==> axis_coord(#[trigger] s[j], vertical) <= axis_coord(p, vertical),
        pos < s.len() ==> axis_coord(s[pos], vertical) > axis_coord(p, vertical),
    ensures
        insert_sorted(s, p, vertical) == s.insert(pos, p),
    decreases s.len(),
{
    if pos == 0 {
        if s.len() == 0 {
            assert(insert_sorted(s, p, vertical) =~= s.insert(0, p));
        } else {
            assert(seq![p] + s =~= s.insert(0, p));
        }
    } else {
        lemma_insert_sorted_at(s.drop_first(), p, vertical, pos - 1);
        assert(seq![s[0]] + s.drop_first().insert(pos - 1, p) =~= s.insert(pos, p));
    }
}

/// Compares two points by their coordinate on the splitting axis.
fn axis_le(a: &KDTreePoint, b: &KDTreePoint, vertical: bool) -> (r: bool)
    ensures
        r == (axis_coord(*a, vertical) <= axis_coord(*b, vertical)),
{
    if vertical {
        a.x <= b.x
    } else {
        a.y <= b.y
    }
}

/// Insertion sort of the point list by the coordinate on the splitting axis.
/// The result holds exactly the input points, reordered; ties between equal
/// coordinates carry no meaning for the tree.
pub fn sort_by_axis(points: &Vec<KDTreePoint>, vertical: bool) -> (r: Vec<KDTreePoint>)
    ensures
        r@ == stable_sort_by_axis(points@, vertical),
        r@.to_multiset() == points@.to_multiset(),
        r@.len() == points@.len(),
        sorted_by_axis(r@, vertical),
{
    proof {
        broadcast use group_to_multiset_ensures;
    }
    let mut out: Vec<KDTreePoint> = Vec::new();
    let mut i: usize = 0;
    proof {
        assert(points@.subrange(0, 0) =~= Seq::<KDTreePoint>::empty());
        assert(out@.to_multiset() =~= points@.subrange(0, 0).to_multiset());
    }
    while i < points.len()
        invariant
            i <= points@.len(),
            out@.len() == i,
            out@ == stable_sort_by_axis(points@.subrange(0, i as int), vertical),
            out@.to_multiset() == points@.subrange(0, i as int).to_multiset(),
            sorted_by_axis(out@, vertical),
        decreases points@.len() - i,
    {
        let p = points[i];
        let mut pos: usize = 0;
        while pos < out.len() && axis_le(&out[pos], &p, vertical)
            invariant
                pos <= out@.len(),
                sorted_by_axis(out@, vertical),
                forall|j: int|
                    0 <= j < pos ==> axis_coord(#[trigger] out@[j], vertical) <= axis_coord(
                        p,
                        vertical,
                    ),
            decreases out@.len() - pos,
        {
            pos += 1;
        }
        let ghost pre = out@;
        out.insert(pos, p);
        proof {
            broadcast use group_to_multiset_ensures;

            pre.insert_ensures(pos as int, p);
            lemma_insert_sorted_at(pre, p, vertical, pos as int);
            assert(points@.subrange(0, i + 1).drop_last() =~= points@.subrange(0, i as int));
            assert(points@.subrange(0, i + 1).last() == points@[i as int]);
            assert(points@.subrange(0, i + 1) =~= points@.subrange(0, i as int).push(
                points@[i as int],
            ));
            assert(sorted_by_axis(out@, vertical)) by {
                assert forall|a: int, b: int|
                    #![trigger out@[a], out@[b]]
                    0 <= a <= b < out@.len() implies axis_coord(out@[a], vertical) <= axis_coord(
                    out@[b],
                    vertical,
                ) by {
                    if a < pos {
                        assert(out@[a] == pre[a]);
                    }
                    if b < pos {
                        assert(out@[b] == pre[b]);
                    }
                    if a > pos {
                        assert(out@[a] == pre[a - 1]);
                    }
                    if b > pos {
                        assert(out@[b] == pre[b - 1]);
                        if pos < pre.len() {
                            assert(axis_coord(pre[pos as int], vertical) <= axis_coord(
                                pre[b - 1],
                                vertical,
                            ));
                        }
                    }
                }
            }
        }
        i += 1;
    }
    proof {
        assert(points@.subrange(0, points@.len() as int) =~= points@);
    }
    out
}

/// Copies the half-open index range `[start, end)` of the point list.
pub fn subvec(v: &Vec<KDTreePoint>, start: usize, end: usize) -> (r: Vec<KDTreePoint>)
    requires
        start <= end <= v@.len(),
    ensures
        r@ == v@.subrange(start as int, end as int),
{
    let mut r: Vec<KDTreePoint> = Vec::new();
    let mut i: usize = start;
    proof {
        assert(r@ =~= v@.subrange(start as int, start as int));
    }
    while i < end
        invariant
            start <= i <= end,
            end <= v@.len(),
            r@ == v@.subrange(start as int, i as int),
        decreases end - i,
    {
        r.push(v[i]);
        proof {
            assert(v@.subrange(start as int, i + 1) =~= v@.subrange(start as int, i as int).push(
                v@[i as int],
            ));
        }
        i += 1;
    }
    r
}

} // verus!

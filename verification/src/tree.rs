use vstd::prelude::*;
use vstd::seq_lib::group_to_multiset_ensures;
use vstd::seq_lib::lemma_multiset_commutative;

use crate::fmt_text::concat2;
use crate::fmt_text::fmt_tree_heading;
use crate::fmt_text::tree_heading_of;
use crate::point::KDTreePoint;
use crate::point::axis_coord;
use crate::point::point_text;
use crate::rect::Rect;
use crate::rect::rect_text;
use crate::sort::sort_by_axis;
use crate::sort::sorted_by_axis;
use crate::sort::stable_sort_by_axis;
use crate::sort::subvec;

verus! {

/// A node of the KD-tree. Each reachable node stores exactly one point; the
/// splitting axis alternates with depth, and `vertical` records whether this
/// node splits on x. The tree is built once from a point list and is
/// read-only afterwards.
pub struct KDTree {
    pub area: Rect,
    pub depth: usize,
    pub vertical: bool,
    pub left: Option<Box<KDTree>>,
    pub right: Option<Box<KDTree>>,
    pub point: Option<Box<KDTreePoint>>,
}

/// The points stored in an optional subtree, in symmetric order.
pub open spec fn opt_points(o: Option<Box<KDTree>>) -> Seq<KDTreePoint>
    decreases o,
{
    match o {
        None => Seq::empty(),
        Some(t) => t.points(),
    }
}

/// The number of nodes of an optional subtree.
pub open spec fn opt_size(o: Option<Box<KDTree>>) -> nat
    decreases o,
{
    match o {
        None => 0,
        Some(t) => t.size(),
    }
}

/// The height in nodes of an optional subtree (0 for an absent subtree).
pub open spec fn opt_height(o: Option<Box<KDTree>>) -> nat
    decreases o,
{
    match o {
        None => 0,
        Some(t) => t.height(),
    }
}

/// The height in nodes of the tree that the construction algorithm yields
/// for `n` points: the median split hands `n / 2` points to the left child
/// and `n - n / 2 - 1` to the right one.
pub open spec fn shape_height(n: int) -> nat
    decreases n,
{
    if n <= 0 {
        0
    } else if n == 1 {
        1
    } else {
        let lh = shape_height(n / 2);
        let rh = shape_height(n - n / 2 - 1);
        1 + if lh >= rh {
            lh
        } else {
            rh
        }
    }
}

/// The extent of a left child: the parent rectangle `area` clipped at the
/// split point's coordinate on the current axis, the orthogonal extent
/// unchanged.
pub open spec fn rect_left_of(area: Rect, p: KDTreePoint, vertical: bool) -> Rect {
    if vertical {
        Rect {
            top: area.top,
            left: area.left,
            width: (p.x - area.left) as i64,
            height: area.height,
        }
    } else {
        Rect {
            top: area.top,
            left: area.left,
            width: area.width,
            height: (p.y - area.top) as i64,
        }
    }
}

/// The extent of a right child: from the split point's coordinate on the
/// current axis to the parent rectangle's far edge, the orthogonal extent
/// unchanged.
pub open spec fn rect_right_of(area: Rect, p: KDTreePoint, vertical: bool) -> Rect {
    if vertical {
        Rect {
            top: area.top,
            left: p.x as i64,
            width: ((area.left + area.width) - p.x) as i64,
            height: area.height,
        }
    } else {
        Rect {
            top: (p.y) as i64,
            left: area.left,
            width: area.width,
            height: ((area.top + area.height) - p.y) as i64,
        }
    }
}

/// The line of the diagnostic dump that describes a node's stored point.
pub open spec fn stored_point_text(p: Option<Box<KDTreePoint>>) -> Seq<char> {
    match p {
        None => "Point is not set."@,
        Some(q) => "Point is "@ + point_text(*q),
    }
}

/// The part of the diagnostic dump contributed by a left child: empty for an
/// absent child, else its tag and the child's own dump.
pub open spec fn left_subtree_text(o: Option<Box<KDTree>>) -> Seq<char>
    decreases o,
{
    match o {
        None => Seq::empty(),
        Some(l) => "\t\nLeft: "@ + tree_text(*l),
    }
}

/// The part of the diagnostic dump contributed by a right child: empty for
/// an absent child, else its tag and the child's own dump.
pub open spec fn right_subtree_text(o: Option<Box<KDTree>>) -> Seq<char>
    decreases o,
{
    match o {
        None => Seq::empty(),
        Some(r) => "\t\nRight: "@ + tree_text(*r),
    }
}

/// The whole diagnostic dump of a subtree: heading, stored point, then the
/// children's dumps.
pub open spec fn tree_text(t: KDTree) -> Seq<char>
    decreases t,
{
    tree_heading_of(t.depth as int, rect_text(t.area)) + stored_point_text(t.point)
        + left_subtree_text(t.left) + right_subtree_text(t.right)
}

/// The deterministic median split that construction performs on a list of
/// two or more points, relative to the node's extent `area` and axis
/// `vertical`: with `s` the stably sorted list and `m = len / 2`, the node
/// stores `s[m]`, the left child is built from `s[..m]` (never empty), the
/// right child from `s[m + 1..]` (absent exactly when that sublist is
/// empty), and each child's extent is the parent's cut at the median.
pub open spec fn splits_list(t: KDTree, points: Seq<KDTreePoint>, area: Rect, vertical: bool) -> bool {
    let s = stable_sort_by_axis(points, vertical);
    let m = points.len() as int / 2;
    &&& t.stored() == s[m]
    &&& t.left is Some
    &&& opt_points(t.left).to_multiset() == s.subrange(0, m).to_multiset()
    &&& opt_points(t.right).to_multiset() == s.subrange(m + 1, points.len() as int).to_multiset()
    &&& (t.right is Some <==> points.len() >= 3)
    &&& t.left.unwrap().area == rect_left_of(area, s[m], vertical)
    &&& (t.right is Some ==> t.right.unwrap().area == rect_right_of(area, s[m], vertical))
}

impl KDTree {
    /// The point stored at this node.
    pub open spec fn stored(self) -> KDTreePoint {
        *self.point.unwrap()
    }

    /// All points stored in this subtree, in symmetric order.
    pub open spec fn points(self) -> Seq<KDTreePoint>
        decreases self,
    {
        opt_points(self.left) + seq![self.stored()] + opt_points(self.right)
    }

    /// The number of nodes in this subtree.
    pub open spec fn size(self) -> nat
        decreases self,
    {
        1 + opt_size(self.left) + opt_size(self.right)
    }

    /// The height of this subtree, in nodes.
    pub open spec fn height(self) -> nat
        decreases self,
    {
        let lh = opt_height(self.left);
        let rh = opt_height(self.right);
        1 + if lh >= rh {
            lh
        } else {
            rh
        }
    }

    /// Well-formedness of the tree:
    /// - every node stores exactly one point and a well-formed rectangle;
    /// - each child is one level deeper and splits on the other axis;
    /// - every point in the left subtree has its coordinate on this node's
    ///   splitting axis at most the stored point's, and every point in the
    ///   right subtree at least it.
    pub open spec fn wf(self) -> bool
        decreases self,
    {
        &&& self.point is Some
        &&& self.area.wf()
        &&& match self.left {
            Some(l) => {
                &&& l.wf()
                &&& l.vertical == !self.vertical
                &&& l.depth == self.depth + 1
                &&& forall|i: int|
                    0 <= i < l.points().len() ==> axis_coord(
                        #[trigger] l.points()[i],
                        self.vertical,
                    ) <= axis_coord(self.stored(), self.vertical)
            },
            None => true,
        }
        &&& match self.right {
            Some(r) => {
                &&& r.wf()
                &&& r.vertical == !self.vertical
                &&& r.depth == self.depth + 1
                &&& forall|i: int|
                    0 <= i < r.points().len() ==> axis_coord(
                        #[trigger] r.points()[i],
                        self.vertical,
                    ) >= axis_coord(self.stored(), self.vertical)
            },
            None => true,
        }
    }

    /// Builds the tree for a non-empty point list inside the given bounding
    /// rectangle, handed over as a `(top, left, height, width)` tuple. An
    /// empty list is rejected explicitly. The tree holds exactly the input
    /// points and has the balanced height that the median split dictates.
    pub fn new(area: (i32, i32, i32, i32), points: Vec<KDTreePoint>) -> (t: Option<KDTree>)
        ensures
            t is Some <==> points@.len() > 0,
            t is Some ==> t.unwrap().wf(),
            t is Some ==> t.unwrap().points().to_multiset() == points@.to_multiset(),
            t is Some ==> t.unwrap().points().len() == points@.len(),
            t is Some ==> t.unwrap().size() == points@.len(),
            t is Some ==> t.unwrap().height() == shape_height(points@.len() as int),
            t is Some ==> t.unwrap().depth == 0 && t.unwrap().vertical,
            points@.len() == 1 ==> t.unwrap().stored() == points@[0] && t.unwrap().left is None
                && t.unwrap().right is None,
            points@.len() >= 2 ==> splits_list(t.unwrap(), points@, t.unwrap().area, true),
            t is Some ==> t.unwrap().area.top == area.0 && t.unwrap().area.left == area.1
                && t.unwrap().area.height == area.2 && t.unwrap().area.width == area.3,
    {
        if points.len() == 0 {
            return None;
        }
        let mut tree = KDTree {
            area: Rect::new(area),
            depth: 0,
            vertical: true,
            left: None,
            right: None,
            point: None,
        };
        tree.insert_points(points);
        Some(tree)
    }

    fn new_internal(area: Rect, depth: usize, points: Vec<KDTreePoint>, vertical: bool) -> (t:
        KDTree)
        requires
            area.wf(),
            points@.len() >= 1,
            depth + points@.len() <= usize::MAX,
        ensures
            t.wf(),
            t.area == area,
            t.depth == depth,
            t.vertical == vertical,
            t.points().to_multiset() == points@.to_multiset(),
            t.points().len() == points@.len(),
            t.size() == points@.len(),
            t.height() == shape_height(points@.len() as int),
            points@.len() == 1 ==> t.stored() == points@[0] && t.left is None && t.right is None,
            points@.len() >= 2 ==> splits_list(t, points@, area, vertical),
        decreases points@.len(), 1int,
    {
        let mut tree = KDTree {
            area: area,
            depth: depth,
            vertical: vertical,
            left: None,
            right: None,
            point: None,
        };
        tree.insert_points(points);
        tree
    }

    /// Fills a fresh node from a non-empty point list: a singleton list makes
    /// a leaf; otherwise the list is sorted on the node's axis, the median
    /// point is stored here, and the two sublists around it become the
    /// children, each one level deeper on the other axis.
    fn insert_points(&mut self, points: Vec<KDTreePoint>)
        requires
            old(self).point is None,
            old(self).left is None,
            old(self).right is None,
            old(self).area.wf(),
            points@.len() >= 1,
            old(self).depth + points@.len() <= usize::MAX,
        ensures
            final(self).wf(),
            final(self).area == old(self).area,
            final(self).depth == old(self).depth,
            final(self).vertical == old(self).vertical,
            final(self).points().to_multiset() == points@.to_multiset(),
            final(self).points().len() == points@.len(),
            final(self).size() == points@.len(),
            final(self).height() == shape_height(points@.len() as int),
            points@.len() == 1 ==> final(self).stored() == points@[0] && final(self).left is None
                && final(self).right is None,
            points@.len() >= 2 ==> splits_list(
                *final(self),
                points@,
                old(self).area,
                old(self).vertical,
            ),
        decreases points@.len(), 0int,
    {
        if points.len() == 1 {
            let p = points[0];
            self.point = Some(Box::new(p));
            proof {
                broadcast use group_to_multiset_ensures;

                assert(self.points() =~= points@);
                assert(shape_height(1) == 1);
            }
            return;
        }
        let ghost n = points@.len() as int;
        let sorted = sort_by_axis(&points, self.vertical);
        let median: usize = sorted.len() / 2;
        let median_point = sorted[median];
        self.point = Some(Box::new(median_point));
        let left_points = subvec(&sorted, 0, median);
        let right_points = subvec(&sorted, median + 1, sorted.len());
        if left_points.len() > 0 {
            let child = KDTree::new_internal(
                self.left_rect(median_point),
                self.depth + 1,
                left_points,
                !self.vertical,
            );
            self.left = Some(Box::new(child));
        }
        if right_points.len() > 0 {
            let child = KDTree::new_internal(
                self.right_rect(median_point),
                self.depth + 1,
                right_points,
                !self.vertical,
            );
            self.right = Some(Box::new(child));
        }
        proof {
            broadcast use group_to_multiset_ensures;

            let vert = self.vertical;
            let lp = sorted@.subrange(0, median as int);
            let rp = sorted@.subrange(median + 1, n);
            assert(sorted@ =~= lp + seq![median_point] + rp);
            lemma_multiset_commutative(lp + seq![median_point], rp);
            lemma_multiset_commutative(lp, seq![median_point]);
            assert(self.points() == opt_points(self.left) + seq![median_point] + opt_points(
                self.right,
            ));
            lemma_multiset_commutative(
                opt_points(self.left) + seq![median_point],
                opt_points(self.right),
            );
            lemma_multiset_commutative(opt_points(self.left), seq![median_point]);
            assert(opt_points(self.left).to_multiset() == lp.to_multiset());
            assert(opt_points(self.right).to_multiset() == rp.to_multiset());
            assert(self.points().to_multiset() == sorted@.to_multiset());
            assert(opt_height(self.left) == shape_height(n / 2));
            assert(n - n / 2 - 1 == 0 ==> shape_height(n - n / 2 - 1) == 0);
            assert(opt_height(self.right) == shape_height(n - n / 2 - 1));
            assert(self.height() == shape_height(n));
            // The partition invariant at this node, from sortedness of the
            // list that the sublists were cut out of.
            if self.left is Some {
                let l = self.left.unwrap();
                assert forall|i: int| 0 <= i < l.points().len() implies axis_coord(
                    #[trigger] l.points()[i],
                    vert,
                ) <= axis_coord(median_point, vert) by {
                    let x = l.points()[i];
                    assert(l.points().contains(x));
                    assert(l.points().to_multiset().count(x) > 0);
                    assert(lp.to_multiset().count(x) > 0);
                    assert(lp.contains(x));
                    let j = choose|j: int| 0 <= j < lp.len() && lp[j] == x;
                    assert(lp[j] == sorted@[j]);
                    assert(axis_coord(sorted@[j], vert) <= axis_coord(
                        sorted@[median as int],
                        vert,
                    ));
                }
            }
            if self.right is Some {
                let r = self.right.unwrap();
                assert forall|i: int| 0 <= i < r.points().len() implies axis_coord(
                    #[trigger] r.points()[i],
                    vert,
                ) >= axis_coord(median_point, vert) by {
                    let x = r.points()[i];
                    assert(r.points().contains(x));
                    assert(r.points().to_multiset().count(x) > 0);
                    assert(rp.to_multiset().count(x) > 0);
                    assert(rp.contains(x));
                    let j = choose|j: int| 0 <= j < rp.len() && rp[j] == x;
                    assert(rp[j] == sorted@[median + 1 + j]);
                    assert(axis_coord(sorted@[median as int], vert) <= axis_coord(
                        sorted@[median + 1 + j],
                        vert,
                    ));
                }
            }
        }
    }

    /// The left child's extent: the parent's rectangle cut at the median
    /// point's coordinate on the current axis.
    fn left_rect(&self, point: KDTreePoint) -> (r: Rect)
        requires
            self.area.wf(),
        ensures
            r == rect_left_of(self.area, point, self.vertical),
            r.wf(),
    {
        if self.vertical {
            Rect {
                left: self.area.left,
                top: self.area.top,
                width: point.x as i64 - self.area.left,
                height: self.area.height,
            }
        } else {
            Rect {
                left: self.area.left,
                top: self.area.top,
                width: self.area.width,
                height: point.y as i64 - self.area.top,
            }
        }
    }

    /// The right child's extent: from the median point's coordinate on the
    /// current axis to the parent's far edge.
    fn right_rect(&self, point: KDTreePoint) -> (r: Rect)
        requires
            self.area.wf(),
        ensures
            r == rect_right_of(self.area, point, self.vertical),
            r.wf(),
    {
        if self.vertical {
            Rect {
                left: point.x as i64,
                top: self.area.top,
                width: (self.area.left + self.area.width) - point.x as i64,
                height: self.area.height,
            }
        } else {
            Rect {
                left: self.area.left,
                top: point.y as i64,
                width: self.area.width,
                height: (self.area.top + self.area.height) - point.y as i64,
            }
        }
    }

    /// Multi-line human-readable dump of the subtree: depth, extent, stored
    /// point, then the children. Purely informational.
    pub fn string(&self) -> (r: String)
        requires
            self.wf(),
        ensures
            r@ == tree_text(*self),
        decreases self,
    {
        let area_s = self.area.string();
        let heading = fmt_tree_heading(self.depth, area_s.as_str());
        let point_s = match &self.point {
            None => "Point is not set.".to_owned(),
            Some(p) => {
                let ps = p.string();
                concat2("Point is ", ps.as_str())
            },
        };
        let mut output = concat2(heading.as_str(), point_s.as_str());
        match &self.left {
            None => {},
            Some(l) => {
                let ls = l.string();
                let tagged = concat2("\t\nLeft: ", ls.as_str());
                output = concat2(output.as_str(), tagged.as_str());
            },
        }
        match &self.right {
            None => {},
            Some(r) => {
                let rs = r.string();
                let tagged = concat2("\t\nRight: ", rs.as_str());
                output = concat2(output.as_str(), tagged.as_str());
            },
        }
        proof {
            assert(output@ =~= tree_text(*self));
        }
        output
    }
}

} // verus!

use kdtree::KDTree;
use kdtree::KDTreePoint;
use kdtree::Rect;
use kdtree::square_dist;

fn pt(x: i32, y: i32, object_id: i32) -> KDTreePoint {
    KDTreePoint::new(x, y, object_id)
}

fn sq_dist(a: (i32, i32), b: (i32, i32)) -> i128 {
    let dx = a.0 as i128 - b.0 as i128;
    let dy = a.1 as i128 - b.1 as i128;
    dx * dx + dy * dy
}

/// The reference answer: the minimum squared distance over all points whose
/// identity differs from the excluded one.
fn brute_force(points: &[KDTreePoint], location: (i32, i32), obj: i32) -> Option<i128> {
    points
        .iter()
        .filter(|p| p.object_id != obj)
        .map(|p| sq_dist((p.x, p.y), location))
        .min()
}

fn check_against_brute_force(points: &[KDTreePoint], tree: &KDTree, location: (i32, i32), obj: i32) {
    let result = tree.find_nearest_neighbour(location, obj);
    let expected = brute_force(points, location, obj);
    match (result, expected) {
        (None, None) => {}
        (Some((id, d)), Some(min_d)) => {
            assert_eq!(d, min_d, "query {:?} excluding {}", location, obj);
            assert_ne!(id, obj);
            assert!(
                points
                    .iter()
                    .any(|p| p.object_id == id && sq_dist((p.x, p.y), location) == d),
                "returned id {} does not match any point at distance {}",
                id,
                d
            );
        }
        (r, e) => panic!(
            "search and brute force disagree on existence: {:?} vs {:?}",
            r, e
        ),
    }
}

struct Lcg(u64);

impl Lcg {
    fn next(&mut self) -> u64 {
        self.0 = self
            .0
            .wrapping_mul(6364136223846793005)
            .wrapping_add(1442695040888963407);
        self.0 >> 33
    }

    fn coord(&mut self, range: i32) -> i32 {
        (self.next() % (2 * range as u64 + 1)) as i32 - range
    }
}

#[test]
fn three_points_nearest_is_b() {
    let points = vec![pt(0, 0, 0), pt(3, 0, 1), pt(0, 5, 2)];
    let tree = KDTree::new((0, 0, 10, 10), points).unwrap();
    let result = tree.find_nearest_neighbour((0, 0), 0);
    assert_eq!(result, Some((1, 9)));
    let distance = (9 as f64).sqrt();
    assert_eq!(distance, 3.0);
}

#[test]
fn single_point_excluded_finds_nothing() {
    let tree = KDTree::new((0, 0, 10, 10), vec![pt(0, 0, 0)]).unwrap();
    assert_eq!(tree.find_nearest_neighbour((0, 0), 0), None);
    assert_eq!(tree.find_nearest_neighbour((7, -3), 0), None);
}

#[test]
fn excluding_the_identity_of_every_point_finds_nothing() {
    let points = vec![pt(1, 2, 7), pt(-4, 5, 7), pt(3, 3, 7)];
    let tree = KDTree::new((0, 0, 20, 20), points).unwrap();
    assert_eq!(tree.find_nearest_neighbour((0, 0), 7), None);
}

#[test]
fn empty_point_list_is_rejected() {
    assert!(KDTree::new((0, 0, 10, 10), Vec::new()).is_none());
}

#[test]
fn square_corners_from_center() {
    let points = vec![pt(0, 0, 0), pt(10, 0, 1), pt(0, 10, 2), pt(10, 10, 3)];
    let tree = KDTree::new((0, 0, 10, 10), points.clone()).unwrap();
    // Excluding each corner in turn, the answer must match brute force.
    for excluded in 0..4 {
        check_against_brute_force(&points, &tree, (5, 5), excluded);
        let (_, d) = tree.find_nearest_neighbour((5, 5), excluded).unwrap();
        assert_eq!(d, 50);
    }
    // An identity that no point carries excludes nothing.
    check_against_brute_force(&points, &tree, (5, 5), 99);
    // Many query locations, each checked against brute force.
    let mut rng = Lcg(42);
    for _ in 0..100 {
        let location = (rng.coord(15), rng.coord(15));
        let excluded = (rng.next() % 5) as i32;
        check_against_brute_force(&points, &tree, location, excluded);
    }
}

#[test]
fn random_trees_match_brute_force() {
    let mut rng = Lcg(7);
    for round in 0..20 {
        let n = 1 + (rng.next() % 30) as usize;
        let mut points = Vec::new();
        for id in 0..n {
            points.push(pt(rng.coord(50), rng.coord(50), id as i32));
        }
        let tree = KDTree::new((-50, -50, 100, 100), points.clone()).unwrap();
        for _ in 0..25 {
            let location = (rng.coord(60), rng.coord(60));
            let excluded = (rng.next() % (n as u64 + 2)) as i32;
            check_against_brute_force(&points, &tree, location, excluded);
        }
        let _ = round;
    }
}

#[test]
fn duplicate_coordinates_match_brute_force() {
    // Points stacked on the same coordinates and on shared axis values.
    let points = vec![
        pt(0, 0, 0),
        pt(0, 0, 1),
        pt(0, 100, 2),
        pt(10, 0, 3),
        pt(10, 100, 4),
        pt(10, 1, 5),
    ];
    let tree = KDTree::new((0, 0, 100, 10), points.clone()).unwrap();
    for excluded in -1..7 {
        for &location in &[(0, 0), (10, 1), (11, 0), (5, 50), (10, 99)] {
            check_against_brute_force(&points, &tree, location, excluded);
        }
    }
}

#[test]
fn repeated_queries_return_identical_results() {
    let points = vec![pt(2, 3, 0), pt(-5, 1, 1), pt(4, -4, 2), pt(0, 0, 3), pt(9, 9, 4)];
    let tree = KDTree::new((-10, -10, 20, 20), points).unwrap();
    let first = tree.find_nearest_neighbour((1, 1), 3);
    for _ in 0..10 {
        assert_eq!(tree.find_nearest_neighbour((1, 1), 3), first);
    }
}

fn count_nodes(tree: &KDTree) -> usize {
    let left = tree.left.as_ref().map_or(0, |t| count_nodes(t));
    let right = tree.right.as_ref().map_or(0, |t| count_nodes(t));
    1 + left + right
}

fn node_height(tree: &KDTree) -> usize {
    let left = tree.left.as_ref().map_or(0, |t| node_height(t));
    let right = tree.right.as_ref().map_or(0, |t| node_height(t));
    1 + left.max(right)
}

fn collect_points(tree: &KDTree, out: &mut Vec<(i32, i32, i32)>) {
    let p = tree.point.as_ref().expect("every node stores a point");
    out.push((p.x, p.y, p.object_id));
    if let Some(l) = &tree.left {
        collect_points(l, out);
    }
    if let Some(r) = &tree.right {
        collect_points(r, out);
    }
}

fn check_partition(tree: &KDTree) {
    let p = tree.point.as_ref().expect("every node stores a point");
    let split = if tree.vertical { p.x } else { p.y };
    if let Some(l) = &tree.left {
        assert_eq!(l.vertical, !tree.vertical);
        assert_eq!(l.depth, tree.depth + 1);
        let mut pts = Vec::new();
        collect_points(l, &mut pts);
        for (x, y, _) in pts {
            let c = if tree.vertical { x } else { y };
            assert!(c <= split, "left subtree point beyond the split");
        }
        check_partition(l);
    }
    if let Some(r) = &tree.right {
        assert_eq!(r.vertical, !tree.vertical);
        assert_eq!(r.depth, tree.depth + 1);
        let mut pts = Vec::new();
        collect_points(r, &mut pts);
        for (x, y, _) in pts {
            let c = if tree.vertical { x } else { y };
            assert!(c >= split, "right subtree point before the split");
        }
        check_partition(r);
    }
}

#[test]
fn construction_keeps_every_point_and_balances() {
    let mut rng = Lcg(99);
    for n in 1..33usize {
        let mut points = Vec::new();
        for id in 0..n {
            points.push(pt(rng.coord(40), rng.coord(40), id as i32));
        }
        let tree = KDTree::new((-40, -40, 80, 80), points.clone()).unwrap();
        assert_eq!(count_nodes(&tree), n);
        let expected_height = (usize::BITS - n.leading_zeros()) as usize;
        assert_eq!(node_height(&tree), expected_height);
        let mut stored = Vec::new();
        collect_points(&tree, &mut stored);
        let mut stored_sorted = stored.clone();
        stored_sorted.sort();
        let mut input_sorted: Vec<(i32, i32, i32)> =
            points.iter().map(|p| (p.x, p.y, p.object_id)).collect();
        input_sorted.sort();
        assert_eq!(stored_sorted, input_sorted);
        check_partition(&tree);
        assert!(tree.vertical);
        assert_eq!(tree.depth, 0);
    }
}

#[test]
fn median_split_is_deterministic() {
    // Two points share x = 5; the stable sort keeps their input order, so
    // the sorted list is [(3,3,2), (5,1,0), (5,2,1)] and the root stores the
    // point at index 1.
    let points = vec![pt(5, 1, 0), pt(5, 2, 1), pt(3, 3, 2)];
    let tree = KDTree::new((0, 0, 10, 10), points).unwrap();
    let root = tree.point.as_ref().unwrap();
    assert_eq!((root.x, root.y, root.object_id), (5, 1, 0));
    let left = tree.left.as_ref().unwrap();
    let right = tree.right.as_ref().unwrap();
    assert_eq!(left.point.as_ref().unwrap().object_id, 2);
    assert_eq!(right.point.as_ref().unwrap().object_id, 1);
    // The children's extents are the parent rectangle cut at the median's x.
    assert_eq!(
        (left.area.top, left.area.left, left.area.width, left.area.height),
        (0, 0, 5, 10)
    );
    assert_eq!(
        (right.area.top, right.area.left, right.area.width, right.area.height),
        (0, 5, 5, 10)
    );
}

#[test]
fn extreme_coordinates_do_not_overflow() {
    let points = vec![
        pt(i32::MIN, i32::MIN, 0),
        pt(i32::MAX, i32::MAX, 1),
        pt(0, 0, 2),
    ];
    let tree = KDTree::new((i32::MIN, i32::MIN, i32::MAX, i32::MAX), points.clone()).unwrap();
    check_against_brute_force(&points, &tree, (i32::MAX, i32::MIN), 5);
    check_against_brute_force(&points, &tree, (0, -1), 2);
    let d = square_dist((i32::MIN, i32::MIN), (i32::MAX, i32::MAX));
    let span = i32::MAX as i128 - i32::MIN as i128;
    assert_eq!(d, 2 * span * span);
}

#[test]
fn square_dist_exact_values() {
    assert_eq!(square_dist((0, 0), (3, 4)), 25);
    assert_eq!(square_dist((-2, 1), (1, -3)), 25);
    assert_eq!(square_dist((7, 7), (7, 7)), 0);
}

#[test]
fn rect_and_point_strings() {
    let rect = Rect::new((0, 0, 10, 10));
    assert_eq!(rect.string(), "Rect from (0, 0) to (10, 10)");
    let rect2 = Rect::new((-5, 3, 7, 2));
    assert_eq!(rect2.string(), "Rect from (-5, 3) to (2, 5)");
    let p = pt(1, 2, 5);
    assert_eq!(p.string(), "Object 5 at (1, 2)");
}

#[test]
fn tree_string_describes_the_tree() {
    let single = KDTree::new((0, 0, 10, 10), vec![pt(0, 0, 0)]).unwrap();
    assert_eq!(
        single.string(),
        "Tree of depth 0 at Rect from (0, 0) to (10, 10). Point is Object 0 at (0, 0)"
    );
    let tree = KDTree::new((0, 0, 10, 10), vec![pt(0, 0, 0), pt(3, 0, 1), pt(0, 5, 2)]).unwrap();
    let text = tree.string();
    assert!(text.starts_with("Tree of depth 0 at Rect from (0, 0) to (10, 10). Point is Object"));
    assert!(text.contains("\t\nLeft: Tree of depth 1"));
    assert!(text.contains("Object 0 at (0, 0)"));
    assert!(text.contains("Object 1 at (3, 0)"));
    assert!(text.contains("Object 2 at (0, 5)"));
}

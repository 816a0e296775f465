use octree::{demo_lookup, probe_point, run_demo, OctreeNode, Point, DEMO_ROOT_SIZE, MIN_CELL_SIZE, STEPS_PER_UNIT};

fn origin_tree() -> OctreeNode {
    OctreeNode::new(Point::new(0, 0, 0), DEMO_ROOT_SIZE)
}

fn units(x: i64, y: i64, z: i64) -> Point {
    Point::new(x * STEPS_PER_UNIT, y * STEPS_PER_UNIT, z * STEPS_PER_UNIT)
}

/// A small linear congruential generator, so that the "random" points are
/// the same on every run.
fn pseudo_random_points(n: u64, seed: u64) -> Vec<Point> {
    let mut state = seed;
    let mut next = move || {
        state = state.wrapping_mul(6364136223846793005).wrapping_add(1442695040888963407);
        ((state >> 33) % n) as i64
    };
    (0..n).map(|_| units(next(), next(), next())).collect()
}

fn depth_and_check(node: &OctreeNode, root_size: u64, depth: u32, max_depth: &mut u32) {
    assert_eq!(node.size, root_size >> depth);
    match &node.children {
        Some(children) => {
            assert!(node.size > MIN_CELL_SIZE);
            assert!(node.points.is_empty());
            assert_eq!(children.len(), 8);
            for child in children {
                depth_and_check(child, root_size, depth + 1, max_depth);
            }
        }
        None => {
            if node.size > MIN_CELL_SIZE {
                assert!(node.points.is_empty());
            }
            if depth > *max_depth {
                *max_depth = depth;
            }
        }
    }
}

#[test]
fn scenario_two_points() {
    let mut root = origin_tree();
    root.insert(units(1, 2, 3));
    root.insert(units(-1, -2, -3));
    assert_eq!(root.query_point(units(1, 2, 3)), Some(units(1, 2, 3)));
    assert_eq!(root.query_point(units(-1, -2, -3)), Some(units(-1, -2, -3)));
    // (1, 2, 3.0001)
    let near = Point::new(STEPS_PER_UNIT, 2 * STEPS_PER_UNIT, 3 * STEPS_PER_UNIT + 1);
    assert_eq!(root.query_point(near), None);
    assert_eq!(root.query_point(units(5, 5, 5)), None);
}

#[test]
fn scenario_thousand_points_then_probe() {
    let points = pseudo_random_points(1000, 42);
    let probe = probe_point(1000);
    assert_eq!(probe, Point::new(4_440_000, 6_660_000, 8_880_000));
    assert_eq!(demo_lookup(&points, probe), Some(probe));
}

#[test]
fn run_demo_finds_probe() {
    assert_eq!(run_demo(1000), Some(Point::new(4_440_000, 6_660_000, 8_880_000)));
    assert_eq!(run_demo(1), Some(Point::new(4440, 6660, 8880)));
    assert_eq!(run_demo(0), Some(Point::new(0, 0, 0)));
}

#[test]
fn every_inserted_point_is_found() {
    let points = pseudo_random_points(300, 7);
    let mut root = origin_tree();
    root.insert_all(&points);
    for p in &points {
        assert_eq!(root.query_point(*p), Some(*p));
    }
}

#[test]
fn point_never_inserted_is_not_found() {
    let root = origin_tree();
    assert_eq!(root.query_point(units(0, 0, 0)), None);
    let mut root = origin_tree();
    root.insert(units(1, 1, 1));
    assert_eq!(root.query_point(Point::new(STEPS_PER_UNIT + 1, STEPS_PER_UNIT, STEPS_PER_UNIT)), None);
    assert_eq!(root.query_point(units(-1, 1, 1)), None);
    assert_eq!(root.query_point(units(2, 2, 2)), None);
}

#[test]
fn reinsertion_keeps_duplicates_and_other_points() {
    let mut root = origin_tree();
    root.insert(units(3, 3, 3));
    root.insert(units(1, 2, 3));
    root.insert(units(1, 2, 3));
    assert_eq!(root.query_point(units(1, 2, 3)), Some(units(1, 2, 3)));
    assert_eq!(root.query_point(units(3, 3, 3)), Some(units(3, 3, 3)));
    assert_eq!(root.query_point(units(3, 2, 1)), None);
    // both copies sit in the same smallest cell
    let mut node = &root;
    while let Some(children) = &node.children {
        node = &children[node.get_octant(units(1, 2, 3))];
    }
    assert_eq!(node.points.iter().filter(|p| **p == units(1, 2, 3)).count(), 2);
}

#[test]
fn octant_classification() {
    let node = OctreeNode::new(Point::new(10, 20, 30), 4000);
    assert_eq!(node.get_octant(Point::new(10, 20, 30)), 7);
    assert_eq!(node.get_octant(Point::new(9, 19, 29)), 0);
    assert_eq!(node.get_octant(Point::new(10, 19, 29)), 4);
    assert_eq!(node.get_octant(Point::new(9, 20, 29)), 2);
    assert_eq!(node.get_octant(Point::new(9, 19, 30)), 1);
    assert_eq!(node.get_octant(Point::new(11, 0, 31)), 5);
}

#[test]
fn octant_bijection_of_children() {
    let mut node = OctreeNode::new(Point::new(100, -200, 300), 4000);
    node.subdivide();
    let children = node.children.as_ref().unwrap();
    assert_eq!(children.len(), 8);
    for (i, child) in children.iter().enumerate() {
        assert_eq!(child.size, 2000);
        let dx = if i & 4 != 0 { 2000 } else { -2000 };
        let dy = if i & 2 != 0 { 2000 } else { -2000 };
        let dz = if i & 1 != 0 { 2000 } else { -2000 };
        assert_eq!(child.center, Point::new(100 + dx, -200 + dy, 300 + dz));
        assert_eq!(node.get_octant(child.center), i);
        for (j, other) in children.iter().enumerate() {
            if i != j {
                assert_ne!(child.center, other.center);
            }
        }
    }
}

#[test]
fn subdivide_hands_points_down() {
    let mut node = OctreeNode::new(Point::new(0, 0, 0), 4000);
    node.points.push(Point::new(5, 5, 5));
    node.points.push(Point::new(-5, -5, -5));
    node.subdivide();
    assert!(node.points.is_empty());
    assert_eq!(node.query_point(Point::new(5, 5, 5)), Some(Point::new(5, 5, 5)));
    assert_eq!(node.query_point(Point::new(-5, -5, -5)), Some(Point::new(-5, -5, -5)));
    assert_eq!(node.query_point(Point::new(5, -5, 5)), None);
}

#[test]
fn depth_halves_and_stops_at_min_cell() {
    let points = pseudo_random_points(200, 99);
    let mut root = origin_tree();
    root.insert_all(&points);
    root.insert(units(1, 2, 3));
    let mut max_depth = 0;
    depth_and_check(&root, DEMO_ROOT_SIZE, 0, &mut max_depth);
    // 100000 halves to 781 (at or below 1000) after seven steps
    assert_eq!(max_depth, 7);
}

#[test]
fn small_root_never_subdivides() {
    let mut root = OctreeNode::new(Point::new(0, 0, 0), MIN_CELL_SIZE);
    for i in 0..50 {
        root.insert(units(i, -i, 2 * i));
    }
    root.insert(units(1, -1, 2));
    assert!(root.children.is_none());
    assert_eq!(root.points.len(), 51);
    assert_eq!(root.query_point(units(49, -49, 98)), Some(units(49, -49, 98)));
    assert_eq!(root.query_point(units(49, 49, 98)), None);
}

#[test]
fn largest_root_size() {
    let mut root = OctreeNode::new(Point::new(0, 0, 0), i64::MAX as u64);
    let far = Point::new(i64::MAX, i64::MIN, 12345);
    root.insert(far);
    root.insert(Point::new(0, 0, 0));
    assert_eq!(root.query_point(far), Some(far));
    assert_eq!(root.query_point(Point::new(0, 0, 0)), Some(Point::new(0, 0, 0)));
    assert_eq!(root.query_point(Point::new(1, 0, 0)), None);
}

#[test]
fn points_outside_root_cell_are_still_found() {
    let mut root = origin_tree();
    root.insert(units(1000, -1000, 500));
    assert_eq!(root.query_point(units(1000, -1000, 500)), Some(units(1000, -1000, 500)));
    assert_eq!(root.query_point(units(1000, -1000, 501)), None);
}

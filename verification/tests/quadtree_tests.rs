use quadtree::geometry::Boundary;
use quadtree::geometry::Point;
use quadtree::geometry::contains;
use quadtree::geometry::intersects;
use quadtree::scan::naive_search;
use quadtree::tree::create_quad_tree;
use quadtree::tree::create_quad_tree_with_capacity;
use quadtree::tree::insert;
use quadtree::tree::search;
use quadtree::tree::DEFAULT_CAPACITY;

fn pt(x: i64, y: i64) -> Point {
    Point { x, y }
}

fn rect(x1: i64, x2: i64, y1: i64, y2: i64) -> Boundary {
    Boundary { x1, x2, y1, y2 }
}

fn sorted(mut v: Vec<Point>) -> Vec<Point> {
    v.sort();
    v
}

#[test]
fn empty_tree_search_is_empty() {
    let t = create_quad_tree(rect(0, 100, 0, 100));
    assert_eq!(t.capacity, DEFAULT_CAPACITY);
    assert!(t.children.is_none());
    let r = search(&t, &rect(0, 100, 0, 100));
    assert_eq!(r, Vec::<Point>::new());
}

#[test]
fn contains_is_edge_inclusive() {
    let b = rect(0, 100, 10, 20);
    assert!(contains(&b, pt(0, 10)));
    assert!(contains(&b, pt(100, 20)));
    assert!(contains(&b, pt(50, 15)));
    assert!(!contains(&b, pt(-1, 15)));
    assert!(!contains(&b, pt(101, 15)));
    assert!(!contains(&b, pt(50, 9)));
    assert!(!contains(&b, pt(50, 21)));
}

#[test]
fn intersects_counts_touching_edges() {
    let a = rect(0, 10, 0, 10);
    assert!(intersects(&a, &rect(10, 20, 0, 10)));
    assert!(intersects(&a, &rect(0, 10, 10, 20)));
    assert!(intersects(&a, &rect(10, 20, 10, 20)));
    assert!(intersects(&a, &rect(5, 7, 5, 7)));
    assert!(!intersects(&a, &rect(11, 20, 0, 10)));
    assert!(!intersects(&a, &rect(0, 10, 11, 20)));
}

#[test]
fn contained_point_inserted_and_found_once() {
    let mut t = create_quad_tree(rect(0, 100, 0, 100));
    assert!(insert(&mut t, pt(42, 17)));
    let r = search(&t, &rect(40, 45, 15, 20));
    assert_eq!(r, vec![pt(42, 17)]);
    let everywhere = search(&t, &rect(0, 100, 0, 100));
    assert_eq!(everywhere, vec![pt(42, 17)]);
}

#[test]
fn outside_point_rejected_and_tree_unchanged() {
    let mut t = create_quad_tree(rect(0, 100, 0, 100));
    assert!(insert(&mut t, pt(1, 1)));
    assert!(insert(&mut t, pt(2, 2)));
    let before = search(&t, &rect(0, 100, 0, 100));
    assert!(!insert(&mut t, pt(101, 50)));
    assert!(!insert(&mut t, pt(50, -1)));
    let after = search(&t, &rect(0, 100, 0, 100));
    assert_eq!(after.len(), 2);
    assert_eq!(sorted(before), sorted(after));
}

#[test]
fn search_matches_linear_scan() {
    let mut t = create_quad_tree_with_capacity(rect(0, 1000, 0, 1000), 3);
    let mut flat: Vec<Point> = Vec::new();
    let mut x: i64 = 7;
    let mut y: i64 = 13;
    for _ in 0..200 {
        let p = pt(x % 1001, y % 1001);
        flat.push(p);
        assert!(insert(&mut t, p));
        x = (x * 31 + 17) % 1001;
        y = (y * 37 + 23) % 1001;
    }
    for q in [
        rect(0, 1000, 0, 1000),
        rect(100, 400, 200, 900),
        rect(500, 500, 0, 1000),
        rect(999, 1000, 999, 1000),
        rect(250, 750, 250, 750),
    ] {
        let from_tree = sorted(search(&t, &q));
        let from_scan = sorted(naive_search(&flat, &q));
        assert_eq!(from_tree, from_scan);
    }
}

#[test]
fn capacity_overflow_triggers_subdivision() {
    let mut t = create_quad_tree_with_capacity(rect(0, 100, 0, 100), 4);
    assert!(insert(&mut t, pt(1, 1)));
    assert!(insert(&mut t, pt(2, 2)));
    assert!(insert(&mut t, pt(3, 3)));
    assert!(insert(&mut t, pt(4, 4)));
    assert!(t.children.is_none());
    assert!(insert(&mut t, pt(5, 5)));
    assert!(t.children.is_some());
    let all = sorted(search(&t, &rect(0, 100, 0, 100)));
    assert_eq!(all, vec![pt(1, 1), pt(2, 2), pt(3, 3), pt(4, 4), pt(5, 5)]);
}

#[test]
fn search_is_idempotent() {
    let mut t = create_quad_tree_with_capacity(rect(0, 100, 0, 100), 2);
    for p in [pt(10, 10), pt(20, 80), pt(80, 20), pt(55, 55), pt(0, 100)] {
        assert!(insert(&mut t, p));
    }
    let q = rect(5, 90, 5, 90);
    let first = search(&t, &q);
    let second = search(&t, &q);
    assert_eq!(first, second);
}

#[test]
fn point_on_midpoint_line_is_retrievable() {
    let mut t = create_quad_tree_with_capacity(rect(0, 100, 0, 100), 4);
    assert!(insert(&mut t, pt(50, 50)));
    assert!(insert(&mut t, pt(50, 10)));
    assert!(insert(&mut t, pt(10, 50)));
    assert!(insert(&mut t, pt(99, 99)));
    assert!(insert(&mut t, pt(1, 1)));
    assert!(t.children.is_some());
    assert_eq!(search(&t, &rect(50, 50, 50, 50)), vec![pt(50, 50)]);
    assert_eq!(search(&t, &rect(50, 50, 10, 10)), vec![pt(50, 10)]);
    assert_eq!(search(&t, &rect(10, 10, 50, 50)), vec![pt(10, 50)]);
}

#[test]
fn five_point_scenario_with_small_capacity() {
    let mut t = create_quad_tree_with_capacity(rect(0, 100, 0, 100), 4);
    for p in [pt(1, 1), pt(2, 2), pt(3, 3), pt(4, 4)] {
        assert!(insert(&mut t, p));
        assert!(t.children.is_none());
    }
    assert!(insert(&mut t, pt(5, 5)));
    assert!(t.children.is_some());
    let small = sorted(search(&t, &rect(0, 5, 0, 5)));
    assert_eq!(small, vec![pt(1, 1), pt(2, 2), pt(3, 3), pt(4, 4), pt(5, 5)]);
    assert_eq!(search(&t, &rect(6, 10, 6, 10)), Vec::<Point>::new());
    assert_eq!(search(&t, &rect(3, 3, 3, 3)), vec![pt(3, 3)]);
}

#[test]
fn duplicate_points_survive_deep_subdivision() {
    let mut t = create_quad_tree_with_capacity(rect(0, 100, 0, 100), 1);
    for _ in 0..3 {
        assert!(insert(&mut t, pt(33, 66)));
    }
    let r = search(&t, &rect(33, 33, 66, 66));
    assert_eq!(r, vec![pt(33, 66), pt(33, 66), pt(33, 66)]);
}

#[test]
fn degenerate_root_boundary_still_works() {
    let mut t = create_quad_tree_with_capacity(rect(5, 5, 9, 9), 1);
    assert!(insert(&mut t, pt(5, 9)));
    assert!(insert(&mut t, pt(5, 9)));
    assert!(!insert(&mut t, pt(5, 8)));
    assert_eq!(search(&t, &rect(0, 10, 0, 10)), vec![pt(5, 9), pt(5, 9)]);
}

#[test]
fn negative_coordinates_are_supported() {
    let mut t = create_quad_tree(rect(-100, 100, -100, 100));
    assert!(insert(&mut t, pt(-50, -50)));
    assert!(insert(&mut t, pt(-100, 100)));
    assert!(!insert(&mut t, pt(-101, 0)));
    let r = sorted(search(&t, &rect(-100, 0, -100, 100)));
    assert_eq!(r, vec![pt(-100, 100), pt(-50, -50)]);
}

#[test]
fn naive_search_keeps_list_order() {
    let flat = vec![pt(1, 1), pt(9, 9), pt(2, 2), pt(8, 8), pt(3, 3)];
    let r = naive_search(&flat, &rect(0, 3, 0, 3));
    assert_eq!(r, vec![pt(1, 1), pt(2, 2), pt(3, 3)]);
    let none = naive_search(&flat, &rect(4, 7, 4, 7));
    assert_eq!(none, Vec::<Point>::new());
}

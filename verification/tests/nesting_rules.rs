use vectorize::{Document, GridPoint, Rgb, Ring, Shape};

fn ring(points: &[(i32, i32)]) -> Ring {
    Ring::Grid(points.iter().map(|&(x, y)| GridPoint { x, y }).collect())
}

fn shape(rings: Vec<Ring>) -> Shape {
    Shape { fill: Rgb { r: 0, g: 0, b: 0 }, rings }
}

fn outer() -> Ring {
    ring(&[(2, 2), (12, 2), (12, 10), (2, 10), (2, 2)])
}

#[test]
fn an_outer_ring_with_holes_is_nested() {
    let hole_a = ring(&[(3, 3), (3, 5), (5, 5), (5, 3), (3, 3)]);
    let hole_b = ring(&[(7, 6), (7, 9), (11, 9), (11, 6), (7, 6)]);
    assert!(shape(vec![outer()]).is_nested());
    assert!(shape(vec![outer(), hole_a.clone()]).is_nested());
    assert!(shape(vec![outer(), hole_a, hole_b]).is_nested());
    assert!(shape(vec![]).is_nested());
}

#[test]
fn a_hole_may_touch_the_bounds_of_its_parent() {
    let hole = ring(&[(2, 2), (2, 10), (12, 10), (12, 2), (2, 2)]);
    assert!(shape(vec![outer(), hole]).is_nested());
}

#[test]
fn a_hole_outside_its_parent_is_not_nested() {
    for points in [
        [(1, 3), (1, 5), (5, 5), (5, 3), (1, 3)],
        [(3, 1), (3, 5), (5, 5), (5, 1), (3, 1)],
        [(3, 3), (3, 5), (13, 5), (13, 3), (3, 3)],
        [(3, 3), (3, 11), (5, 11), (5, 3), (3, 3)],
        [(20, 20), (20, 22), (22, 22), (22, 20), (20, 20)],
    ] {
        assert!(!shape(vec![outer(), ring(&points)]).is_nested());
    }
}

#[test]
fn a_hole_belongs_to_the_boundary_before_it() {
    let second = ring(&[(20, 20), (30, 20), (30, 30), (20, 30), (20, 20)]);
    let in_first = ring(&[(3, 3), (3, 5), (5, 5), (5, 3), (3, 3)]);
    let in_second = ring(&[(22, 22), (22, 25), (25, 25), (25, 22), (22, 22)]);
    assert!(shape(vec![outer(), in_first.clone(), second.clone(), in_second.clone()]).is_nested());
    assert!(shape(vec![outer(), second.clone(), in_second.clone()]).is_nested());
    assert!(!shape(vec![outer(), second.clone(), in_first.clone()]).is_nested());
    assert!(!shape(vec![outer(), in_second.clone(), second.clone()]).is_nested());
}

#[test]
fn a_shape_cannot_start_with_a_hole() {
    let hole = ring(&[(3, 3), (3, 5), (5, 5), (5, 3), (3, 3)]);
    assert!(!shape(vec![hole.clone()]).is_nested());
    assert!(!shape(vec![hole, outer()]).is_nested());
}

#[test]
fn rings_without_area_are_not_nested() {
    assert!(!shape(vec![ring(&[(0, 0), (0, 0)])]).is_nested());
    assert!(!shape(vec![ring(&[(0, 0), (2, 1), (0, 0)])]).is_nested());
    assert!(!shape(vec![ring(&[(4, 4), (8, 4), (4, 4)])]).is_nested());
    // a figure of eight whose loops cancel
    assert!(!shape(vec![ring(&[(0, 0), (2, 0), (2, 2), (2, 4), (4, 4), (4, 2), (2, 2), (0, 2), (0, 0)])]).is_nested());
    assert!(!shape(vec![ring(&[])]).is_nested());
}

#[test]
fn the_turn_of_a_ring_is_told_by_its_area() {
    // an L of three pixels, clockwise and then the other way round
    let l = [(0, 0), (2, 0), (2, 1), (1, 1), (1, 2), (0, 2), (0, 0)];
    let mut back = l;
    back.reverse();
    assert!(shape(vec![ring(&l)]).is_nested());
    assert!(!shape(vec![ring(&back)]).is_nested());
    // the reversed ring is a hole of a boundary around it
    assert!(shape(vec![ring(&[(0, 0), (5, 0), (5, 5), (0, 5), (0, 0)]), ring(&back)]).is_nested());
}

#[test]
fn large_coordinates_do_not_overflow() {
    let m = i32::MAX;
    let big = ring(&[(0, 0), (m, 0), (m, m), (0, m), (0, 0)]);
    let hole = ring(&[(1, 1), (1, m - 1), (m - 1, m - 1), (m - 1, 1), (1, 1)]);
    assert!(shape(vec![big.clone(), hole.clone()]).is_nested());
    assert!(!shape(vec![hole, big]).is_nested());
}

#[test]
fn a_document_is_nested_if_every_shape_is() {
    let hole = ring(&[(3, 3), (3, 5), (5, 5), (5, 3), (3, 3)]);
    let good = Document { width: 20, height: 20, precision: 2, shapes: vec![shape(vec![outer(), hole.clone()]), shape(vec![outer()])] };
    assert_eq!(good.check(), Ok(()));
    assert!(good.is_nested());
    let bad = Document { width: 20, height: 20, precision: 2, shapes: vec![shape(vec![outer()]), shape(vec![hole])] };
    assert_eq!(bad.check(), Ok(()));
    assert!(!bad.is_nested());
    let none = Document { width: 20, height: 20, precision: 2, shapes: vec![] };
    assert!(none.is_nested());
}

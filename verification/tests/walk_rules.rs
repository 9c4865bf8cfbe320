use vectorize::{CurvePoint, Document, GridPoint, Rgb, Ring, Shape};

fn ring(points: &[(i32, i32)]) -> Ring {
    Ring::Grid(points.iter().map(|&(x, y)| GridPoint { x, y }).collect())
}

fn doc(rings: Vec<Ring>) -> Document {
    let d = Document { width: 8, height: 6, precision: 2, shapes: vec![Shape { fill: Rgb { r: 0, g: 0, b: 0 }, rings }] };
    assert_eq!(d.check(), Ok(()));
    d
}

#[test]
fn a_walk_around_pixels_is_walked() {
    assert!(doc(vec![ring(&[(0, 0), (1, 0), (1, 1), (0, 1), (0, 0)])]).is_walked());
    assert!(doc(vec![ring(&[(0, 0), (8, 0), (8, 6), (0, 6), (0, 0)])]).is_walked());
    // an L of three pixels
    assert!(doc(vec![ring(&[(0, 0), (2, 0), (2, 1), (1, 1), (1, 2), (0, 2), (0, 0)])]).is_walked());
    // a hole, which runs the other way round
    assert!(doc(vec![ring(&[(3, 3), (3, 5), (5, 5), (5, 3), (3, 3)])]).is_walked());
    assert!(doc(vec![]).is_walked());
}

#[test]
fn a_walk_may_pass_a_corner_twice() {
    // two pixels that touch at the corner (1, 1) only
    let eight = ring(&[(0, 0), (1, 0), (1, 1), (2, 1), (2, 2), (1, 2), (1, 1), (0, 1), (0, 0)]);
    assert!(doc(vec![eight]).is_walked());
}

#[test]
fn a_segment_off_the_grid_is_no_walk() {
    assert!(!doc(vec![ring(&[(0, 0), (2, 1), (0, 0)])]).is_walked());
    assert!(!doc(vec![ring(&[(0, 0), (4, 0), (4, 4), (0, 0)])]).is_walked());
    assert!(!doc(vec![ring(&[(0, 0), (1, 1), (0, 0)])]).is_walked());
}

#[test]
fn a_segment_of_no_length_is_no_walk() {
    assert!(!doc(vec![ring(&[(3, 3), (3, 3)])]).is_walked());
    assert!(!doc(vec![ring(&[(0, 0), (1, 0), (1, 0), (1, 1), (0, 1), (0, 0)])]).is_walked());
}

#[test]
fn an_edge_passed_twice_the_same_way_is_no_walk() {
    // twice around a pixel
    let twice = ring(&[(0, 0), (1, 0), (1, 1), (0, 1), (0, 0), (1, 0), (1, 1), (0, 1), (0, 0)]);
    assert!(!doc(vec![twice]).is_walked());
    // a long segment that runs over a short one
    let over = ring(&[(0, 0), (2, 0), (2, 1), (1, 1), (1, 0), (5, 0), (5, 2), (0, 2), (0, 0)]);
    assert!(!doc(vec![over]).is_walked());
    // westwards and northwards too
    let west = ring(&[(5, 2), (0, 2), (0, 0), (5, 0), (5, 2), (3, 2), (3, 4), (5, 4), (5, 2)]);
    assert!(!doc(vec![west]).is_walked());
    let north = ring(&[(0, 5), (0, 0), (2, 0), (2, 5), (0, 5), (0, 3), (1, 3), (1, 5), (0, 5)]);
    assert!(!doc(vec![north]).is_walked());
}

#[test]
fn an_edge_passed_both_ways_is_a_walk() {
    // out along a line and back: no area, but nothing is passed twice the same way
    assert!(doc(vec![ring(&[(0, 0), (2, 0), (0, 0)])]).is_walked());
    assert!(doc(vec![ring(&[(4, 1), (4, 5), (4, 1)])]).is_walked());
}

#[test]
fn rings_are_walked_each_for_itself() {
    // two rings may share edges: each is walked once
    let a = ring(&[(0, 0), (2, 0), (2, 2), (0, 2), (0, 0)]);
    assert!(doc(vec![a.clone(), a.clone(), a.clone()]).is_walked());
    let bad = ring(&[(0, 0), (1, 1), (0, 0)]);
    assert!(!doc(vec![a.clone(), bad.clone()]).is_walked());
    assert!(!doc(vec![bad, a.clone()]).is_walked());
    let many = Document {
        width: 8,
        height: 6,
        precision: 2,
        shapes: (0..50).map(|_| Shape { fill: Rgb { r: 0, g: 0, b: 0 }, rings: vec![a.clone(), a.clone()] }).collect(),
    };
    assert!(many.is_walked());
}

#[test]
fn curves_are_no_walks() {
    let c = |x: f64, y: f64| CurvePoint { x: x.to_bits(), y: y.to_bits() };
    assert!(!doc(vec![Ring::Spline(vec![c(0.0, 0.0), c(1.0, 0.0), c(1.0, 1.0), c(0.0, 0.0)])]).is_walked());
    assert!(!doc(vec![Ring::Polyline(vec![c(0.0, 0.0), c(1.0, 0.0), c(0.0, 0.0)])]).is_walked());
}

#[test]
fn a_canvas_too_large_for_a_table_is_walked_all_the_same() {
    let rings: Vec<(Ring, bool)> = vec![
        (ring(&[(0, 0), (1, 0), (1, 1), (0, 1), (0, 0)]), true),
        (ring(&[(0, 0), (1, 0), (1, 1), (2, 1), (2, 2), (1, 2), (1, 1), (0, 1), (0, 0)]), true),
        (ring(&[(0, 0), (2, 0), (0, 0)]), true),
        (ring(&[(3, 3), (3, 5), (5, 5), (5, 3), (3, 3)]), true),
        (ring(&[(0, 0), (2, 1), (0, 0)]), false),
        (ring(&[(3, 3), (3, 3)]), false),
        (ring(&[(0, 0), (1, 0), (1, 1), (0, 1), (0, 0), (1, 0), (1, 1), (0, 1), (0, 0)]), false),
        (ring(&[(0, 0), (2, 0), (2, 1), (1, 1), (1, 0), (5, 0), (5, 2), (0, 2), (0, 0)]), false),
        (ring(&[(5, 2), (0, 2), (0, 0), (5, 0), (5, 2), (3, 2), (3, 4), (5, 4), (5, 2)]), false),
        (ring(&[(0, 5), (0, 0), (2, 0), (2, 5), (0, 5), (0, 3), (1, 3), (1, 5), (0, 5)]), false),
        (ring(&[(0, 0), (0, 5), (2, 5), (2, 0), (0, 0), (0, 2), (1, 2), (1, 0), (0, 0)]), false),
    ];
    for (r, expected) in rings {
        for (width, height) in [(8usize, 6usize), (5_000_000, 5_000_000), (usize::MAX, usize::MAX), (usize::MAX, 6)] {
            let d = Document {
                width,
                height,
                precision: 2,
                shapes: vec![Shape { fill: Rgb { r: 0, g: 0, b: 0 }, rings: vec![r.clone()] }],
            };
            assert_eq!(d.check(), Ok(()));
            assert_eq!(d.is_walked(), expected, "{:?} on {} x {}", r, width, height);
        }
    }
}

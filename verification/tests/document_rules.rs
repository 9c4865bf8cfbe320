use vectorize::{
    assemble, CurvePoint, Document, GridPoint, PathMode, Rgb, Ring, Settings, Shape, Stage, TraceError,
};

fn g(x: i32, y: i32) -> GridPoint {
    GridPoint { x, y }
}

fn c(x: f64, y: f64) -> CurvePoint {
    CurvePoint { x: x.to_bits(), y: y.to_bits() }
}

fn doc(rings: Vec<Ring>) -> Document {
    Document { width: 10, height: 8, precision: 2, shapes: vec![Shape { fill: Rgb { r: 1, g: 2, b: 3 }, rings }] }
}

#[test]
fn closed_rings_on_the_canvas_pass() {
    let square = Ring::Grid(vec![g(0, 0), g(10, 0), g(10, 8), g(0, 8), g(0, 0)]);
    assert_eq!(square.check(10, 8), Ok(()));
    assert_eq!(Ring::Grid(vec![g(3, 3), g(3, 3)]).check(10, 8), Ok(()));
    assert_eq!(Ring::Polyline(vec![c(0.5, 0.5), c(2.0, 1.0), c(0.5, 0.5)]).check(10, 8), Ok(()));
    assert_eq!(Ring::Spline(vec![c(0.0, 0.0), c(1.0, 0.0), c(1.0, 1.0), c(0.0, 0.0)]).check(10, 8), Ok(()));
    assert_eq!(doc(vec![square]).check(), Ok(()));
    assert_eq!(doc(vec![]).check(), Ok(()));
    let empty = Document { width: 0, height: 0, precision: 0, shapes: vec![] };
    assert_eq!(empty.check(), Ok(()));
}

#[test]
fn an_open_ring_is_a_contour_defect() {
    assert_eq!(Ring::Grid(vec![g(0, 0), g(10, 0), g(10, 8)]).check(10, 8), Err(Stage::ContourTracing));
    assert_eq!(Ring::Grid(vec![g(0, 0), g(10, 0), g(0, 1)]).check(10, 8), Err(Stage::ContourTracing));
    assert_eq!(Ring::Grid(vec![g(0, 0)]).check(10, 8), Err(Stage::ContourTracing));
    assert_eq!(Ring::Grid(vec![]).check(10, 8), Err(Stage::ContourTracing));
}

#[test]
fn a_ring_off_the_canvas_is_a_contour_defect() {
    assert_eq!(Ring::Grid(vec![g(0, 0), g(11, 0), g(0, 0)]).check(10, 8), Err(Stage::ContourTracing));
    assert_eq!(Ring::Grid(vec![g(0, 0), g(10, 9), g(0, 0)]).check(10, 8), Err(Stage::ContourTracing));
    assert_eq!(Ring::Grid(vec![g(0, 0), g(-1, 0), g(0, 0)]).check(10, 8), Err(Stage::ContourTracing));
    assert_eq!(Ring::Grid(vec![g(0, 0), g(0, -1), g(0, 0)]).check(10, 8), Err(Stage::ContourTracing));
    assert_eq!(Ring::Grid(vec![g(0, 0), g(10, 8), g(0, 0)]).check(10, 8), Ok(()));
}

#[test]
fn a_broken_curve_is_a_simplifier_defect() {
    assert_eq!(Ring::Spline(vec![c(0.0, 0.0)]).check(10, 8), Err(Stage::PathSimplification));
    assert_eq!(
        Ring::Spline(vec![c(0.0, 0.0), c(1.0, 0.0), c(1.0, 1.0), c(0.0, 0.0), c(2.0, 2.0)]).check(10, 8),
        Err(Stage::PathSimplification)
    );
    assert_eq!(Ring::Spline(vec![]).check(10, 8), Err(Stage::PathSimplification));
    assert_eq!(Ring::Polyline(vec![c(0.0, 0.0), c(1.0, 0.0)]).check(10, 8), Err(Stage::PathSimplification));
    assert_eq!(Ring::Polyline(vec![c(0.0, 0.0)]).check(10, 8), Err(Stage::PathSimplification));
    // a run of curves that does not end where it starts is no ring
    assert_eq!(
        Ring::Spline(vec![c(0.0, 0.0), c(2.0, 1.0), c(2.0, 1.0), c(2.0, 1.0)]).check(10, 8),
        Err(Stage::PathSimplification)
    );
    // the start must recur bit for bit
    assert_eq!(
        Ring::Spline(vec![c(0.0, 0.0), c(2.0, 1.0), c(2.0, 1.0), c(-0.0, 0.0)]).check(10, 8),
        Err(Stage::PathSimplification)
    );
}

#[test]
fn the_first_defect_in_painting_order_is_reported() {
    let good = Ring::Grid(vec![g(0, 0), g(1, 0), g(0, 0)]);
    let open = Ring::Grid(vec![g(0, 0), g(1, 0)]);
    let broken = Ring::Spline(vec![c(0.0, 0.0)]);
    assert_eq!(doc(vec![good.clone(), broken.clone(), open.clone()]).check(), Err(Stage::PathSimplification));
    assert_eq!(doc(vec![good.clone(), open.clone(), broken.clone()]).check(), Err(Stage::ContourTracing));
    let two = Document {
        width: 10,
        height: 8,
        precision: 2,
        shapes: vec![
            Shape { fill: Rgb { r: 0, g: 0, b: 0 }, rings: vec![good.clone(), open] },
            Shape { fill: Rgb { r: 0, g: 0, b: 0 }, rings: vec![broken] },
        ],
    };
    assert_eq!(two.check(), Err(Stage::ContourTracing));
    let shape = &two.shapes[1];
    assert_eq!(shape.check(10, 8), Err(Stage::PathSimplification));
}

#[test]
fn assemble_keeps_the_shapes_in_order() {
    let a = Shape { fill: Rgb { r: 1, g: 1, b: 1 }, rings: vec![Ring::Grid(vec![g(0, 0), g(4, 0), g(4, 4), g(0, 0)])] };
    let b = Shape { fill: Rgb { r: 2, g: 2, b: 2 }, rings: vec![] };
    let polygon = Settings { mode: PathMode::Polygon, path_precision: 3, ..Settings::defaults() };
    let d = assemble(vec![a.clone(), b.clone()], 4, 4, &polygon).unwrap();
    assert_eq!(d, Document { width: 4, height: 4, precision: 3, shapes: vec![a.clone(), b] });
    // the same ring on a smaller canvas is off it
    assert_eq!(assemble(vec![a], 3, 4, &polygon), Err(TraceError::TracingFailure(Stage::ContourTracing)));
}

#[test]
fn assemble_asks_more_of_contours_as_walked() {
    let raw = Settings { mode: PathMode::Raw, ..Settings::defaults() };
    let polygon = Settings { mode: PathMode::Polygon, ..Settings::defaults() };
    let outer = Ring::Grid(vec![g(1, 1), g(9, 1), g(9, 7), g(1, 7), g(1, 1)]);
    let hole = Ring::Grid(vec![g(3, 3), g(3, 5), g(5, 5), g(5, 3), g(3, 3)]);
    let flat = Ring::Grid(vec![g(0, 0), g(2, 1), g(0, 0)]);
    let shape = |rings: Vec<Ring>| vec![Shape { fill: Rgb { r: 0, g: 0, b: 0 }, rings }];
    assert!(assemble(shape(vec![outer.clone(), hole.clone()]), 10, 8, &raw).is_ok());
    // a hole cannot come first
    assert_eq!(
        assemble(shape(vec![hole.clone(), outer.clone()]), 10, 8, &raw),
        Err(TraceError::TracingFailure(Stage::ContourTracing))
    );
    assert!(assemble(shape(vec![hole.clone(), outer.clone()]), 10, 8, &polygon).is_ok());
    // a ring that encloses nothing is no contour
    assert_eq!(
        assemble(shape(vec![flat.clone()]), 10, 8, &raw),
        Err(TraceError::TracingFailure(Stage::ContourTracing))
    );
    assert!(assemble(shape(vec![flat]), 10, 8, &polygon).is_ok());
    // nor is a curve
    let curve = Ring::Spline(vec![c(0.0, 0.0), c(1.0, 0.0), c(1.0, 1.0), c(0.0, 0.0)]);
    assert_eq!(
        assemble(shape(vec![curve]), 10, 8, &raw),
        Err(TraceError::TracingFailure(Stage::ContourTracing))
    );
    // a ring that breaks its own rule is reported first
    let broken = Ring::Spline(vec![c(0.0, 0.0)]);
    assert_eq!(
        assemble(shape(vec![broken]), 10, 8, &raw),
        Err(TraceError::TracingFailure(Stage::PathSimplification))
    );
    // contours are walked whatever the size of the canvas
    assert!(assemble(shape(vec![outer.clone(), hole.clone()]), 3_000_000, 3_000_000, &raw).is_ok());
    assert!(assemble(shape(vec![outer.clone(), hole.clone()]), usize::MAX, usize::MAX, &raw).is_ok());
}

#[test]
fn a_hole_in_the_notch_of_its_boundary_is_refused() {
    let raw = Settings { mode: PathMode::Raw, ..Settings::defaults() };
    let shape = |rings: Vec<Ring>| vec![Shape { fill: Rgb { r: 0, g: 0, b: 0 }, rings }];
    // an L: the quarter from (4, 4) to (8, 8) is left out
    let l = Ring::Grid(vec![g(0, 0), g(8, 0), g(8, 4), g(4, 4), g(4, 8), g(0, 8), g(0, 0)]);
    let in_the_notch = Ring::Grid(vec![g(5, 5), g(5, 7), g(7, 7), g(7, 5), g(5, 5)]);
    let in_the_arm = Ring::Grid(vec![g(5, 1), g(5, 3), g(7, 3), g(7, 1), g(5, 1)]);
    let on_the_edge = Ring::Grid(vec![g(4, 4), g(4, 6), g(6, 6), g(6, 4), g(4, 4)]);
    let along_the_edge = Ring::Grid(vec![g(2, 4), g(2, 8), g(4, 8), g(4, 4), g(2, 4)]);
    assert!(assemble(shape(vec![l.clone(), in_the_arm]), 8, 8, &raw).is_ok());
    assert!(assemble(shape(vec![l.clone(), along_the_edge]), 8, 8, &raw).is_ok());
    assert_eq!(
        assemble(shape(vec![l.clone(), in_the_notch]), 8, 8, &raw),
        Err(TraceError::TracingFailure(Stage::ContourTracing))
    );
    assert_eq!(
        assemble(shape(vec![l, on_the_edge]), 8, 8, &raw),
        Err(TraceError::TracingFailure(Stage::ContourTracing))
    );
}

#[test]
fn the_mode_fixes_the_kind_of_ring() {
    let polygon = Settings { mode: PathMode::Polygon, ..Settings::defaults() };
    let curves = Settings::defaults();
    let shape = |rings: Vec<Ring>| vec![Shape { fill: Rgb { r: 0, g: 0, b: 0 }, rings }];
    let straight = Ring::Grid(vec![g(0, 0), g(4, 2), g(0, 0)]);
    let curve = Ring::Spline(vec![c(0.0, 0.0), c(1.0, 0.0), c(1.0, 1.0), c(0.0, 0.0)]);
    let polyline = Ring::Polyline(vec![c(0.0, 0.0), c(1.0, 0.0), c(0.0, 0.0)]);
    assert!(assemble(shape(vec![straight.clone()]), 10, 8, &polygon).is_ok());
    assert!(assemble(shape(vec![curve.clone()]), 10, 8, &curves).is_ok());
    assert!(assemble(shape(vec![]), 10, 8, &curves).is_ok());
    for (rings, settings) in [
        (vec![curve.clone()], &polygon),
        (vec![straight.clone(), curve.clone()], &polygon),
        (vec![straight.clone()], &curves),
        (vec![curve.clone(), straight.clone()], &curves),
        (vec![polyline.clone()], &polygon),
        (vec![polyline.clone()], &curves),
    ] {
        assert_eq!(assemble(shape(rings), 10, 8, settings), Err(TraceError::TracingFailure(Stage::PathSimplification)));
    }
    assert!(straight.fits(PathMode::Raw) && straight.fits(PathMode::Polygon) && !straight.fits(PathMode::Spline));
    assert!(curve.fits(PathMode::Spline) && !curve.fits(PathMode::Polygon) && !curve.fits(PathMode::Raw));
    assert!(!polyline.fits(PathMode::Raw));
}

#[test]
fn an_open_run_of_curves_is_closed() {
    let curves = Settings::defaults();
    let open = Ring::Spline(vec![c(0.0, 0.0), c(2.0, 1.0), c(2.0, 1.0), c(2.0, 1.0)]);
    let closed = Ring::Spline(vec![c(5.0, 5.0), c(6.0, 5.0), c(6.0, 6.0), c(5.0, 5.0)]);
    assert!(!open.fits(PathMode::Spline));
    let d = assemble(
        vec![Shape { fill: Rgb { r: 9, g: 8, b: 7 }, rings: vec![closed.clone(), open, closed.clone()] }],
        10,
        8,
        &curves,
    )
    .unwrap();
    // a straight curve leads from the last end point back to the start
    assert_eq!(
        d.shapes[0].rings,
        vec![
            closed.clone(),
            Ring::Spline(vec![
                c(0.0, 0.0),
                c(2.0, 1.0),
                c(2.0, 1.0),
                c(2.0, 1.0),
                c(2.0, 1.0),
                c(0.0, 0.0),
                c(0.0, 0.0),
            ]),
            closed,
        ]
    );
    assert_eq!(d.shapes[0].fill, Rgb { r: 9, g: 8, b: 7 });
    assert_eq!(d.check(), Ok(()));
    // what is no run of curves is not mended
    let torn = Ring::Spline(vec![c(0.0, 0.0), c(2.0, 1.0), c(2.0, 1.0), c(2.0, 1.0), c(3.0, 3.0)]);
    assert_eq!(
        assemble(vec![Shape { fill: Rgb { r: 0, g: 0, b: 0 }, rings: vec![torn] }], 10, 8, &curves),
        Err(TraceError::TracingFailure(Stage::PathSimplification))
    );
}

//! Closing rings of curves. The tracer leaves a run of curves open where an
//! outline has shrunk to a line; the segment that would close it is written
//! out as a curve of its own, so that every ring ends where it starts.

use crate::config::PathMode;
use crate::document::{
    fills_of, kinds_fit, kinds_made, shape_views, spline_whole, CurvePoint, Ring, RingView, Shape, ShapeView,
};
use vstd::prelude::*;

verus! {

/// A whole run of curves with, where it is open, a straight curve from its
/// last end point back to its start: the control points are the two ends.
pub open spec fn closed_points(points: Seq<CurvePoint>) -> Seq<CurvePoint> {
    if spline_whole(points) && points[0] != points[points.len() - 1] {
        points.push(points[points.len() - 1]).push(points[0]).push(points[0])
    } else {
        points
    }
}

impl RingView {
    /// The ring with its run of curves closed, if it is one.
    pub open spec fn closed(self) -> RingView {
        match self {
            RingView::Spline(points) => RingView::Spline(closed_points(points)),
            _ => self,
        }
    }
}

/// The rings, each closed.
pub open spec fn closed_rings(rings: Seq<RingView>) -> Seq<RingView> {
    Seq::new(rings.len(), |j: int| rings[j].closed())
}

impl ShapeView {
    /// The shape with every run of curves closed.
    pub open spec fn closed(self) -> ShapeView {
        ShapeView { fill: self.fill, rings: closed_rings(self.rings) }
    }
}

/// The shapes, each with every run of curves closed.
pub open spec fn closed_shapes(shapes: Seq<ShapeView>) -> Seq<ShapeView> {
    Seq::new(shapes.len(), |i: int| shapes[i].closed())
}

/// Closing the curves that the tracer makes gives rings of curves, and
/// changes no fill.
pub proof fn lemma_closed_fit(shapes: Seq<ShapeView>)
    ensures
        fills_of(closed_shapes(shapes)) == fills_of(shapes),
        kinds_made(shapes, PathMode::Spline) ==> kinds_fit(closed_shapes(shapes), PathMode::Spline),
{
    assert(fills_of(closed_shapes(shapes)) =~= fills_of(shapes));
    if kinds_made(shapes, PathMode::Spline) {
        assert forall|i: int, j: int|
            0 <= i < closed_shapes(shapes).len() && 0 <= j < closed_shapes(shapes)[i].rings.len() implies (
        #[trigger] closed_shapes(shapes)[i].rings[j]).fits(PathMode::Spline) by {
            assert(shapes[i].rings[j].made_in(PathMode::Spline));
        }
    }
}

/// The items of a vector in the opposite order.
fn turned<T>(v: Vec<T>) -> (r: Vec<T>)
    ensures
        r.len() == v.len(),
        forall|i: int| 0 <= i < r.len() ==> r@[i] == v@[v.len() - 1 - i],
{
    let ghost old = v@;
    let mut rest = v;
    let mut r: Vec<T> = Vec::new();
    while rest.len() > 0
        invariant
            rest.len() + r.len() == old.len(),
            rest@ == old.take(rest.len() as int),
            forall|i: int| 0 <= i < r.len() ==> r@[i] == old[old.len() - 1 - i],
        decreases rest.len(),
    {
        let item = rest.pop().unwrap();
        r.push(item);
    }
    r
}

fn close_ring(ring: Ring) -> (r: Ring)
    ensures
        r@ == ring@.closed(),
{
    match ring {
        Ring::Spline(points) => {
            let mut points = points;
            let n = points.len();
            if n >= 4 && (n - 1) % 3 == 0 && points[0] != points[n - 1] {
                let first = points[0];
                let last = points[n - 1];
                points.push(last);
                points.push(first);
                points.push(first);
            }
            Ring::Spline(points)
        },
        other => other,
    }
}

fn close_shape(shape: Shape) -> (r: Shape)
    ensures
        r@ == shape@.closed(),
{
    let ghost old = shape.rings@;
    let fill = shape.fill;
    let mut back = turned(shape.rings);
    let mut rings: Vec<Ring> = Vec::new();
    while back.len() > 0
        invariant
            back.len() + rings.len() == old.len(),
            forall|i: int| 0 <= i < back.len() ==> back@[i] == old[old.len() - 1 - i],
            forall|j: int| 0 <= j < rings.len() ==> (#[trigger] rings@[j])@ == old[j]@.closed(),
        decreases back.len(),
    {
        let ring = back.pop().unwrap();
        rings.push(close_ring(ring));
    }
    let r = Shape { fill, rings };
    assert(r@.rings =~= shape@.closed().rings);
    r
}

/// Closes every run of curves of every shape.
pub fn close_curves(shapes: Vec<Shape>) -> (r: Vec<Shape>)
    ensures
        shape_views(r@) == closed_shapes(shape_views(shapes@)),
{
    let ghost old = shapes@;
    let mut back = turned(shapes);
    let mut r: Vec<Shape> = Vec::new();
    while back.len() > 0
        invariant
            back.len() + r.len() == old.len(),
            forall|i: int| 0 <= i < back.len() ==> back@[i] == old[old.len() - 1 - i],
            forall|j: int| 0 <= j < r.len() ==> (#[trigger] r@[j])@ == old[j]@.closed(),
        decreases back.len(),
    {
        let shape = back.pop().unwrap();
        r.push(close_shape(shape));
    }
    assert(shape_views(r@) =~= closed_shapes(shape_views(old)));
    r
}

} // verus!

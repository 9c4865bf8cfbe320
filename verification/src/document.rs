//! The document that a conversion yields: filled shapes in stacking order,
//! each bounded by closed rings.

use crate::config::PathMode;
use crate::error::Stage;
use vstd::prelude::*;

verus! {

/// A fill color.
#[derive(Clone, Copy, Debug, PartialEq, Eq, Structural)]
pub struct Rgb {
    pub r: u8,
    pub g: u8,
    pub b: u8,
}

/// A corner of the pixel grid. The corner `(0, 0)` is the top left of the
/// canvas, and `(width, height)` its bottom right.
#[derive(Clone, Copy, Debug, PartialEq, Eq, Structural)]
pub struct GridPoint {
    pub x: i32,
    pub y: i32,
}

/// A point of the plane. Each coordinate is a binary64 number, held by its
/// bit pattern.
#[derive(Clone, Copy, Debug, PartialEq, Eq, Structural)]
pub struct CurvePoint {
    pub x: u64,
    pub y: u64,
}

/// One closed boundary of a shape.
#[derive(Clone, Debug, PartialEq, Eq)]
pub enum Ring {
    /// Straight segments between grid corners; the last corner repeats the
    /// first.
    Grid(Vec<GridPoint>),
    /// Straight segments between points of the plane; the last point repeats
    /// the first.
    Polyline(Vec<CurvePoint>),
    /// Cubic curves: a start point, then for each curve two control points
    /// and its end point; the last end point repeats the start point.
    Spline(Vec<CurvePoint>),
}

pub enum RingView {
    Grid(Seq<GridPoint>),
    Polyline(Seq<CurvePoint>),
    Spline(Seq<CurvePoint>),
}

impl View for Ring {
    type V = RingView;

    open spec fn view(&self) -> RingView {
        match self {
            Ring::Grid(points) => RingView::Grid(points@),
            Ring::Polyline(points) => RingView::Polyline(points@),
            Ring::Spline(points) => RingView::Spline(points@),
        }
    }
}

/// A filled region: its color and its rings. The first ring is an outer
/// boundary; those after it are holes, or further outer boundaries where the
/// region falls apart, and a hole winds against its boundary.
#[derive(Clone, Debug, PartialEq, Eq)]
pub struct Shape {
    pub fill: Rgb,
    pub rings: Vec<Ring>,
}

pub struct ShapeView {
    pub fill: Rgb,
    pub rings: Seq<RingView>,
}

/// The views of the rings of a sequence, in its order.
pub open spec fn ring_views(rings: Seq<Ring>) -> Seq<RingView> {
    Seq::new(rings.len(), |i: int| rings[i]@)
}

/// The views of the shapes of a sequence, in its order.
pub open spec fn shape_views(shapes: Seq<Shape>) -> Seq<ShapeView> {
    Seq::new(shapes.len(), |i: int| shapes[i]@)
}

impl View for Shape {
    type V = ShapeView;

    open spec fn view(&self) -> ShapeView {
        ShapeView { fill: self.fill, rings: ring_views(self.rings@) }
    }
}

/// The result of a conversion. Shapes are painted in order, the first at the
/// bottom. `precision` is the number of decimal digits that coordinates are
/// written with.
#[derive(Clone, Debug, PartialEq, Eq)]
pub struct Document {
    pub width: usize,
    pub height: usize,
    pub precision: u32,
    pub shapes: Vec<Shape>,
}

pub struct DocumentView {
    pub width: nat,
    pub height: nat,
    pub precision: nat,
    pub shapes: Seq<ShapeView>,
}

impl View for Document {
    type V = DocumentView;

    open spec fn view(&self) -> DocumentView {
        DocumentView {
            width: self.width as nat,
            height: self.height as nat,
            precision: self.precision as nat,
            shapes: shape_views(self.shapes@),
        }
    }
}

/// A grid corner lies on the canvas, its border included.
pub open spec fn on_canvas(p: GridPoint, width: nat, height: nat) -> bool {
    0 <= p.x <= width && 0 <= p.y <= height
}

/// A ring of grid corners is closed and stays on the canvas.
pub open spec fn grid_ring_ok(points: Seq<GridPoint>, width: nat, height: nat) -> bool {
    &&& points.len() >= 2
    &&& points[0] == points[points.len() - 1]
    &&& forall|i: int| 0 <= i < points.len() ==> on_canvas(#[trigger] points[i], width, height)
}

/// A ring of straight segments in the plane is closed.
pub open spec fn polyline_ok(points: Seq<CurvePoint>) -> bool {
    points.len() >= 2 && points[0] == points[points.len() - 1]
}

/// A run of curves has a start point and three points for each of its
/// curves, of which there is at least one.
pub open spec fn spline_whole(points: Seq<CurvePoint>) -> bool {
    points.len() >= 4 && (points.len() - 1) % 3 == 0
}

/// A ring of curves is a whole run of curves whose last end point is its
/// start point, bit for bit.
pub open spec fn spline_ok(points: Seq<CurvePoint>) -> bool {
    spline_whole(points) && points[0] == points[points.len() - 1]
}

impl RingView {
    /// The stage that a ring which breaks its rule comes from: the contour
    /// tracer for grid corners, the path simplifier for the others.
    pub open spec fn defect(self, width: nat, height: nat) -> Option<Stage> {
        match self {
            RingView::Grid(points) => if grid_ring_ok(points, width, height) {
                None
            } else {
                Some(Stage::ContourTracing)
            },
            RingView::Polyline(points) => if polyline_ok(points) {
                None
            } else {
                Some(Stage::PathSimplification)
            },
            RingView::Spline(points) => if spline_ok(points) {
                None
            } else {
                Some(Stage::PathSimplification)
            },
        }
    }
}

impl RingView {
    /// The ring is of the kind that the mode makes: a ring of curves where
    /// curves are fitted, and grid corners else.
    pub open spec fn fits(self, mode: PathMode) -> bool {
        match mode {
            PathMode::Spline => self matches RingView::Spline(points) && spline_ok(points),
            _ => self is Grid,
        }
    }

    /// The ring is as the tracer makes it under the mode: a whole run of
    /// curves, closed or not, where curves are fitted, and grid corners else.
    pub open spec fn made_in(self, mode: PathMode) -> bool {
        match mode {
            PathMode::Spline => self matches RingView::Spline(points) && spline_whole(points),
            _ => self is Grid,
        }
    }
}

/// Every ring of every shape is as the tracer makes it under the mode.
pub open spec fn kinds_made(shapes: Seq<ShapeView>, mode: PathMode) -> bool {
    forall|i: int, j: int|
        0 <= i < shapes.len() && 0 <= j < shapes[i].rings.len() ==> (#[trigger] shapes[i].rings[j]).made_in(mode)
}

/// The fills of the shapes, in their order.
pub open spec fn fills_of(shapes: Seq<ShapeView>) -> Seq<Rgb> {
    Seq::new(shapes.len(), |i: int| shapes[i].fill)
}

/// Every ring of every shape is of the kind that the mode makes.
pub open spec fn kinds_fit(shapes: Seq<ShapeView>, mode: PathMode) -> bool {
    forall|i: int, j: int|
        0 <= i < shapes.len() && 0 <= j < shapes[i].rings.len() ==> (#[trigger] shapes[i].rings[j]).fits(mode)
}

/// The defect of the first ring among the first `n` that has one.
pub open spec fn rings_defect(rings: Seq<RingView>, n: nat, width: nat, height: nat) -> Option<Stage>
    decreases n,
{
    if n == 0 {
        None
    } else {
        match rings_defect(rings, (n - 1) as nat, width, height) {
            Some(stage) => Some(stage),
            None => rings[n - 1].defect(width, height),
        }
    }
}

impl ShapeView {
    pub open spec fn defect(self, width: nat, height: nat) -> Option<Stage> {
        rings_defect(self.rings, self.rings.len(), width, height)
    }
}

/// The defect of the first shape among the first `n` that has one.
pub open spec fn shapes_defect(shapes: Seq<ShapeView>, n: nat, width: nat, height: nat) -> Option<Stage>
    decreases n,
{
    if n == 0 {
        None
    } else {
        match shapes_defect(shapes, (n - 1) as nat, width, height) {
            Some(stage) => Some(stage),
            None => shapes[n - 1].defect(width, height),
        }
    }
}

impl DocumentView {
    /// The stage of the first ring, in painting order, that breaks its rule.
    pub open spec fn defect(self) -> Option<Stage> {
        shapes_defect(self.shapes, self.shapes.len(), self.width, self.height)
    }

    /// Every ring of every shape keeps its rule: rings of straight segments
    /// are closed, rings of grid corners stay on the canvas, rings of curves
    /// are whole.
    pub open spec fn wf(self) -> bool {
        forall|i: int, j: int|
            0 <= i < self.shapes.len() && 0 <= j < self.shapes[i].rings.len() ==> (
            #[trigger] self.shapes[i].rings[j]).defect(self.width, self.height) is None
    }
}

/// No ring among the first `n` has a defect exactly if none of them reports
/// one.
pub proof fn lemma_rings_defect(rings: Seq<RingView>, n: nat, width: nat, height: nat)
    requires
        n <= rings.len(),
    ensures
        rings_defect(rings, n, width, height) is None <==> forall|j: int|
            0 <= j < n ==> (#[trigger] rings[j]).defect(width, height) is None,
    decreases n,
{
    if n > 0 {
        lemma_rings_defect(rings, (n - 1) as nat, width, height);
    }
}

/// No shape among the first `n` has a defect exactly if every ring of each
/// of them keeps its rule.
pub proof fn lemma_shapes_defect(shapes: Seq<ShapeView>, n: nat, width: nat, height: nat)
    requires
        n <= shapes.len(),
    ensures
        shapes_defect(shapes, n, width, height) is None <==> forall|i: int, j: int|
            0 <= i < n && 0 <= j < shapes[i].rings.len() ==> (#[trigger] shapes[i].rings[j]).defect(
                width,
                height,
            ) is None,
    decreases n,
{
    if n > 0 {
        lemma_shapes_defect(shapes, (n - 1) as nat, width, height);
        lemma_rings_defect(shapes[n - 1].rings, shapes[n - 1].rings.len(), width, height);
    }
}

/// A defect of a ring is the contour tracer's or the path simplifier's.
pub proof fn lemma_rings_defect_stage(rings: Seq<RingView>, n: nat, width: nat, height: nat)
    ensures
        rings_defect(rings, n, width, height) != Some(Stage::Segmentation),
    decreases n,
{
    if n > 0 {
        lemma_rings_defect_stage(rings, (n - 1) as nat, width, height);
    }
}

/// A defect of a document is the contour tracer's or the path simplifier's.
pub proof fn lemma_shapes_defect_stage(shapes: Seq<ShapeView>, n: nat, width: nat, height: nat)
    ensures
        shapes_defect(shapes, n, width, height) != Some(Stage::Segmentation),
    decreases n,
{
    if n > 0 {
        lemma_shapes_defect_stage(shapes, (n - 1) as nat, width, height);
        lemma_rings_defect_stage(shapes[n - 1].rings, shapes[n - 1].rings.len(), width, height);
    }
}

/// Curves that are whole have no defect.
pub proof fn lemma_curves_have_no_defect(doc: DocumentView)
    requires
        kinds_fit(doc.shapes, PathMode::Spline),
    ensures
        doc.defect() is None,
{
    lemma_shapes_defect(doc.shapes, doc.shapes.len(), doc.width, doc.height);
    assert forall|i: int, j: int| 0 <= i < doc.shapes.len() && 0 <= j < doc.shapes[i].rings.len() implies (
    #[trigger] doc.shapes[i].rings[j]).defect(doc.width, doc.height) is None by {
        assert(doc.shapes[i].rings[j].fits(PathMode::Spline));
    }
}

/// A document is well formed exactly if it has no defect.
pub proof fn lemma_defect_free(doc: DocumentView)
    ensures
        doc.wf() <==> doc.defect() is None,
{
    lemma_shapes_defect(doc.shapes, doc.shapes.len(), doc.width, doc.height);
}

fn check_grid_ring(points: &Vec<GridPoint>, width: usize, height: usize) -> (ok: bool)
    ensures
        ok == grid_ring_ok(points@, width as nat, height as nat),
{
    let n = points.len();
    if n < 2 {
        return false;
    }
    if points[0] != points[n - 1] {
        return false;
    }
    let mut i: usize = 0;
    while i < n
        invariant
            i <= n,
            n == points.len(),
            forall|j: int| 0 <= j < i ==> on_canvas(#[trigger] points@[j], width as nat, height as nat),
        decreases n - i,
    {
        let p = points[i];
        if p.x < 0 || p.y < 0 || p.x as u64 > width as u64 || p.y as u64 > height as u64 {
            assert(!on_canvas(points@[i as int], width as nat, height as nat));
            return false;
        }
        i += 1;
    }
    true
}

impl Ring {
    /// Checks the ring against its rule, for a canvas of the given size.
    pub fn check(&self, width: usize, height: usize) -> (r: Result<(), Stage>)
        ensures
            match self@.defect(width as nat, height as nat) {
                Some(stage) => r == Err::<(), Stage>(stage),
                None => r is Ok,
            },
    {
        match self {
            Ring::Grid(points) => {
                if check_grid_ring(points, width, height) {
                    Ok(())
                } else {
                    Err(Stage::ContourTracing)
                }
            },
            Ring::Polyline(points) => {
                let n = points.len();
                if n >= 2 && points[0] == points[n - 1] {
                    Ok(())
                } else {
                    Err(Stage::PathSimplification)
                }
            },
            Ring::Spline(points) => {
                let n = points.len();
                if n >= 4 && (n - 1) % 3 == 0 && points[0] == points[n - 1] {
                    Ok(())
                } else {
                    Err(Stage::PathSimplification)
                }
            },
        }
    }
}

impl Shape {
    /// Checks the rings in order and reports the first defect.
    pub fn check(&self, width: usize, height: usize) -> (r: Result<(), Stage>)
        ensures
            match self@.defect(width as nat, height as nat) {
                Some(stage) => r == Err::<(), Stage>(stage),
                None => r is Ok,
            },
    {
        let n = self.rings.len();
        let mut j: usize = 0;
        while j < n
            invariant
                j <= n,
                n == self.rings.len(),
                self@.rings.len() == n,
                rings_defect(self@.rings, j as nat, width as nat, height as nat) is None,
            decreases n - j,
        {
            assert(self@.rings[j as int] == self.rings[j as int]@);
            match self.rings[j].check(width, height) {
                Ok(()) => {},
                Err(stage) => {
                    proof {
                        lemma_defect_stays(self@.rings, (j + 1) as nat, n as nat, width as nat, height as nat);
                    }
                    return Err(stage);
                },
            }
            j += 1;
        }
        Ok(())
    }
}

/// A defect among the first `n` rings is the defect among the first `m`,
/// for every `m` from `n` on.
pub proof fn lemma_defect_stays(rings: Seq<RingView>, n: nat, m: nat, width: nat, height: nat)
    requires
        n <= m,
        rings_defect(rings, n, width, height) is Some,
    ensures
        rings_defect(rings, m, width, height) == rings_defect(rings, n, width, height),
    decreases m,
{
    if n < m {
        lemma_defect_stays(rings, n, (m - 1) as nat, width, height);
    }
}

/// A defect among the first `n` shapes is the defect among the first `m`,
/// for every `m` from `n` on.
pub proof fn lemma_shape_defect_stays(shapes: Seq<ShapeView>, n: nat, m: nat, width: nat, height: nat)
    requires
        n <= m,
        shapes_defect(shapes, n, width, height) is Some,
    ensures
        shapes_defect(shapes, m, width, height) == shapes_defect(shapes, n, width, height),
    decreases m,
{
    if n < m {
        lemma_shape_defect_stays(shapes, n, (m - 1) as nat, width, height);
    }
}

impl Ring {
    /// Whether the ring is of the kind that the mode makes.
    pub fn fits(&self, mode: PathMode) -> (ok: bool)
        ensures
            ok == self@.fits(mode),
    {
        match self {
            Ring::Grid(_) => mode != PathMode::Spline,
            Ring::Polyline(_) => false,
            Ring::Spline(points) => {
                let n = points.len();
                mode == PathMode::Spline && n >= 4 && (n - 1) % 3 == 0 && points[0] == points[n - 1]
            },
        }
    }
}

impl Document {
    pub open spec fn wf(self) -> bool {
        self@.wf()
    }

    /// Whether every ring is of the kind that the mode makes.
    pub fn fits(&self, mode: PathMode) -> (ok: bool)
        ensures
            ok == kinds_fit(self@.shapes, mode),
    {
        let n = self.shapes.len();
        let mut i: usize = 0;
        while i < n
            invariant
                i <= n,
                n == self.shapes.len(),
                self@.shapes.len() == n,
                forall|k: int, j: int|
                    0 <= k < i && 0 <= j < self@.shapes[k].rings.len() ==> (#[trigger] self@.shapes[k].rings[j]).fits(
                        mode,
                    ),
            decreases n - i,
        {
            assert(self@.shapes[i as int] == self.shapes[i as int]@);
            let shape = &self.shapes[i];
            let m = shape.rings.len();
            let mut j: usize = 0;
            while j < m
                invariant
                    j <= m,
                    i < n,
                    self@.shapes.len() == n,
                    m == shape.rings.len(),
                    self@.shapes[i as int] == shape@,
                    shape@.rings.len() == m,
                    forall|k: int| 0 <= k < j ==> (#[trigger] shape@.rings[k]).fits(mode),
                decreases m - j,
            {
                assert(shape@.rings[j as int] == shape.rings[j as int]@);
                if !shape.rings[j].fits(mode) {
                    assert(!self@.shapes[i as int].rings[j as int].fits(mode));
                    return false;
                }
                j += 1;
            }
            i += 1;
        }
        true
    }

    /// Checks every ring of every shape, in painting order, and reports the
    /// stage of the first that breaks its rule.
    pub fn check(&self) -> (r: Result<(), Stage>)
        ensures
            match self@.defect() {
                Some(stage) => r == Err::<(), Stage>(stage),
                None => r is Ok,
            },
            r is Ok <==> self.wf(),
    {
        let n = self.shapes.len();
        let mut i: usize = 0;
        while i < n
            invariant
                i <= n,
                n == self.shapes.len(),
                self@.shapes.len() == n,
                shapes_defect(self@.shapes, i as nat, self@.width, self@.height) is None,
            decreases n - i,
        {
            assert(self@.shapes[i as int] == self.shapes[i as int]@);
            match self.shapes[i].check(self.width, self.height) {
                Ok(()) => {},
                Err(stage) => {
                    proof {
                        lemma_shape_defect_stays(
                            self@.shapes,
                            (i + 1) as nat,
                            n as nat,
                            self@.width,
                            self@.height,
                        );
                        lemma_defect_free(self@);
                    }
                    return Err(stage);
                },
            }
            i += 1;
        }
        proof {
            lemma_defect_free(self@);
        }
        Ok(())
    }
}

} // verus!

//! How the rings of a shape lie in each other, where they are contours as
//! they were walked: an outer boundary runs clockwise, a hole runs against
//! it and stays inside the polygon of the boundary it is a hole of.

use crate::document::{Document, DocumentView, GridPoint, Ring, RingView, Shape, ShapeView};
use crate::walk::{follows_grid, ring_follows_grid};
use vstd::prelude::*;

verus! {

/// What one edge of a ring, from `a` to `b`, adds to twice the ring's area.
pub open spec fn edge_term(a: GridPoint, b: GridPoint) -> int {
    a.x * b.y - b.x * a.y
}

/// Twice the signed area that the first `n` edges of a ring sweep out.
pub open spec fn swept(points: Seq<GridPoint>, n: nat) -> int
    decreases n,
{
    if n == 0 {
        0
    } else {
        swept(points, (n - 1) as nat) + edge_term(points[n - 1], points[n as int])
    }
}

/// Twice the area that a closed ring encloses. It is positive where the ring
/// runs clockwise on the canvas, whose rows grow downwards, and negative
/// where it runs the other way.
pub open spec fn doubled_area(points: Seq<GridPoint>) -> int {
    if points.len() == 0 {
        0
    } else {
        swept(points, (points.len() - 1) as nat)
    }
}

/// What the segment from `a` to `b` adds to the number of times that a ring
/// winds around the pixel in column `cx` of row `cy`. A ray from the middle
/// of the pixel to the west is crossed by the segments that run along a grid
/// line at or before the pixel's left side and pass the pixel's row: one
/// that heads north counts one turn, one that heads south takes one back.
pub open spec fn crossing(a: GridPoint, b: GridPoint, cx: int, cy: int) -> int {
    if a.x == b.x && a.x <= cx {
        if b.y <= cy < a.y {
            1
        } else if a.y <= cy < b.y {
            -1
        } else {
            0
        }
    } else {
        0
    }
}

/// The crossings of the first `n` segments of a ring.
pub open spec fn winding(points: Seq<GridPoint>, n: nat, cx: int, cy: int) -> int
    decreases n,
{
    if n == 0 {
        0
    } else {
        winding(points, (n - 1) as nat, cx, cy) + crossing(points[n - 1], points[n as int], cx, cy)
    }
}

/// The pixel in column `cx` of row `cy` lies inside a ring that follows the
/// grid: the ring winds around it.
pub open spec fn pixel_inside(ring: Seq<GridPoint>, cx: int, cy: int) -> bool {
    ring.len() > 0 && winding(ring, (ring.len() - 1) as nat, cx, cy) != 0
}

/// The grid corner lies inside or on the polygon of a ring that follows the
/// grid: one of the four pixels that meet at the corner lies inside.
pub open spec fn corner_inside(p: GridPoint, ring: Seq<GridPoint>) -> bool {
    ||| pixel_inside(ring, p.x - 1, p.y - 1)
    ||| pixel_inside(ring, p.x as int, p.y - 1)
    ||| pixel_inside(ring, p.x - 1, p.y as int)
    ||| pixel_inside(ring, p.x as int, p.y as int)
}

/// The ring `outer` follows the grid, and every point of `inner` lies inside
/// or on its polygon.
pub open spec fn ring_within(inner: Seq<GridPoint>, outer: Seq<GridPoint>) -> bool {
    &&& follows_grid(outer)
    &&& forall|i: int| 0 <= i < inner.len() ==> corner_inside(#[trigger] inner[i], outer)
}

impl RingView {
    /// A ring of grid corners that runs clockwise.
    pub open spec fn is_outer(self) -> bool {
        self matches RingView::Grid(points) && doubled_area(points) > 0
    }

    /// A ring of grid corners that runs counter-clockwise.
    pub open spec fn is_hole(self) -> bool {
        self matches RingView::Grid(points) && doubled_area(points) < 0
    }
}

/// The place of the last outer ring before place `n`, or -1 if there is
/// none. A hole at place `n` is a hole of that ring.
pub open spec fn parent_before(rings: Seq<RingView>, n: nat) -> int
    decreases n,
{
    if n == 0 {
        -1
    } else if rings[n - 1].is_outer() {
        n - 1
    } else {
        parent_before(rings, (n - 1) as nat)
    }
}

/// The parent of a ring, where it has one, is an outer boundary at an
/// earlier place.
pub proof fn lemma_parent_is_outer(rings: Seq<RingView>, n: nat)
    requires
        parent_before(rings, n) >= 0,
    ensures
        0 <= parent_before(rings, n) < n,
        rings[parent_before(rings, n)].is_outer(),
    decreases n,
{
    if n > 0 && !rings[n - 1].is_outer() {
        lemma_parent_is_outer(rings, (n - 1) as nat);
    }
}

/// The ring at place `j` is an outer boundary, or a hole that has a parent
/// and lies inside or on its polygon.
pub open spec fn ring_nested(rings: Seq<RingView>, j: int) -> bool {
    ||| rings[j].is_outer()
    ||| {
        &&& rings[j].is_hole()
        &&& parent_before(rings, j as nat) >= 0
        &&& ring_within(rings[j]->Grid_0, rings[parent_before(rings, j as nat)]->Grid_0)
    }
}

impl ShapeView {
    /// Every ring is an outer boundary or a hole inside the polygon of the
    /// boundary before it; so the first ring is an outer boundary.
    pub open spec fn nested(self) -> bool {
        forall|j: int| 0 <= j < self.rings.len() ==> #[trigger] ring_nested(self.rings, j)
    }
}

impl DocumentView {
    pub open spec fn nested(self) -> bool {
        forall|i: int| 0 <= i < self.shapes.len() ==> (#[trigger] self.shapes[i]).nested()
    }
}

/// Every coordinate of the ring is zero or more.
pub open spec fn in_quadrant(points: Seq<GridPoint>) -> bool {
    forall|i: int| 0 <= i < points.len() ==> (#[trigger] points[i]).x >= 0 && points[i].y >= 0
}

impl ShapeView {
    /// Every ring of grid corners has coordinates of zero or more, as all
    /// rings on a canvas have.
    pub open spec fn in_quadrant(self) -> bool {
        forall|j: int|
            0 <= j < self.rings.len() ==> ((#[trigger] self.rings[j]) matches RingView::Grid(points)
                ==> in_quadrant(points))
    }
}

/// How often the ring winds around a pixel.
fn pixel_winding(ring: &Vec<GridPoint>, cx: i64, cy: i64) -> (w: i128)
    requires
        ring.len() > 0,
    ensures
        w == winding(ring@, (ring.len() - 1) as nat, cx as int, cy as int),
{
    let n = ring.len();
    let mut acc: i128 = 0;
    let mut k: usize = 0;
    while k < n - 1
        invariant
            n == ring.len(),
            n >= 1,
            k <= n - 1,
            acc == winding(ring@, k as nat, cx as int, cy as int),
            -k <= acc <= k,
        decreases n - 1 - k,
    {
        let a = ring[k];
        let b = ring[k + 1];
        if a.x == b.x && a.x as i64 <= cx {
            if b.y as i64 <= cy && cy < a.y as i64 {
                acc = acc + 1;
            } else if a.y as i64 <= cy && cy < b.y as i64 {
                acc = acc - 1;
            }
        }
        k += 1;
    }
    acc
}

/// Whether a grid corner lies inside or on the polygon of the ring.
fn corner_in(ring: &Vec<GridPoint>, p: GridPoint) -> (inside: bool)
    ensures
        inside == corner_inside(p, ring@),
{
    if ring.len() == 0 {
        return false;
    }
    let x = p.x as i64;
    let y = p.y as i64;
    pixel_winding(ring, x - 1, y - 1) != 0 || pixel_winding(ring, x, y - 1) != 0 || pixel_winding(ring, x - 1, y)
        != 0 || pixel_winding(ring, x, y) != 0
}

/// Whether `outer` follows the grid and every point of `inner` lies inside
/// or on its polygon.
fn hole_within(inner: &Vec<GridPoint>, outer: &Vec<GridPoint>) -> (ok: bool)
    ensures
        ok == ring_within(inner@, outer@),
{
    if !ring_follows_grid(outer) {
        return false;
    }
    let mut i: usize = 0;
    while i < inner.len()
        invariant
            i <= inner.len(),
            follows_grid(outer@),
            forall|k: int| 0 <= k < i ==> corner_inside(#[trigger] inner@[k], outer@),
        decreases inner.len() - i,
    {
        if !corner_in(outer, inner[i]) {
            return false;
        }
        i += 1;
    }
    true
}

/// The most that one edge of a ring in the quadrant adds to or takes from
/// twice its area.
pub const EDGE_TERM_MAX: i128 = 0x4000_0000_0000_0000;

/// Twice the area of a ring, with its sign.
pub(crate) fn doubled_area_of(points: &Vec<GridPoint>) -> (area: i128)
    requires
        in_quadrant(points@),
    ensures
        area == doubled_area(points@),
        -(points.len() * EDGE_TERM_MAX) <= area <= points.len() * EDGE_TERM_MAX,
{
    let n = points.len();
    if n == 0 {
        return 0;
    }
    let mut acc: i128 = 0;
    let mut k: usize = 0;
    while k < n - 1
        invariant
            n == points.len(),
            n >= 1,
            k <= n - 1,
            in_quadrant(points@),
            acc == swept(points@, k as nat),
            -(k * EDGE_TERM_MAX) <= acc <= k * EDGE_TERM_MAX,
        decreases n - 1 - k,
    {
        let a = points[k];
        let b = points[k + 1];
        proof {
            assert(0 <= a.x * b.y <= EDGE_TERM_MAX) by (nonlinear_arith)
                requires
                    0 <= a.x <= 0x7fff_ffff,
                    0 <= b.y <= 0x7fff_ffff,
            ;
            assert(0 <= b.x * a.y <= EDGE_TERM_MAX) by (nonlinear_arith)
                requires
                    0 <= b.x <= 0x7fff_ffff,
                    0 <= a.y <= 0x7fff_ffff,
            ;
            assert((k + 1) * EDGE_TERM_MAX == k * EDGE_TERM_MAX + EDGE_TERM_MAX) by (nonlinear_arith);
            assert(k * EDGE_TERM_MAX <= 0xffff_ffff_ffff_ffff * EDGE_TERM_MAX) by (nonlinear_arith)
                requires
                    k <= 0xffff_ffff_ffff_ffff,
            ;
        }
        let term: i128 = (a.x as i128) * (b.y as i128) - (b.x as i128) * (a.y as i128);
        acc = acc + term;
        k += 1;
    }
    proof {
        assert(k * EDGE_TERM_MAX <= n * EDGE_TERM_MAX) by (nonlinear_arith)
            requires
                k <= n,
        ;
    }
    acc
}

/// The sign of the area of a ring: 1 where it runs clockwise, -1 where it
/// runs the other way, 0 where it encloses nothing.
fn turn(points: &Vec<GridPoint>) -> (s: i8)
    requires
        in_quadrant(points@),
    ensures
        s == 1 <==> doubled_area(points@) > 0,
        s == -1 <==> doubled_area(points@) < 0,
        s == 0 <==> doubled_area(points@) == 0,
{
    let area = doubled_area_of(points);
    if area > 0 {
        1
    } else if area < 0 {
        -1
    } else {
        0
    }
}

impl Shape {
    /// Whether the rings lie in each other as contours do. The rings must
    /// have no negative coordinate, as the rings of a shape have that passed
    /// [`Shape::check`].
    pub fn is_nested(&self) -> (ok: bool)
        requires
            self@.in_quadrant(),
        ensures
            ok == self@.nested(),
    {
        let n = self.rings.len();
        let mut parent: Option<usize> = None;
        let mut j: usize = 0;
        while j < n
            invariant
                j <= n,
                n == self.rings.len(),
                self@.rings.len() == n,
                self@.in_quadrant(),
                forall|k: int| 0 <= k < j ==> #[trigger] ring_nested(self@.rings, k),
                parent is None <==> parent_before(self@.rings, j as nat) < 0,
                parent matches Some(at) ==> at == parent_before(self@.rings, j as nat) && at < j
                    && self@.rings[at as int] is Grid,
            decreases n - j,
        {
            assert(self@.rings[j as int] == self.rings[j as int]@);
            match &self.rings[j] {
                Ring::Grid(points) => {
                    assert(in_quadrant(points@));
                    let s = turn(points);
                    if s == 1 {
                        parent = Some(j);
                    } else if s == -1 {
                        match parent {
                            Some(at) => {
                                assert(self@.rings[at as int] == self.rings[at as int]@);
                                match &self.rings[at] {
                                    Ring::Grid(outer) => {
                                        if !hole_within(points, outer) {
                                            assert(!ring_nested(self@.rings, j as int));
                                            return false;
                                        }
                                    },
                                    _ => {
                                        assert(false);
                                    },
                                }
                            },
                            None => {
                                assert(!ring_nested(self@.rings, j as int));
                                return false;
                            },
                        }
                    } else {
                        assert(!ring_nested(self@.rings, j as int));
                        return false;
                    }
                },
                _ => {
                    assert(!ring_nested(self@.rings, j as int));
                    return false;
                },
            }
            j += 1;
        }
        true
    }
}

impl Document {
    /// Whether the rings of every shape lie in each other as contours do.
    /// The document must have passed [`Document::check`].
    pub fn is_nested(&self) -> (ok: bool)
        requires
            self.wf(),
        ensures
            ok == self@.nested(),
    {
        let n = self.shapes.len();
        let mut i: usize = 0;
        while i < n
            invariant
                i <= n,
                n == self.shapes.len(),
                self@.shapes.len() == n,
                self.wf(),
                forall|k: int| 0 <= k < i ==> (#[trigger] self@.shapes[k]).nested(),
            decreases n - i,
        {
            assert(self@.shapes[i as int] == self.shapes[i as int]@);
            proof {
                lemma_wf_in_quadrant(self@, i as int);
            }
            if !self.shapes[i].is_nested() {
                return false;
            }
            i += 1;
        }
        true
    }
}

/// Rings on a canvas have no negative coordinate.
pub proof fn lemma_wf_in_quadrant(doc: DocumentView, i: int)
    requires
        doc.wf(),
        0 <= i < doc.shapes.len(),
    ensures
        doc.shapes[i].in_quadrant(),
{
    let shape = doc.shapes[i];
    assert forall|j: int| 0 <= j < shape.rings.len() implies ((#[trigger] shape.rings[j]) matches RingView::Grid(
        points,
    ) ==> in_quadrant(points)) by {
        assert(doc.shapes[i].rings[j].defect(doc.width, doc.height) is None);
    }
}

} // verus!

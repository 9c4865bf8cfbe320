//! Speckles: shapes that cover fewer pixels than the filter lets through.
//! The pixels of a shape are counted from its contours as they were walked:
//! a boundary encloses as many pixels as its area, and a hole takes its own
//! away. The tracer measures a speckle by the side of a square, so it is
//! handed the whole root of the pixels asked for, and what it leaves below
//! them is dropped here. A shape that is dropped is not joined to its
//! surroundings: what lies under it shows.

use crate::document::{shape_views, Document, DocumentView, Ring, RingView, Shape, ShapeView};
use crate::nesting::{doubled_area, doubled_area_of, lemma_wf_in_quadrant, EDGE_TERM_MAX};
use vstd::prelude::*;

verus! {

/// Twice the pixels that the first `n` rings of a shape enclose together.
/// Curves enclose none that can be counted.
pub open spec fn doubled_pixels_upto(rings: Seq<RingView>, n: nat) -> int
    decreases n,
{
    if n == 0 {
        0
    } else {
        doubled_pixels_upto(rings, (n - 1) as nat) + match rings[n - 1] {
            RingView::Grid(points) => doubled_area(points),
            _ => 0,
        }
    }
}

/// The grid corners of the first `n` rings of a shape together.
pub open spec fn corners_upto(rings: Seq<RingView>, n: nat) -> nat
    decreases n,
{
    if n == 0 {
        0
    } else {
        corners_upto(rings, (n - 1) as nat) + match rings[n - 1] {
            RingView::Grid(points) => points.len(),
            _ => 0,
        }
    }
}

impl ShapeView {
    /// Twice the pixels that the shape covers.
    pub open spec fn doubled_pixels(self) -> int {
        doubled_pixels_upto(self.rings, self.rings.len())
    }

    /// The shape covers at least the given number of pixels, and its grid
    /// corners can be counted in a machine word.
    pub open spec fn covers(self, pixels: nat) -> bool {
        corners_upto(self.rings, self.rings.len()) <= usize::MAX && self.doubled_pixels() >= 2 * pixels
    }
}

impl DocumentView {
    /// No shape covers fewer than the given number of pixels.
    pub open spec fn speckle_free(self, pixels: nat) -> bool {
        forall|i: int| 0 <= i < self.shapes.len() ==> (#[trigger] self.shapes[i]).covers(pixels)
    }
}

/// What the speckle filter asks of a shape.
pub open spec fn covering(pixels: nat) -> spec_fn(ShapeView) -> bool {
    |s: ShapeView| s.covers(pixels)
}

/// The shapes that the speckle filter lets through: those that cover at
/// least the given number of pixels, in their order.
pub open spec fn without_speckles(shapes: Seq<ShapeView>, pixels: nat) -> Seq<ShapeView> {
    shapes.filter(covering(pixels))
}

/// The corners of more rings are no fewer.
proof fn lemma_corners_grow(rings: Seq<RingView>, n: nat, m: nat)
    requires
        n <= m,
    ensures
        corners_upto(rings, n) <= corners_upto(rings, m),
    decreases m,
{
    if n < m {
        lemma_corners_grow(rings, n, (m - 1) as nat);
    }
}

impl Shape {
    /// Whether the shape covers at least the given number of pixels. The
    /// rings must have no negative coordinate, as the rings of a shape have
    /// that passed [`Shape::check`].
    pub fn covers(&self, pixels: u128) -> (ok: bool)
        requires
            self@.in_quadrant(),
        ensures
            ok == self@.covers(pixels as nat),
    {
        let n = self.rings.len();
        let mut corners: usize = 0;
        let mut acc: i128 = 0;
        let mut j: usize = 0;
        while j < n
            invariant
                j <= n,
                n == self.rings.len(),
                self@.rings.len() == n,
                self@.in_quadrant(),
                corners == corners_upto(self@.rings, j as nat),
                acc == doubled_pixels_upto(self@.rings, j as nat),
                -(corners * EDGE_TERM_MAX) <= acc <= corners * EDGE_TERM_MAX,
            decreases n - j,
        {
            assert(self@.rings[j as int] == self.rings[j as int]@);
            match &self.rings[j] {
                Ring::Grid(points) => {
                    match corners.checked_add(points.len()) {
                        Some(more) => {
                            let area = doubled_area_of(points);
                            proof {
                                assert((corners + points.len()) * EDGE_TERM_MAX == corners * EDGE_TERM_MAX
                                    + points.len() * EDGE_TERM_MAX) by (nonlinear_arith);
                                assert(more * EDGE_TERM_MAX <= 0xffff_ffff_ffff_ffff * EDGE_TERM_MAX)
                                    by (nonlinear_arith)
                                    requires
                                        more <= 0xffff_ffff_ffff_ffff,
                                ;
                            }
                            acc = acc + area;
                            corners = more;
                        },
                        None => {
                            proof {
                                lemma_corners_grow(self@.rings, (j + 1) as nat, n as nat);
                            }
                            return false;
                        },
                    }
                },
                _ => {},
            }
            j += 1;
        }
        proof {
            assert(corners * EDGE_TERM_MAX <= 0xffff_ffff_ffff_ffff * EDGE_TERM_MAX) by (nonlinear_arith)
                requires
                    corners <= 0xffff_ffff_ffff_ffff,
            ;
        }
        if pixels > 0x2000_0000_0000_0000_0000_0000_0000_0000 {
            false
        } else {
            acc >= 0 && acc as u128 >= 2 * pixels
        }
    }
}

impl Document {
    /// Whether no shape covers fewer than the given number of pixels. The
    /// document must have passed [`Document::check`].
    pub fn is_speckle_free(&self, pixels: u128) -> (ok: bool)
        requires
            self.wf(),
        ensures
            ok == self@.speckle_free(pixels as nat),
    {
        let n = self.shapes.len();
        let mut i: usize = 0;
        while i < n
            invariant
                i <= n,
                n == self.shapes.len(),
                self@.shapes.len() == n,
                self.wf(),
                forall|k: int| 0 <= k < i ==> (#[trigger] self@.shapes[k]).covers(pixels as nat),
            decreases n - i,
        {
            assert(self@.shapes[i as int] == self.shapes[i as int]@);
            proof {
                lemma_wf_in_quadrant(self@, i as int);
            }
            if !self.shapes[i].covers(pixels) {
                return false;
            }
            i += 1;
        }
        true
    }
}

/// The greatest whole number whose square is no more than `n`.
pub open spec fn root(n: nat) -> nat
    decreases n,
{
    if n == 0 {
        0
    } else {
        let r = root((n - 1) as nat);
        if (r + 1) * (r + 1) <= n {
            r + 1
        } else {
            r
        }
    }
}

/// The square of the root is no more than the number, and the next square is
/// more.
pub proof fn lemma_root(n: nat)
    ensures
        root(n) * root(n) <= n < (root(n) + 1) * (root(n) + 1),
    decreases n,
{
    if n > 0 {
        lemma_root((n - 1) as nat);
        let r = root((n - 1) as nat);
        let next = (r + 1) * (r + 1);
        assert(r * r <= n - 1 < next);
        if next <= n {
            assert(root(n) == r + 1);
            assert(n == next);
            assert((r + 1 + 1) * (r + 1 + 1) > (r + 1) * (r + 1)) by (nonlinear_arith)
                requires
                    r >= 0,
            ;
        } else {
            assert(root(n) == r);
        }
    } else {
        assert(root(0) == 0);
        assert((0 + 1) * (0 + 1) == 1) by (nonlinear_arith);
    }
}

/// Only the root lies between the squares.
pub proof fn lemma_root_is_the_only(n: nat, r: nat)
    requires
        r * r <= n < (r + 1) * (r + 1),
    ensures
        r == root(n),
{
    lemma_root(n);
    let q = root(n);
    if r < q {
        assert((r + 1) * (r + 1) <= q * q) by (nonlinear_arith)
            requires
                r + 1 <= q,
        ;
    }
    if q < r {
        assert((q + 1) * (q + 1) <= r * r) by (nonlinear_arith)
            requires
                q + 1 <= r,
        ;
    }
}

/// The greatest whole number whose square is no more than `n`.
pub fn whole_root(n: usize) -> (r: usize)
    ensures
        r == root(n as nat),
        r * r <= n,
{
    let target = n as u128;
    let mut low: u128 = 0;
    let mut high: u128 = 0x1_0000_0000;
    assert(high * high > target) by (nonlinear_arith)
        requires
            high == 0x1_0000_0000,
            target <= 0xffff_ffff_ffff_ffff,
    ;
    while high - low > 1
        invariant
            low < high <= 0x1_0000_0000,
            low * low <= target < high * high,
        decreases high - low,
    {
        let mid = low + (high - low) / 2;
        assert(mid * mid <= 0x1_0000_0000 * 0x1_0000_0000) by (nonlinear_arith)
            requires
                mid <= 0x1_0000_0000,
        ;
        if mid * mid <= target {
            low = mid;
        } else {
            high = mid;
        }
    }
    proof {
        lemma_root_is_the_only(n as nat, low as nat);
        assert(low <= target) by (nonlinear_arith)
            requires
                low * low <= target,
                low >= 0,
        ;
    }
    low as usize
}

/// What the filter makes of a sequence with one more shape.
pub proof fn lemma_filter_one_more(shapes: Seq<ShapeView>, x: ShapeView, pixels: nat)
    ensures
        without_speckles(shapes.push(x), pixels) == if x.covers(pixels) {
            without_speckles(shapes, pixels).push(x)
        } else {
            without_speckles(shapes, pixels)
        },
{
    reveal_with_fuel(Seq::filter, 2);
    assert(shapes.push(x).drop_last() =~= shapes);
    assert(shapes.push(x).last() == x);
    assert(covering(pixels)(x) == x.covers(pixels));
}

/// Every shape that the filter lets through is one of the shapes, and covers
/// what the filter asks.
pub proof fn lemma_filtered(shapes: Seq<ShapeView>, pixels: nat)
    ensures
        forall|k: int|
            0 <= k < without_speckles(shapes, pixels).len() ==> shapes.contains(
                #[trigger] without_speckles(shapes, pixels)[k],
            ) && without_speckles(shapes, pixels)[k].covers(pixels),
{
    let kept = without_speckles(shapes, pixels);
    shapes.filter_lemma(covering(pixels));
    assert forall|k: int| 0 <= k < kept.len() implies shapes.contains(#[trigger] kept[k]) && kept[k].covers(
        pixels,
    ) by {
        assert(covering(pixels)(kept[k]));
        assert(kept.contains(kept[k]));
        shapes.lemma_filter_contains_rev(covering(pixels), kept[k]);
    }
}

/// Drops the shapes that cover fewer than the given number of pixels, and
/// keeps the others in their order.
pub fn keep_covering(shapes: Vec<Shape>, pixels: u128) -> (kept: Vec<Shape>)
    requires
        forall|i: int| 0 <= i < shapes.len() ==> (#[trigger] shapes@[i])@.in_quadrant(),
    ensures
        shape_views(kept@) == without_speckles(shape_views(shapes@), pixels as nat),
{
    let ghost old = shapes@;
    let n = shapes.len();
    let mut rest = shapes;
    let mut back: Vec<Shape> = Vec::new();
    while rest.len() > 0
        invariant
            rest.len() + back.len() == n,
            n == old.len(),
            rest@ == old.take(rest.len() as int),
            forall|i: int| 0 <= i < back.len() ==> back@[i] == old[n - 1 - i],
        decreases rest.len(),
    {
        let shape = rest.pop().unwrap();
        back.push(shape);
    }
    let mut kept: Vec<Shape> = Vec::new();
    proof {
        assert(shape_views(old.take(0)) =~= Seq::<ShapeView>::empty());
        reveal_with_fuel(Seq::filter, 1);
        assert(without_speckles(Seq::<ShapeView>::empty(), pixels as nat) =~= Seq::<ShapeView>::empty());
        assert(shape_views(kept@) =~= Seq::<ShapeView>::empty());
    }
    while back.len() > 0
        invariant
            back.len() <= n,
            n == old.len(),
            forall|i: int| 0 <= i < old.len() ==> (#[trigger] old[i])@.in_quadrant(),
            forall|i: int| 0 <= i < back.len() ==> back@[i] == old[n - 1 - i],
            shape_views(kept@) == without_speckles(shape_views(old.take(n - back.len())), pixels as nat),
        decreases back.len(),
    {
        let ghost at = n - back.len();
        let ghost before = kept@;
        let shape = back.pop().unwrap();
        assert(shape == old[at]);
        let keep = shape.covers(pixels);
        proof {
            assert(old.take(at + 1) =~= old.take(at).push(old[at]));
            assert(shape_views(old.take(at + 1)) =~= shape_views(old.take(at)).push(old[at]@));
            lemma_filter_one_more(shape_views(old.take(at)), old[at]@, pixels as nat);
        }
        if keep {
            kept.push(shape);
            assert(shape_views(kept@) =~= shape_views(before).push(old[at]@));
        }
    }
    assert(old.take(n as int) =~= old);
    kept
}

/// A filter lets through all of a sequence whose every item passes.
pub proof fn lemma_filter_keeps_all(shapes: Seq<ShapeView>, pixels: nat)
    requires
        forall|i: int| 0 <= i < shapes.len() ==> (#[trigger] shapes[i]).covers(pixels),
    ensures
        without_speckles(shapes, pixels) == shapes,
    decreases shapes.len(),
{
    reveal_with_fuel(Seq::filter, 2);
    if shapes.len() > 0 {
        let rest = shapes.drop_last();
        assert forall|i: int| 0 <= i < rest.len() implies (#[trigger] rest[i]).covers(pixels) by {
            assert(rest[i] == shapes[i]);
        }
        lemma_filter_keeps_all(rest, pixels);
        assert(covering(pixels)(shapes.last()));
        assert(rest.push(shapes.last()) =~= shapes);
    }
}

/// Filtering twice with the same threshold gives what filtering once gives.
pub proof fn law_filter_twice_is_once(shapes: Seq<ShapeView>, pixels: nat)
    ensures
        without_speckles(without_speckles(shapes, pixels), pixels) == without_speckles(shapes, pixels),
{
    let once = without_speckles(shapes, pixels);
    shapes.filter_lemma(covering(pixels));
    assert forall|i: int| 0 <= i < once.len() implies (#[trigger] once[i]).covers(pixels) by {
        assert(covering(pixels)(once[i]));
    }
    lemma_filter_keeps_all(once, pixels);
}

} // verus!

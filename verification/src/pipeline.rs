//! The conversion itself: settle the configuration, refuse what cannot be
//! traced, trace, and admit only outlines that keep their rules.

use crate::config::{resolve, ColorMode, PathMode, Settings, TraceConfig};
use crate::curves::{close_curves, closed_shapes, lemma_closed_fit};
use crate::document::{
    fills_of, kinds_fit, kinds_made, lemma_curves_have_no_defect, lemma_defect_free, lemma_shapes_defect_stage,
    shape_views, Document, DocumentView, RingView, Shape, ShapeView,
};
use crate::engine::{
    as_walked, fill_at, key_found, predictable, rings_at, run_tracer, shape_count, svg_shapes, traced,
};
use crate::error::{Stage, TraceError};
use crate::nesting::{corner_inside, lemma_parent_is_outer, lemma_wf_in_quadrant, parent_before, ring_nested};
use crate::raster::RasterBuffer;
use crate::speckle::{keep_covering, lemma_filter_keeps_all, lemma_filtered, root, whole_root, without_speckles};
use crate::walk::{follows_grid, passes_once};
use vstd::prelude::*;
use vtracer::SvgFile;

verus! {

/// Whether the rings of a document are contours as the boundary follower
/// leaves them: every ring is a walk along the grid that overlaps itself
/// nowhere, and the rings of each shape lie in each other as boundaries and
/// holes do.
pub open spec fn contours_sound(doc: DocumentView) -> bool {
    doc.walked() && doc.nested()
}

/// The settings that the tracer is handed. It measures speckles by the side
/// of a square, so it gets the greatest side whose square is no more than
/// the pixels that the settings ask for, and lets no region go that is to be
/// kept.
pub open spec fn tracer_settings(settings: Settings) -> Settings {
    Settings { filter_speckle: root(settings.filter_speckle as nat) as usize, ..settings }
}

/// What becomes of traced shapes.
/// - Where curves are asked for, every run of curves is closed first.
/// - If a ring then breaks its rule, the result is the failure of the stage
///   that the first such ring comes from.
/// - Where contours as they were walked are asked for: if the rings are not
///   sound as such, the failure of the contour tracer; else the document of
///   the shapes that cover no fewer pixels than `filter_speckle`.
/// - Where polygons or curves are asked for: if a ring is of another kind,
///   the failure of the path simplifier; else the document of the shapes.
pub open spec fn finished(shapes: Seq<ShapeView>, width: nat, height: nat, settings: Settings) -> Result<
    DocumentView,
    TraceError,
> {
    let whole = if settings.mode == PathMode::Spline {
        closed_shapes(shapes)
    } else {
        shapes
    };
    let doc = DocumentView { width, height, precision: settings.path_precision as nat, shapes: whole };
    match doc.defect() {
        Some(stage) => Err(TraceError::TracingFailure(stage)),
        None => if settings.mode == PathMode::Raw {
            if contours_sound(doc) {
                Ok(
                    DocumentView {
                        width,
                        height,
                        precision: settings.path_precision as nat,
                        shapes: without_speckles(shapes, settings.filter_speckle as nat),
                    },
                )
            } else {
                Err(TraceError::TracingFailure(Stage::ContourTracing))
            }
        } else if kinds_fit(whole, settings.mode) {
            Ok(doc)
        } else {
            Err(TraceError::TracingFailure(Stage::PathSimplification))
        },
    }
}

/// A result with the document seen as its view.
pub open spec fn outcome_view(r: Result<Document, TraceError>) -> Result<DocumentView, TraceError> {
    match r {
        Ok(doc) => Ok(doc@),
        Err(e) => Err(e),
    }
}

/// What holds of every document: it is well formed, its rings are of the
/// kind that the mode makes, and where the settings ask for contours as they
/// were walked, they are sound contours and no shape covers fewer pixels
/// than `filter_speckle`.
pub open spec fn keeps_rules(doc: DocumentView, settings: Settings) -> bool {
    &&& doc.wf()
    &&& kinds_fit(doc.shapes, settings.mode)
    &&& settings.mode == PathMode::Raw ==> contours_sound(doc) && doc.speckle_free(settings.filter_speckle as nat)
}

/// A document that is made of traced shapes keeps the rules, has the size
/// and the precision that were given, and fails for a ring only.
pub proof fn lemma_finished_keeps_rules(shapes: Seq<ShapeView>, width: nat, height: nat, settings: Settings)
    ensures
        finished(shapes, width, height, settings) matches Ok(doc) ==> {
            &&& keeps_rules(doc, settings)
            &&& doc.width == width
            &&& doc.height == height
            &&& doc.precision == settings.path_precision
            &&& settings.mode != PathMode::Raw ==> fills_of(doc.shapes) == fills_of(shapes)
        },
        finished(shapes, width, height, settings) matches Err(e) ==> e is TracingFailure && e
            != TraceError::TracingFailure(Stage::Segmentation),
        settings.mode == PathMode::Spline && kinds_made(shapes, settings.mode) ==> finished(
            shapes,
            width,
            height,
            settings,
        ) is Ok,
{
    let whole = if settings.mode == PathMode::Spline {
        closed_shapes(shapes)
    } else {
        shapes
    };
    let all = DocumentView { width, height, precision: settings.path_precision as nat, shapes: whole };
    lemma_shapes_defect_stage(whole, whole.len(), width, height);
    lemma_defect_free(all);
    lemma_closed_fit(shapes);
    if settings.mode == PathMode::Spline && kinds_made(shapes, settings.mode) {
        lemma_curves_have_no_defect(all);
    }
    if all.defect() is None && settings.mode == PathMode::Raw && contours_sound(all) {
        let pixels = settings.filter_speckle as nat;
        let kept = without_speckles(shapes, pixels);
        let doc = DocumentView { width, height, precision: settings.path_precision as nat, shapes: kept };
        lemma_filtered(shapes, pixels);
        assert forall|i: int| 0 <= i < kept.len() implies {
            &&& forall|j: int|
                0 <= j < kept[i].rings.len() ==> (#[trigger] kept[i].rings[j]).defect(width, height) is None
            &&& (#[trigger] kept[i]).walked()
            &&& kept[i].nested()
            &&& kept[i].covers(pixels)
        } by {
            assert(shapes.contains(kept[i]));
            let m = choose|m: int| 0 <= m < shapes.len() && shapes[m] == kept[i];
            assert(all.shapes[m].walked());
            assert(all.shapes[m].nested());
            assert forall|j: int| 0 <= j < kept[i].rings.len() implies (#[trigger] kept[i].rings[j]).defect(
                width,
                height,
            ) is None by {
                assert(all.shapes[m].rings[j].defect(width, height) is None);
            }
        }
        assert(doc.wf());
        assert(doc.walked());
        assert(doc.nested());
        lemma_walked_is_grid(doc);
    }
}

/// Puts traced shapes together as a document of the given size: closes the
/// curves, checks every ring, and, where the settings ask for contours as
/// they were walked, checks that the rings are sound as such and drops the
/// speckles. Of the settings the mode, the precision and `filter_speckle`
/// are read.
pub fn assemble(shapes: Vec<Shape>, width: usize, height: usize, settings: &Settings) -> (r: Result<
    Document,
    TraceError,
>)
    ensures
        outcome_view(r) == finished(shape_views(shapes@), width as nat, height as nat, *settings),
{
    let ghost traced_shapes = shape_views(shapes@);
    let whole = if settings.mode == PathMode::Spline {
        close_curves(shapes)
    } else {
        shapes
    };
    let doc = Document { width, height, precision: settings.path_precision, shapes: whole };
    match doc.check() {
        Ok(()) => {
            if settings.mode == PathMode::Raw {
                if doc.is_walked() && doc.is_nested() {
                    proof {
                        assert forall|i: int| 0 <= i < doc.shapes.len() implies (#[trigger] doc.shapes@[i])@.in_quadrant() by {
                            lemma_wf_in_quadrant(doc@, i);
                            assert(doc@.shapes[i] == doc.shapes@[i]@);
                        }
                    }
                    let kept = keep_covering(doc.shapes, settings.filter_speckle as u128);
                    Ok(Document { width, height, precision: settings.path_precision, shapes: kept })
                } else {
                    Err(TraceError::TracingFailure(Stage::ContourTracing))
                }
            } else if doc.fits(settings.mode) {
                Ok(doc)
            } else {
                Err(TraceError::TracingFailure(Stage::PathSimplification))
            }
        },
        Err(stage) => Err(TraceError::TracingFailure(stage)),
    }
}

/// What a conversion under valid settings returns.
///
/// A raster without pixels is refused. So is one with more pixels than the
/// tracer can number regions for, and, where polygons or curves are asked
/// for, one that is wider or higher than the reducer can take. Otherwise:
/// - where the conversion is predictable, the result is exactly what
///   [`finished`] makes of the traced shapes;
/// - where curves are asked for and no random number is drawn, there is a
///   document;
/// - where polygons or curves are asked for and no random number is drawn,
///   the document has the fills of the contours as walked, shape for shape;
/// - the document, if there is one, has the raster's size and keeps the
///   rules that [`keeps_rules`] gives;
/// - the only failure is a stage's, and the segmenter's only where it found
///   no key color.
pub open spec fn traces(raster: RasterBuffer, settings: Settings, r: Result<Document, TraceError>) -> bool {
    if raster.spec_is_empty() {
        r == Err::<Document, TraceError>(TraceError::EmptyInput)
    } else if !raster.countable() {
        r == Err::<Document, TraceError>(TraceError::TracingFailure(Stage::ContourTracing))
    } else if settings.mode != PathMode::Raw && !raster.reducible() {
        r == Err::<Document, TraceError>(TraceError::TracingFailure(Stage::PathSimplification))
    } else {
        &&& predictable(raster.bytes(), raster.spec_width(), raster.spec_height(), settings) ==> outcome_view(r) == finished(
            traced(raster.bytes(), raster.spec_width(), raster.spec_height(), tracer_settings(settings)),
            raster.spec_width(),
            raster.spec_height(),
            settings,
        )
        &&& settings.mode == PathMode::Spline && key_found(raster.bytes(), raster.spec_width(), raster.spec_height(), settings) ==> r is Ok
        &&& settings.mode != PathMode::Raw && key_found(raster.bytes(), raster.spec_width(), raster.spec_height(), settings) ==> (
        r matches Ok(doc) ==> fills_of(doc@.shapes) == fills_of(
            traced(
                raster.bytes(),
                raster.spec_width(),
                raster.spec_height(),
                as_walked(tracer_settings(settings)),
            ),
        ))
        &&& r matches Ok(doc) ==> {
            &&& keeps_rules(doc@, settings)
            &&& doc.width == raster.spec_width()
            &&& doc.height == raster.spec_height()
            &&& doc.precision == settings.path_precision
        }
        &&& r matches Err(e) ==> e is TracingFailure
        &&& key_found(raster.bytes(), raster.spec_width(), raster.spec_height(), settings) ==> r != Err::<Document, TraceError>(
            TraceError::TracingFailure(Stage::Segmentation),
        )
    }
}

fn copy_shapes(svg: &SvgFile) -> (shapes: Vec<Shape>)
    ensures
        shape_views(shapes@) == svg_shapes(*svg),
{
    let n = shape_count(svg);
    let mut shapes: Vec<Shape> = Vec::new();
    let mut i: usize = 0;
    while i < n
        invariant
            i <= n,
            n == svg_shapes(*svg).len(),
            shapes.len() == i,
            forall|k: int| 0 <= k < i ==> (#[trigger] shapes@[k])@ == svg_shapes(*svg)[k],
        decreases n - i,
    {
        let shape = Shape { fill: fill_at(svg, i), rings: rings_at(svg, i) };
        shapes.push(shape);
        i += 1;
    }
    assert(shape_views(shapes@) =~= svg_shapes(*svg));
    shapes
}

/// Whether a conversion of the raster under the settings draws no random
/// number, so that it cannot fail for want of a key color.
pub fn finds_key(raster: &RasterBuffer, settings: &Settings) -> (p: bool)
    ensures
        p == key_found(raster.bytes(), raster.spec_width(), raster.spec_height(), *settings),
{
    settings.color_mode == ColorMode::Binary || !(raster.uses_color(255, 0, 0) && raster.uses_color(0, 255, 0)
        && raster.uses_color(0, 0, 255) && raster.uses_color(255, 255, 0) && raster.uses_color(0, 255, 255)
        && raster.uses_color(255, 0, 255)) || !raster.seeks_key()
}

/// Whether the result of a conversion of the raster under the settings is a
/// function of the two.
pub fn is_predictable(raster: &RasterBuffer, settings: &Settings) -> (p: bool)
    ensures
        p == predictable(raster.bytes(), raster.spec_width(), raster.spec_height(), *settings),
{
    settings.mode != PathMode::Spline && finds_key(raster, settings)
}

/// Converts a raster under settings in which nothing is left open.
///
/// The settings are checked first, and the first number outside its range
/// is reported before the raster is looked at.
pub fn trace_with(raster: RasterBuffer, settings: &Settings) -> (r: Result<Document, TraceError>)
    ensures
        match settings.first_out_of_range() {
            Some(field) => r == Err::<Document, TraceError>(TraceError::InvalidConfig(field)),
            None => traces(raster, *settings, r),
        },
{
    match settings.validate() {
        Ok(()) => {},
        Err(field) => {
            return Err(TraceError::InvalidConfig(field));
        },
    }
    if raster.is_empty() {
        return Err(TraceError::EmptyInput);
    }
    if !raster.is_countable() {
        return Err(TraceError::TracingFailure(Stage::ContourTracing));
    }
    if settings.mode != PathMode::Raw && !raster.is_reducible() {
        return Err(TraceError::TracingFailure(Stage::PathSimplification));
    }
    let width = raster.width();
    let height = raster.height();
    let pixels = raster.into_bytes();
    let mut handed = *settings;
    handed.filter_speckle = whole_root(settings.filter_speckle);
    assert(handed == tracer_settings(*settings));
    match run_tracer(pixels, width, height, &handed) {
        Ok(svg) => {
            let shapes = copy_shapes(&svg);
            proof {
                lemma_finished_keeps_rules(shape_views(shapes@), width as nat, height as nat, *settings);
            }
            assemble(shapes, width, height, settings)
        },
        Err(_) => Err(TraceError::TracingFailure(Stage::Segmentation)),
    }
}

/// Converts a raster into a document.
///
/// The configuration is resolved first: an unknown name or a number outside
/// its range fails the conversion before any tracing is done.
pub fn trace(raster: RasterBuffer, config: TraceConfig) -> (r: Result<Document, TraceError>)
    ensures
        match config.resolution() {
            Err(e) => r == Err::<Document, TraceError>(e),
            Ok(settings) => traces(raster, settings, r),
        },
{
    match resolve(&config) {
        Ok(settings) => trace_with(raster, &settings),
        Err(e) => Err(e),
    }
}

/// Every ring of a traced document ends where it starts, in every mode: a
/// ring of straight segments repeats its first point, and a ring of curves
/// has a start point and three points for each curve, of which the last is
/// the start point again.
pub proof fn law_rings_close(raster: RasterBuffer, settings: Settings, doc: Document, i: int, j: int)
    requires
        traces(raster, settings, Ok(doc)),
        0 <= i < doc@.shapes.len(),
        0 <= j < doc@.shapes[i].rings.len(),
    ensures
        match doc@.shapes[i].rings[j] {
            RingView::Grid(points) => points.len() >= 2 && points[0] == points[points.len() - 1],
            RingView::Polyline(points) => points.len() >= 2 && points[0] == points[points.len() - 1],
            RingView::Spline(points) => points.len() >= 4 && (points.len() - 1) % 3 == 0 && points[0]
                == points[points.len() - 1],
        },
{
    assert(doc@.shapes[i].rings[j].defect(doc@.width, doc@.height) is None);
}

/// Contours as they were walked follow the grid, and none passes an edge of
/// the grid twice in the same direction.
pub proof fn law_contours_pass_once(raster: RasterBuffer, settings: Settings, doc: Document, i: int, j: int)
    requires
        traces(raster, settings, Ok(doc)),
        settings.mode == PathMode::Raw,
        0 <= i < doc@.shapes.len(),
        0 <= j < doc@.shapes[i].rings.len(),
    ensures
        doc@.shapes[i].rings[j] is Grid,
        follows_grid(doc@.shapes[i].rings[j]->Grid_0),
        passes_once(doc@.shapes[i].rings[j]->Grid_0),
{
    assert(doc@.shapes[i].walked());
    assert(doc@.shapes[i].rings[j].walked());
}

/// Among contours as they were walked, the first ring of a shape is an outer
/// boundary, every other ring is an outer boundary or a hole, and every point
/// of a hole lies inside or on the polygon of the outer boundary that the
/// hole belongs to, which is the last outer boundary before it.
pub proof fn law_holes_lie_within(raster: RasterBuffer, settings: Settings, doc: Document, i: int, j: int, p: int)
    requires
        traces(raster, settings, Ok(doc)),
        settings.mode == PathMode::Raw,
        0 <= i < doc@.shapes.len(),
        0 <= j < doc@.shapes[i].rings.len(),
        doc@.shapes[i].rings[j] is Grid,
        0 <= p < doc@.shapes[i].rings[j]->Grid_0.len(),
    ensures
        doc@.shapes[i].rings[0].is_outer(),
        doc@.shapes[i].rings[j].is_outer() || doc@.shapes[i].rings[j].is_hole(),
        doc@.shapes[i].rings[j].is_hole() ==> {
            let parent = parent_before(doc@.shapes[i].rings, j as nat);
            &&& 0 <= parent < j
            &&& doc@.shapes[i].rings[parent].is_outer()
            &&& corner_inside(doc@.shapes[i].rings[j]->Grid_0[p], doc@.shapes[i].rings[parent]->Grid_0)
        },
{
    let rings = doc@.shapes[i].rings;
    assert(doc@.shapes[i].nested());
    assert(ring_nested(rings, j));
    assert(ring_nested(rings, 0));
    if rings[j].is_hole() {
        lemma_parent_is_outer(rings, j as nat);
    }
}

/// Among contours as they were walked, in color as in two tones, no shape
/// covers fewer pixels than `filter_speckle`: filtering the document again
/// takes nothing away, and with a threshold of zero nothing is filtered.
pub proof fn law_no_speckle_is_left(raster: RasterBuffer, settings: Settings, doc: Document)
    requires
        traces(raster, settings, Ok(doc)),
        settings.mode == PathMode::Raw,
    ensures
        doc@.speckle_free(settings.filter_speckle as nat),
        without_speckles(doc@.shapes, settings.filter_speckle as nat) == doc@.shapes,
{
    lemma_filter_keeps_all(doc@.shapes, settings.filter_speckle as nat);
}

/// A document whose rings are walks has rings of grid corners only.
pub proof fn lemma_walked_is_grid(doc: DocumentView)
    requires
        doc.walked(),
    ensures
        kinds_fit(doc.shapes, PathMode::Raw),
{
    assert forall|i: int, j: int| 0 <= i < doc.shapes.len() && 0 <= j < doc.shapes[i].rings.len() implies (
    #[trigger] doc.shapes[i].rings[j]).fits(PathMode::Raw) by {
        assert(doc.shapes[i].walked());
        assert(doc.shapes[i].rings[j].walked());
    }
}

/// Two predictable conversions of one raster under the same settings give
/// the same result: the same document, ring for ring and point for point, or
/// the same failure. So do two conversions that are refused.
pub proof fn law_same_input_same_result(
    raster: RasterBuffer,
    settings: Settings,
    first: Result<Document, TraceError>,
    second: Result<Document, TraceError>,
)
    requires
        traces(raster, settings, first),
        traces(raster, settings, second),
        raster.spec_is_empty() || !raster.countable() || (settings.mode != PathMode::Raw && !raster.reducible())
            || predictable(raster.bytes(), raster.spec_width(), raster.spec_height(), settings),
    ensures
        outcome_view(first) == outcome_view(second),
{
}

/// Two conversions to curves of one raster under the same settings, on which
/// no random number is drawn, both give a document, and the two have the
/// same shapes with the same fills in the same order. Of the curves
/// themselves nothing is said: they are fitted with the arc cosine.
pub proof fn law_same_input_same_shapes(raster: RasterBuffer, settings: Settings, first: Document, second: Document)
    requires
        traces(raster, settings, Ok(first)),
        traces(raster, settings, Ok(second)),
        settings.mode != PathMode::Raw,
        key_found(raster.bytes(), raster.spec_width(), raster.spec_height(), settings),
    ensures
        fills_of(first@.shapes) == fills_of(second@.shapes),
        first@.shapes.len() == second@.shapes.len(),
{
    assert(fills_of(first@.shapes).len() == first@.shapes.len());
    assert(fills_of(second@.shapes).len() == second@.shapes.len());
}

} // verus!

//! The boundary to the `vtracer` crate, which segments the raster, follows
//! the boundaries and fits the curves. Nothing in this file is proved: each
//! item states what the crate's source shows.

use crate::config::ColorMode::{Binary, Color};
use crate::config::Hierarchy::{Cutout, Stacked};
use crate::config::PathMode::{Polygon, Raw, Spline};
use crate::config::{ColorMode, PathMode, Settings};
use crate::document::{fills_of, kinds_made, ring_views, CurvePoint, GridPoint, Rgb, Ring, ShapeView};
use crate::raster::{has_color, key_sought, PIXEL_LIMIT, SPAN_LIMIT};
use visioncortex::CompoundPathElement;
use visioncortex::CompoundPathElement::{PathF64, PathI32};
use visioncortex::PointF64;
use visioncortex::PathSimplifyMode;
use vstd::prelude::*;
use vtracer::{ColorImage, Config, Hierarchical, SvgFile};

verus! {

/// The traced file of `vtracer`, as it comes back from a conversion.
#[verifier::external_type_specification]
#[verifier::external_body]
pub struct ExSvgFile(vtracer::SvgFile);

/// The shapes that a traced file holds, in the order in which it paints them.
pub uninterp spec fn svg_shapes(svg: SvgFile) -> Seq<ShapeView>;

/// The shapes that `vtracer::convert` makes of a raster of RGBA bytes under
/// the given settings.
pub uninterp spec fn traced(pixels: Seq<u8>, width: nat, height: nat, settings: Settings) -> Seq<ShapeView>;

/// The transparent pixels of a raster that is keyed are painted in a key
/// color that the raster does not use. The tracer tries red, green, blue,
/// yellow, cyan and magenta in this order and, only where the raster uses
/// them all, colors drawn at random.
pub open spec fn key_color_free(pixels: Seq<u8>) -> bool {
    ||| !has_color(pixels, 255, 0, 0)
    ||| !has_color(pixels, 0, 255, 0)
    ||| !has_color(pixels, 0, 0, 255)
    ||| !has_color(pixels, 255, 255, 0)
    ||| !has_color(pixels, 0, 255, 255)
    ||| !has_color(pixels, 255, 0, 255)
}

/// The inputs on which a conversion draws no random number, and so cannot
/// fail for want of a key color: two tones are not keyed at all, a color
/// raster only if [`key_sought`] says so, and then a key is found without a
/// draw where one of the six colors is free.
pub open spec fn key_found(pixels: Seq<u8>, width: nat, height: nat, settings: Settings) -> bool {
    ||| settings.color_mode == ColorMode::Binary
    ||| !key_sought(pixels, width, height)
    ||| key_color_free(pixels)
}

/// Inputs on which the shapes are a function of the raster and the
/// settings: no random number is drawn, and no curve is fitted. Curves are
/// fitted with the arc cosine, whose last digit the platform decides.
pub open spec fn predictable(pixels: Seq<u8>, width: nat, height: nat, settings: Settings) -> bool {
    key_found(pixels, width, height, settings) && settings.mode != PathMode::Spline
}

/// The settings with contours as they were walked in place of the mode.
pub open spec fn as_walked(settings: Settings) -> Settings {
    Settings { mode: PathMode::Raw, ..settings }
}

/// Calls `vtracer::convert` on the raster and the settings, of which
/// `filter_speckle` is the side of the least square of pixels that is kept.
///
/// The call is kept to rasters and settings that the crate's source shows it
/// takes without a panic:
/// - the buffer holds four bytes for each pixel, and there is a pixel;
/// - there are no more pixels than `PIXEL_LIMIT`: the images whose regions
///   are numbered with sixteen bits are the raster in two tones and the
///   images of single regions, none larger than the raster, and at most
///   every other pixel of an image starts a region;
/// - so no boundary has as many as the million steps after which the
///   boundary follower gives up, since the grid has fewer edges;
/// - where polygons or curves are asked for, neither side is longer than
///   `SPAN_LIMIT`, whose square is the largest that thirty-two bits hold;
/// - the square of `filter_speckle` is a `usize`, and every other number is
///   in the range that `Settings::valid` gives.
///
/// The crate returns an error only where it finds no key color, and draws
/// random numbers only where it seeks a key and red, green, blue, yellow,
/// cyan and magenta all occur. It seeks one in color only, and only where
/// five rows hold as many transparent pixels as [`key_sought`] says: the
/// threshold is the product of twice the width and a fifth in single
/// precision, rounded down, which up to the pixel limit is the whole
/// quotient. On every other input it succeeds. Walking
/// boundaries and reducing them to polygons takes whole numbers, square
/// roots and the four operations only, so for these the contract names the
/// shapes that come back.
///
/// Whatever comes back, paths are walked or reduced to rings of grid
/// corners, and curves are added to a compound path only as a start point
/// and three points for each curve, of which there is at least one. The
/// regions and their fills are settled before any path is made, so where no
/// random number is drawn the fills are those of the contours as walked,
/// shape for shape.
#[verifier::external_body]
pub(crate) fn run_tracer(pixels: Vec<u8>, width: usize, height: usize, settings: &Settings) -> (r: Result<SvgFile, String>)
    requires
        settings.valid(),
        settings.filter_speckle * settings.filter_speckle <= usize::MAX,
        width > 0,
        height > 0,
        pixels.len() == 4 * width * height,
        width * height <= PIXEL_LIMIT,
        settings.mode != PathMode::Raw ==> width <= SPAN_LIMIT && height <= SPAN_LIMIT,
    ensures
        key_found(pixels@, width as nat, height as nat, *settings) ==> r is Ok,
        predictable(pixels@, width as nat, height as nat, *settings) ==> (r matches Ok(svg) ==> svg_shapes(svg) == traced(
            pixels@,
            width as nat,
            height as nat,
            *settings,
        )),
        r matches Ok(svg) ==> kinds_made(svg_shapes(svg), settings.mode),
        key_found(pixels@, width as nat, height as nat, *settings) ==> (r matches Ok(svg) ==> fills_of(svg_shapes(svg))
            == fills_of(traced(pixels@, width as nat, height as nat, as_walked(*settings)))),
{
    let config = Config {
        color_mode: match settings.color_mode { Color => vtracer::ColorMode::Color, Binary => vtracer::ColorMode::Binary },
        hierarchical: match settings.hierarchy { Stacked => Hierarchical::Stacked, Cutout => Hierarchical::Cutout },
        filter_speckle: settings.filter_speckle,
        color_precision: settings.color_precision,
        layer_difference: settings.layer_difference,
        mode: match settings.mode { Raw => PathSimplifyMode::None, Polygon => PathSimplifyMode::Polygon, Spline => PathSimplifyMode::Spline },
        corner_threshold: settings.corner_threshold,
        length_threshold: settings.length_threshold.into(),
        max_iterations: settings.max_iterations,
        splice_threshold: settings.splice_threshold,
        path_precision: Some(settings.path_precision),
    };
    vtracer::convert(ColorImage { pixels, width, height }, config)
}

/// The number of paths in the `paths` field of the traced file.
#[verifier::external_body]
pub(crate) fn shape_count(svg: &SvgFile) -> (n: usize)
    ensures
        n == svg_shapes(*svg).len(),
{
    svg.paths.len()
}

/// The fill of one path of the traced file: the red, green and blue
/// channels of its `color` field.
#[verifier::external_body]
pub(crate) fn fill_at(svg: &SvgFile, i: usize) -> (fill: Rgb)
    requires
        i < svg_shapes(*svg).len(),
    ensures
        fill == svg_shapes(*svg)[i as int].fill,
{
    let c = &svg.paths[i].color;
    Rgb { r: c.r, g: c.g, b: c.b }
}

/// Copies the compound path of one path of the traced file out as plain
/// values: each element in order, with its points in order, and every
/// binary64 coordinate by its bit pattern.
#[verifier::external_body]
pub(crate) fn rings_at(svg: &SvgFile, i: usize) -> (rings: Vec<Ring>)
    requires
        i < svg_shapes(*svg).len(),
    ensures
        ring_views(rings@) == svg_shapes(*svg)[i as int].rings,
{
    let bits = |t: &PointF64| CurvePoint { x: t.x.to_bits(), y: t.y.to_bits() };
    svg.paths[i].path.paths.iter().map(|e| match e {
        PathI32(q) => Ring::Grid(q.path.iter().map(|t| GridPoint { x: t.x, y: t.y }).collect()),
        PathF64(q) => Ring::Polyline(q.path.iter().map(bits).collect()),
        CompoundPathElement::Spline(q) => Ring::Spline(q.points.iter().map(bits).collect()),
    }).collect()
}

} // verus!

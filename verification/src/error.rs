//! What can go wrong in a conversion.

use vstd::prelude::*;
use vstd::string::*;

verus! {

/// The options of a trace configuration, in the order in which they are
/// examined: the four names first, then the numbers.
#[derive(Clone, Copy, Debug, PartialEq, Eq, Structural)]
pub enum ConfigField {
    Preset,
    ColorMode,
    Hierarchy,
    Mode,
    ColorPrecision,
    LayerDifference,
    CornerThreshold,
    MaxIterations,
    SpliceThreshold,
}

/// The stages of the pipeline that can fail once the configuration has been
/// accepted.
#[derive(Clone, Copy, Debug, PartialEq, Eq, Structural)]
pub enum Stage {
    Segmentation,
    ContourTracing,
    PathSimplification,
}

#[derive(Clone, Copy, Debug, PartialEq, Eq, Structural)]
pub enum TraceError {
    /// An option names an unknown value or lies outside its range.
    InvalidConfig(ConfigField),
    /// The raster has no pixels.
    EmptyInput,
    /// A stage broke one of its guarantees.
    TracingFailure(Stage),
}

impl ConfigField {
    /// The option's name as it is written in a configuration.
    pub open spec fn name_text(self) -> Seq<char> {
        match self {
            ConfigField::Preset => "preset"@,
            ConfigField::ColorMode => "color_mode"@,
            ConfigField::Hierarchy => "hierarchy"@,
            ConfigField::ColorPrecision => "color_precision"@,
            ConfigField::LayerDifference => "layer_difference"@,
            ConfigField::Mode => "mode"@,
            ConfigField::CornerThreshold => "corner_threshold"@,
            ConfigField::MaxIterations => "max_iterations"@,
            ConfigField::SpliceThreshold => "splice_threshold"@,
        }
    }

    pub fn name(self) -> (s: &'static str)
        ensures
            s@ == self.name_text(),
    {
        match self {
            ConfigField::Preset => "preset",
            ConfigField::ColorMode => "color_mode",
            ConfigField::Hierarchy => "hierarchy",
            ConfigField::ColorPrecision => "color_precision",
            ConfigField::LayerDifference => "layer_difference",
            ConfigField::Mode => "mode",
            ConfigField::CornerThreshold => "corner_threshold",
            ConfigField::MaxIterations => "max_iterations",
            ConfigField::SpliceThreshold => "splice_threshold",
        }
    }
}

impl Stage {
    pub open spec fn name_text(self) -> Seq<char> {
        match self {
            Stage::Segmentation => "segmentation"@,
            Stage::ContourTracing => "contour tracing"@,
            Stage::PathSimplification => "path simplification"@,
        }
    }

    pub fn name(self) -> (s: &'static str)
        ensures
            s@ == self.name_text(),
    {
        match self {
            Stage::Segmentation => "segmentation",
            Stage::ContourTracing => "contour tracing",
            Stage::PathSimplification => "path simplification",
        }
    }
}

impl TraceError {
    /// The text of the error: what kind it is, and which option or stage it
    /// came from.
    pub open spec fn message_text(self) -> Seq<char> {
        match self {
            TraceError::InvalidConfig(field) => "invalid configuration: unknown value or out of range: "@
                + field.name_text(),
            TraceError::EmptyInput => "empty input: the raster has no pixels"@,
            TraceError::TracingFailure(stage) => "tracing failure in stage: "@ + stage.name_text(),
        }
    }

    pub fn message(&self) -> (s: String)
        ensures
            s@ == self.message_text(),
    {
        match self {
            TraceError::InvalidConfig(field) => {
                let head = String::from_str("invalid configuration: unknown value or out of range: ");
                head.concat(field.name())
            },
            TraceError::EmptyInput => String::from_str("empty input: the raster has no pixels"),
            TraceError::TracingFailure(stage) => {
                let head = String::from_str("tracing failure in stage: ");
                head.concat(stage.name())
            },
        }
    }
}

} // verus!

//! The options of a conversion: names, presets, ranges, and how a
//! configuration that leaves options open becomes a full set of settings.

use crate::error::{ConfigField, TraceError};
use vstd::prelude::*;
use vstd::string::*;

verus! {

/// A named bundle of defaults.
#[derive(Clone, Copy, Debug, PartialEq, Eq, Structural)]
pub enum Preset {
    /// Black-and-white line art.
    Bw,
    /// Flat colors, as in posters and logos.
    Poster,
    /// Photographs.
    Photo,
}

#[derive(Clone, Copy, Debug, PartialEq, Eq, Structural)]
pub enum ColorMode {
    Color,
    Binary,
}

#[derive(Clone, Copy, Debug, PartialEq, Eq, Structural)]
pub enum Hierarchy {
    /// Layers lie on top of each other and may overlap.
    Stacked,
    /// Layers partition the canvas; a lower layer shows through a hole.
    Cutout,
}

#[derive(Clone, Copy, Debug, PartialEq, Eq, Structural)]
pub enum PathMode {
    /// The outline as it was walked; its name in a configuration is `none`.
    Raw,
    /// Straight segments, with staircases and near-collinear vertices removed.
    Polygon,
    /// Cubic curves fitted between corners.
    Spline,
}

/// A configuration as a caller writes it. Every option may be left open; the
/// four names are kept as text until [`resolve`] has checked them.
#[derive(Clone, Debug, PartialEq, Eq)]
pub struct TraceConfig {
    pub preset: Option<String>,
    pub color_mode: Option<String>,
    pub hierarchy: Option<String>,
    pub filter_speckle: Option<usize>,
    pub color_precision: Option<i32>,
    pub layer_difference: Option<i32>,
    pub mode: Option<String>,
    pub corner_threshold: Option<i32>,
    pub length_threshold: Option<u32>,
    pub max_iterations: Option<usize>,
    pub splice_threshold: Option<i32>,
    pub path_precision: Option<u32>,
}

/// A configuration with nothing left open. Angles are in degrees, lengths in
/// pixels, and `filter_speckle` is the least number of pixels of a region
/// that is kept.
#[derive(Clone, Copy, Debug, PartialEq, Eq, Structural)]
pub struct Settings {
    pub color_mode: ColorMode,
    pub hierarchy: Hierarchy,
    pub filter_speckle: usize,
    pub color_precision: i32,
    pub layer_difference: i32,
    pub mode: PathMode,
    pub corner_threshold: i32,
    pub length_threshold: u32,
    pub max_iterations: usize,
    pub splice_threshold: i32,
    pub path_precision: u32,
}

pub open spec fn preset_named(name: Seq<char>) -> Option<Preset> {
    if name == "bw"@ {
        Some(Preset::Bw)
    } else if name == "poster"@ {
        Some(Preset::Poster)
    } else if name == "photo"@ {
        Some(Preset::Photo)
    } else {
        None
    }
}

pub open spec fn color_mode_named(name: Seq<char>) -> Option<ColorMode> {
    if name == "color"@ {
        Some(ColorMode::Color)
    } else if name == "binary"@ {
        Some(ColorMode::Binary)
    } else {
        None
    }
}

pub open spec fn hierarchy_named(name: Seq<char>) -> Option<Hierarchy> {
    if name == "stacked"@ {
        Some(Hierarchy::Stacked)
    } else if name == "cutout"@ {
        Some(Hierarchy::Cutout)
    } else {
        None
    }
}

pub open spec fn path_mode_named(name: Seq<char>) -> Option<PathMode> {
    if name == "polygon"@ {
        Some(PathMode::Polygon)
    } else if name == "spline"@ {
        Some(PathMode::Spline)
    } else if name == "none"@ {
        Some(PathMode::Raw)
    } else {
        None
    }
}

fn text_is(text: &String, word: &str) -> (same: bool)
    ensures
        same == (text@ == word@),
{
    let other = String::from_str(word);
    *text == other
}

impl Preset {
    pub fn parse(name: &String) -> (r: Option<Preset>)
        ensures
            r == preset_named(name@),
    {
        if text_is(name, "bw") {
            Some(Preset::Bw)
        } else if text_is(name, "poster") {
            Some(Preset::Poster)
        } else if text_is(name, "photo") {
            Some(Preset::Photo)
        } else {
            None
        }
    }
}

impl ColorMode {
    pub fn parse(name: &String) -> (r: Option<ColorMode>)
        ensures
            r == color_mode_named(name@),
    {
        if text_is(name, "color") {
            Some(ColorMode::Color)
        } else if text_is(name, "binary") {
            Some(ColorMode::Binary)
        } else {
            None
        }
    }
}

impl Hierarchy {
    pub fn parse(name: &String) -> (r: Option<Hierarchy>)
        ensures
            r == hierarchy_named(name@),
    {
        if text_is(name, "stacked") {
            Some(Hierarchy::Stacked)
        } else if text_is(name, "cutout") {
            Some(Hierarchy::Cutout)
        } else {
            None
        }
    }
}

impl PathMode {
    pub fn parse(name: &String) -> (r: Option<PathMode>)
        ensures
            r == path_mode_named(name@),
    {
        if text_is(name, "polygon") {
            Some(PathMode::Polygon)
        } else if text_is(name, "spline") {
            Some(PathMode::Spline)
        } else if text_is(name, "none") {
            Some(PathMode::Raw)
        } else {
            None
        }
    }
}

/// The settings that hold where no preset is named.
pub open spec fn default_settings() -> Settings {
    Settings {
        color_mode: ColorMode::Color,
        hierarchy: Hierarchy::Stacked,
        filter_speckle: 16,
        color_precision: 6,
        layer_difference: 16,
        mode: PathMode::Spline,
        corner_threshold: 60,
        length_threshold: 4,
        max_iterations: 10,
        splice_threshold: 45,
        path_precision: 2,
    }
}

/// What each preset changes in the default settings.
pub open spec fn preset_settings(preset: Preset) -> Settings {
    match preset {
        Preset::Bw => Settings { color_mode: ColorMode::Binary, ..default_settings() },
        Preset::Poster => Settings { color_precision: 8, ..default_settings() },
        Preset::Photo => Settings {
            filter_speckle: 100,
            color_precision: 8,
            layer_difference: 48,
            corner_threshold: 180,
            ..default_settings()
        },
    }
}

/// The number of significant bits of a color channel.
pub open spec fn color_precision_ok(v: i32) -> bool {
    1 <= v <= 8
}

pub open spec fn layer_difference_ok(v: i32) -> bool {
    0 <= v
}

/// An angle in degrees, between none and a half turn.
pub open spec fn angle_ok(v: i32) -> bool {
    0 <= v <= 180
}

/// The passes of subdivision before curves are fitted, of which there is at
/// least one. A pass subdivides every segment that is longer than the
/// segment length, so with a length of zero each pass may double the points
/// of an outline; the last pass ends it.
pub open spec fn max_iterations_ok(v: usize) -> bool {
    1 <= v
}

impl Settings {
    /// Every number lies in its range.
    pub open spec fn valid(self) -> bool {
        &&& color_precision_ok(self.color_precision)
        &&& layer_difference_ok(self.layer_difference)
        &&& angle_ok(self.corner_threshold)
        &&& max_iterations_ok(self.max_iterations)
        &&& angle_ok(self.splice_threshold)
    }

    /// The first number that lies outside its range, in the order of the
    /// fields.
    pub open spec fn first_out_of_range(self) -> Option<ConfigField> {
        if !color_precision_ok(self.color_precision) {
            Some(ConfigField::ColorPrecision)
        } else if !layer_difference_ok(self.layer_difference) {
            Some(ConfigField::LayerDifference)
        } else if !angle_ok(self.corner_threshold) {
            Some(ConfigField::CornerThreshold)
        } else if !max_iterations_ok(self.max_iterations) {
            Some(ConfigField::MaxIterations)
        } else if !angle_ok(self.splice_threshold) {
            Some(ConfigField::SpliceThreshold)
        } else {
            None
        }
    }

    pub fn defaults() -> (s: Settings)
        ensures
            s == default_settings(),
    {
        Settings {
            color_mode: ColorMode::Color,
            hierarchy: Hierarchy::Stacked,
            filter_speckle: 16,
            color_precision: 6,
            layer_difference: 16,
            mode: PathMode::Spline,
            corner_threshold: 60,
            length_threshold: 4,
            max_iterations: 10,
            splice_threshold: 45,
            path_precision: 2,
        }
    }

    pub fn from_preset(preset: Preset) -> (s: Settings)
        ensures
            s == preset_settings(preset),
    {
        let mut s = Settings::defaults();
        match preset {
            Preset::Bw => {
                s.color_mode = ColorMode::Binary;
            },
            Preset::Poster => {
                s.color_precision = 8;
            },
            Preset::Photo => {
                s.filter_speckle = 100;
                s.color_precision = 8;
                s.layer_difference = 48;
                s.corner_threshold = 180;
            },
        }
        s
    }

    /// Checks every number against its range and reports the first that
    /// fails.
    pub fn validate(&self) -> (r: Result<(), ConfigField>)
        ensures
            r is Ok <==> self.valid(),
            r matches Err(field) ==> self.first_out_of_range() == Some(field),
    {
        if self.color_precision < 1 || self.color_precision > 8 {
            Err(ConfigField::ColorPrecision)
        } else if self.layer_difference < 0 {
            Err(ConfigField::LayerDifference)
        } else if self.corner_threshold < 0 || self.corner_threshold > 180 {
            Err(ConfigField::CornerThreshold)
        } else if self.max_iterations < 1 {
            Err(ConfigField::MaxIterations)
        } else if self.splice_threshold < 0 || self.splice_threshold > 180 {
            Err(ConfigField::SpliceThreshold)
        } else {
            Ok(())
        }
    }
}

impl TraceConfig {
    /// The configuration that leaves every option open.
    pub fn new() -> (c: TraceConfig)
        ensures
            c.preset is None,
            c.color_mode is None,
            c.hierarchy is None,
            c.filter_speckle is None,
            c.color_precision is None,
            c.layer_difference is None,
            c.mode is None,
            c.corner_threshold is None,
            c.length_threshold is None,
            c.max_iterations is None,
            c.splice_threshold is None,
            c.path_precision is None,
    {
        TraceConfig {
            preset: None,
            color_mode: None,
            hierarchy: None,
            filter_speckle: None,
            color_precision: None,
            layer_difference: None,
            mode: None,
            corner_threshold: None,
            length_threshold: None,
            max_iterations: None,
            splice_threshold: None,
            path_precision: None,
        }
    }

    /// The settings that the preset gives, or the defaults where none is
    /// named.
    pub open spec fn base(self) -> Settings {
        match self.preset {
            Some(name) => match preset_named(name@) {
                Some(preset) => preset_settings(preset),
                None => default_settings(),
            },
            None => default_settings(),
        }
    }

    /// The base settings with the three names that say how to trace written
    /// over them, where they are given and known.
    pub open spec fn named(self) -> Settings {
        let base = self.base();
        Settings {
            color_mode: match self.color_mode {
                Some(name) => match color_mode_named(name@) {
                    Some(mode) => mode,
                    None => base.color_mode,
                },
                None => base.color_mode,
            },
            hierarchy: match self.hierarchy {
                Some(name) => match hierarchy_named(name@) {
                    Some(hierarchy) => hierarchy,
                    None => base.hierarchy,
                },
                None => base.hierarchy,
            },
            mode: match self.mode {
                Some(name) => match path_mode_named(name@) {
                    Some(mode) => mode,
                    None => base.mode,
                },
                None => base.mode,
            },
            ..base
        }
    }

    /// The settings `s` with every number that is not left open written over
    /// them.
    pub open spec fn numbers_over(self, s: Settings) -> Settings {
        Settings {
            filter_speckle: self.filter_speckle.unwrap_or(s.filter_speckle),
            color_precision: self.color_precision.unwrap_or(s.color_precision),
            layer_difference: self.layer_difference.unwrap_or(s.layer_difference),
            corner_threshold: self.corner_threshold.unwrap_or(s.corner_threshold),
            length_threshold: self.length_threshold.unwrap_or(s.length_threshold),
            max_iterations: self.max_iterations.unwrap_or(s.max_iterations),
            splice_threshold: self.splice_threshold.unwrap_or(s.splice_threshold),
            path_precision: self.path_precision.unwrap_or(s.path_precision),
            ..s
        }
    }

    /// The base settings with every option that is not left open written
    /// over them.
    pub open spec fn overlaid(self) -> Settings {
        self.numbers_over(self.named())
    }

    /// The first of the four names that is given and not known.
    pub open spec fn first_unknown_name(self) -> Option<ConfigField> {
        if self.preset matches Some(name) && preset_named(name@) is None {
            Some(ConfigField::Preset)
        } else if self.color_mode matches Some(name) && color_mode_named(name@) is None {
            Some(ConfigField::ColorMode)
        } else if self.hierarchy matches Some(name) && hierarchy_named(name@) is None {
            Some(ConfigField::Hierarchy)
        } else if self.mode matches Some(name) && path_mode_named(name@) is None {
            Some(ConfigField::Mode)
        } else {
            None
        }
    }

    /// The first option that makes the configuration invalid: an unknown
    /// name, or else a number outside its range.
    pub open spec fn first_invalid(self) -> Option<ConfigField> {
        match self.first_unknown_name() {
            Some(field) => Some(field),
            None => self.overlaid().first_out_of_range(),
        }
    }

    /// What resolving the configuration gives.
    pub open spec fn resolution(self) -> Result<Settings, TraceError> {
        match self.first_invalid() {
            Some(field) => Err(TraceError::InvalidConfig(field)),
            None => Ok(self.overlaid()),
        }
    }
}

impl Default for TraceConfig {
    fn default() -> (c: TraceConfig)
        ensures
            c.first_invalid() is None,
            c.overlaid() == default_settings(),
    {
        TraceConfig::new()
    }
}

fn resolve_names(config: &TraceConfig) -> (r: Result<Settings, ConfigField>)
    ensures
        match config.first_unknown_name() {
            Some(field) => r == Err::<Settings, ConfigField>(field),
            None => r == Ok::<Settings, ConfigField>(config.named()),
        },
{
    let mut s = Settings::defaults();
    if let Some(name) = &config.preset {
        match Preset::parse(name) {
            Some(preset) => {
                s = Settings::from_preset(preset);
            },
            None => {
                return Err(ConfigField::Preset);
            },
        }
    }
    assert(s == config.base());
    if let Some(name) = &config.color_mode {
        match ColorMode::parse(name) {
            Some(mode) => {
                s.color_mode = mode;
            },
            None => {
                return Err(ConfigField::ColorMode);
            },
        }
    }
    if let Some(name) = &config.hierarchy {
        match Hierarchy::parse(name) {
            Some(hierarchy) => {
                s.hierarchy = hierarchy;
            },
            None => {
                return Err(ConfigField::Hierarchy);
            },
        }
    }
    if let Some(name) = &config.mode {
        match PathMode::parse(name) {
            Some(mode) => {
                s.mode = mode;
            },
            None => {
                return Err(ConfigField::Mode);
            },
        }
    }
    Ok(s)
}

fn resolve_numbers(config: &TraceConfig, named: Settings) -> (s: Settings)
    ensures
        s == config.numbers_over(named),
{
    let mut s = named;
    if let Some(v) = config.filter_speckle {
        s.filter_speckle = v;
    }
    if let Some(v) = config.color_precision {
        s.color_precision = v;
    }
    if let Some(v) = config.layer_difference {
        s.layer_difference = v;
    }
    if let Some(v) = config.corner_threshold {
        s.corner_threshold = v;
    }
    if let Some(v) = config.length_threshold {
        s.length_threshold = v;
    }
    if let Some(v) = config.max_iterations {
        s.max_iterations = v;
    }
    if let Some(v) = config.splice_threshold {
        s.splice_threshold = v;
    }
    if let Some(v) = config.path_precision {
        s.path_precision = v;
    }
    s
}

/// Resolves a configuration: takes the preset's settings or the defaults,
/// writes the given options over them, and checks the result. Fails with the
/// first option that is invalid, before anything else is done.
pub fn resolve(config: &TraceConfig) -> (r: Result<Settings, TraceError>)
    ensures
        r == config.resolution(),
        r matches Ok(settings) ==> settings.valid(),
{
    match resolve_names(config) {
        Err(field) => Err(TraceError::InvalidConfig(field)),
        Ok(named) => {
            let s = resolve_numbers(config, named);
            match s.validate() {
                Ok(()) => Ok(s),
                Err(field) => Err(TraceError::InvalidConfig(field)),
            }
        },
    }
}

} // verus!

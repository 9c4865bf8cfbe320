//! Raster-to-vector tracing: a bitmap goes in, a document of filled shapes
//! bounded by closed rings comes out.
//!
//! The configuration rules, the raster and document models and the checks on
//! every traced ring are verified: that every ring ends where it starts and
//! is of the kind that the mode makes, that contours follow the grid and
//! overlap themselves nowhere, that holes lie inside their boundaries, and
//! that no speckle is left among contours. Segmentation, boundary following
//! and curve fitting are done by the `vtracer` crate, behind the trusted
//! items of [`engine`].

pub mod config;
pub mod curves;
pub mod document;
pub mod engine;
pub mod error;
pub mod nesting;
pub mod pipeline;
pub mod raster;
pub mod speckle;
pub mod walk;

pub use config::{resolve, ColorMode, Hierarchy, PathMode, Preset, Settings, TraceConfig};
pub use document::{CurvePoint, Document, GridPoint, Rgb, Ring, Shape};
pub use error::{ConfigField, Stage, TraceError};
pub use pipeline::{assemble, finds_key, is_predictable, trace, trace_with};
pub use raster::{RasterBuffer, Rgba};

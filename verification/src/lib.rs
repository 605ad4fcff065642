//! Detection and classification of the symbols of a hand-drawn "magic
//! circle" diagram.
//!
//! The pipeline turns a grayscale raster into an ordered list of typed,
//! positioned, scored shape records: the image is binarized, boundary
//! polygons of the foreground regions are extracted, the mandatory outer
//! circle is located, and the remaining contours are classified, filtered
//! for containment and annotated with an interior fill pattern.
//!
//! All geometry is exact integer arithmetic: positions and sizes are
//! fixed-point values in thousandths of a pixel ("milli-pixels"), and
//! scores such as circularity are fixed-point per-mille values in `[0,
//! 1000]`.

pub mod classify;
pub mod detect;
pub mod geometry;
pub mod raster;
pub mod simplify;

pub use classify::{Pattern, Symbol, SymbolType};
pub use detect::{DetectError, MagicCircleDetector};
pub use raster::Raster;

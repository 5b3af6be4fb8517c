//! Renders raster sprites as terminal-printable colored text and composes
//! several renderings side by side into one aligned multi-column display.
//!
//! The pipeline runs from a decoded pixel bitmap through bounding-box
//! cropping (`bitmap`), pixel-to-glyph color rendering in two density modes
//! (`rasterize`), and escape-sequence-aware width measurement and column
//! layout (`compose`). The selection resolver (`select`, `catalog`) turns
//! user-level criteria into an ordered list of render requests. All input
//! and output stays with the caller: these functions map plain values to
//! plain values.

pub mod ansi;
pub mod bitmap;
pub mod catalog;
pub mod compose;
pub mod error;
pub mod rasterize;
pub mod say;
pub mod select;
pub mod text;

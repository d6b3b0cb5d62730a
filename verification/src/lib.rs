//! Renders frames of video as lines of glyphs and paces their emission.
//!
//! A frame is cut into cells of eight by eight pixels. Each cell is reduced
//! to a point in a feature space of four dimensions, and the point to the
//! glyph of the nearest entry of a palette. A scheduler keeps the emission of
//! the rendered frames on a fixed cadence.

pub mod error;
pub mod feature;
pub mod frame;
pub mod pacing;
pub mod palette;
pub mod render;

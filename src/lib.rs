//! Plots labelled points onto a character grid: each point is carried from a
//! source coordinate space into the grid's cell space by a per-axis linear
//! map, then stamped onto the grid as a marker glyph and an optional label.
pub use colored::Color;

pub mod geometry;
pub mod text;
pub mod render;

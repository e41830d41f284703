//! Rendering of finished patterns: plain text, and the figures of the
//! stitch diagram.

pub mod diagram;
pub mod formatter;
pub mod generator;

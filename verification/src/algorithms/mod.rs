//! Entry points of the numeric surface analyses.

pub mod curvature;
pub mod geodesic;

//! Seam placement and cutting ahead of surface parameterization.

pub mod abf;
pub mod boundary;
pub mod cut;
pub mod distortion;
pub mod lscm;
pub mod seam_placement;

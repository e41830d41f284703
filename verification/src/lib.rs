//! Crochet pattern synthesis: the combinatorial back end that turns per-row
//! stitch targets into physically realizable rows of stitch instructions,
//! together with the mesh-topology and instruction-text helpers that the
//! numeric front ends build on.

pub mod algorithms;
pub mod generator;
pub mod instruction;
pub mod loader;
pub mod mesh;
pub mod optimization;
pub mod parameterization;
pub mod pattern;
pub mod radius;
pub mod runs;
pub mod stitch;
pub mod stitch_count;
pub mod text;
pub mod types;

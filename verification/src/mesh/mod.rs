//! Mesh topology: indexed triangles and their half-edge adjacency.

pub mod analysis;
pub mod processing;
pub mod simplification;
pub mod types;

//! Patterns of the mesh pipeline: row instructions built from the stitch
//! grid, and their simplification.

pub mod amigurumi;
pub mod optimizer;
pub mod row_grouping;
pub mod types;

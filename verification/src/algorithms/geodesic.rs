//! Geodesic distances over the mesh graph.

use vstd::prelude::*;

verus! {

pub struct GeodesicSolver {
    _private: (),
}

impl GeodesicSolver {
    pub fn new() -> Self {
        Self { _private: () }
    }
}

} // verus!

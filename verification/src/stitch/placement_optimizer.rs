//! Smoothing of stitch positions on the surface.

use vstd::prelude::*;

verus! {

pub struct PlacementOptimizer {
    _private: (),
}

impl PlacementOptimizer {
    pub fn new() -> Self {
        Self { _private: () }
    }
}

} // verus!

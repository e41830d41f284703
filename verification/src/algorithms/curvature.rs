//! Discrete mean curvature.

use vstd::prelude::*;

verus! {

pub struct CurvatureComputer {
    _private: (),
}

impl CurvatureComputer {
    pub fn new() -> Self {
        Self { _private: () }
    }
}

} // verus!

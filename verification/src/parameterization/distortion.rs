//! Distortion of a parameterization.

use vstd::prelude::*;

verus! {

pub struct DistortionAnalyzer {
    _private: (),
}

impl DistortionAnalyzer {
    pub fn new() -> Self {
        Self { _private: () }
    }
}

} // verus!

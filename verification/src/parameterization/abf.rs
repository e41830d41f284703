//! Angle-based flattening.

use vstd::prelude::*;

verus! {

pub struct ABFParameterizer {
    _private: (),
}

impl ABFParameterizer {
    pub fn new() -> Self {
        Self { _private: () }
    }
}

} // verus!

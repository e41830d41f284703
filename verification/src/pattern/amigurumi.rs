//! Conversion of flat patterns to in-the-round construction.

use vstd::prelude::*;
use vstd::string::*;
use crate::pattern::types::CrochetPattern;
use crate::types::PatternError;

verus! {

pub struct AmigurumiGenerator {
    _private: (),
}

impl AmigurumiGenerator {
    pub fn new() -> Self {
        Self { _private: () }
    }

    /// Conversion to in-the-round construction is not available: every
    /// pattern is refused.
    pub fn convert_to_amigurumi(&self, _pattern: &CrochetPattern) -> (r: Result<
        CrochetPattern,
        PatternError,
    >)
        ensures
            r matches Err(e) && e is InternalError && e.detail()
                == "Amigurumi conversion is not available"@,
    {
        Err(PatternError::InternalError(String::from_str("Amigurumi conversion is not available")))
    }
}

} // verus!

//! Final step of the mesh pipeline: the pattern with its diagram attached.

use vstd::prelude::*;
use crate::pattern::types::CrochetPattern;

verus! {

pub struct InstructionGenerator {
    _private: (),
}

impl InstructionGenerator {
    pub fn new() -> Self {
        Self { _private: () }
    }

    /// Attaches the rendered diagram to the pattern; nothing else changes.
    pub fn attach_diagram(&self, pattern: CrochetPattern, diagram: String) -> (r: CrochetPattern)
        ensures
            r.diagram == Some(diagram),
            r.metadata == pattern.metadata,
            r.stitches == pattern.stitches,
            r.instructions == pattern.instructions,
    {
        CrochetPattern {
            metadata: pattern.metadata,
            stitches: pattern.stitches,
            instructions: pattern.instructions,
            diagram: Some(diagram),
        }
    }
}

} // verus!

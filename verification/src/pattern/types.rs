//! Pattern record of the mesh pipeline.

use vstd::prelude::*;
use crate::stitch::Stitch;
use crate::stitch::StitchType;

verus! {

/// A run of equal stitches within a row, with its instruction fragment of
/// the form "N abbr".
#[derive(Debug, Clone)]
pub struct StitchGroup {
    pub count: usize,
    pub stitch_type: StitchType,
    pub instruction: String,
}

/// What a stitch group says, with its text as a sequence of characters.
pub struct StitchGroupView {
    pub count: usize,
    pub stitch_type: StitchType,
    pub instruction: Seq<char>,
}

impl View for StitchGroup {
    type V = StitchGroupView;

    open spec fn view(&self) -> StitchGroupView {
        StitchGroupView {
            count: self.count,
            stitch_type: self.stitch_type,
            instruction: self.instruction@,
        }
    }
}

/// One row of instructions: its 1-based number, its stitch groups in working
/// order and the number of stitches it holds.
#[derive(Debug, Clone)]
pub struct RowInstruction {
    pub number: u32,
    pub stitches: Vec<StitchGroup>,
    pub total_stitches: usize,
}

/// What a row instruction says.
pub struct RowInstructionView {
    pub number: u32,
    pub stitches: Seq<StitchGroupView>,
    pub total_stitches: usize,
}

impl View for RowInstruction {
    type V = RowInstructionView;

    open spec fn view(&self) -> RowInstructionView {
        RowInstructionView {
            number: self.number,
            stitches: self.stitches@.map_values(|g: StitchGroup| g@),
            total_stitches: self.total_stitches,
        }
    }
}

#[derive(Debug, Clone)]
pub struct PatternInstructions {
    pub rows: Vec<RowInstruction>,
}

impl PatternInstructions {
    /// The rows as what they say.
    pub open spec fn row_views(&self) -> Seq<RowInstructionView> {
        self.rows@.map_values(|r: RowInstruction| r@)
    }
}

/// Summary of a pattern. The physical dimensions of the piece are measured
/// by the caller from the stitch positions.
#[derive(Debug, Clone)]
pub struct PatternMetadata {
    pub stitch_count: usize,
    pub row_count: usize,
    pub estimated_time: String,
    pub yarn_estimate: String,
}

/// A complete pattern of the mesh pipeline.
#[derive(Debug, Clone)]
pub struct CrochetPattern {
    pub metadata: PatternMetadata,
    pub stitches: Vec<Stitch>,
    pub instructions: PatternInstructions,
    pub diagram: Option<String>,
}

} // verus!

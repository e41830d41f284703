//! Stitch diagram: canvas figures and the colour of each stitch kind.

use vstd::prelude::*;
use crate::stitch::StitchType;

verus! {

/// Width of the diagram canvas.
pub const CANVAS_WIDTH: u32 = 800;

/// Height of the diagram canvas.
pub const CANVAS_HEIGHT: u32 = 600;

/// Radius of the circle drawn for each stitch.
pub const STITCH_RADIUS: u32 = 3;

pub struct DiagramGenerator {
    _private: (),
}

/// The fill colour of each stitch kind as a sequence of characters.
pub open spec fn color_text(kind: StitchType) -> Seq<char> {
    match kind {
        StitchType::SingleCrochet => "#4A90E2"@,
        StitchType::HalfDoubleCrochet => "#7ED321"@,
        StitchType::DoubleCrochet => "#F5A623"@,
        StitchType::Increase => "#E94B3C"@,
        StitchType::Decrease => "#9013FE"@,
        StitchType::ChainStitch => "#8B572A"@,
    }
}

impl DiagramGenerator {
    pub fn new() -> Self {
        Self { _private: () }
    }

    /// The fill colour of the circle drawn for a stitch of kind `kind`.
    pub fn stitch_color(&self, kind: StitchType) -> (r: &'static str)
        ensures
            r@ == color_text(kind),
    {
        match kind {
            StitchType::SingleCrochet => "#4A90E2",
            StitchType::HalfDoubleCrochet => "#7ED321",
            StitchType::DoubleCrochet => "#F5A623",
            StitchType::Increase => "#E94B3C",
            StitchType::Decrease => "#9013FE",
            StitchType::ChainStitch => "#8B572A",
        }
    }
}

} // verus!

//! Assignment of stitch kinds from surface curvature.

use vstd::prelude::*;
use crate::stitch::StitchType;

verus! {

pub struct StitchTypeClassifier {
    _private: (),
}

/// Where a curvature value lies relative to the classification thresholds
/// (0.1 for flat, 0.3 for strong curvature).
#[derive(Debug, Clone, Copy, PartialEq, Eq, Structural)]
pub enum CurvatureBand {
    /// Above the upper threshold.
    StronglyPositive,
    /// Below the negated upper threshold.
    StronglyNegative,
    /// Within the flat threshold of zero.
    Flat,
    /// Everything else.
    Mild,
}

impl StitchTypeClassifier {
    pub fn new() -> Self {
        Self { _private: () }
    }

    /// The stitch kind for a curvature band: increases on strongly positive
    /// curvature, decreases on strongly negative, single crochets on flat
    /// ground and half doubles in between.
    pub fn kind_for(&self, band: CurvatureBand) -> (kind: StitchType)
        ensures
            kind == match band {
                CurvatureBand::StronglyPositive => StitchType::Increase,
                CurvatureBand::StronglyNegative => StitchType::Decrease,
                CurvatureBand::Flat => StitchType::SingleCrochet,
                CurvatureBand::Mild => StitchType::HalfDoubleCrochet,
            },
    {
        match band {
            CurvatureBand::StronglyPositive => StitchType::Increase,
            CurvatureBand::StronglyNegative => StitchType::Decrease,
            CurvatureBand::Flat => StitchType::SingleCrochet,
            CurvatureBand::Mild => StitchType::HalfDoubleCrochet,
        }
    }
}

} // verus!

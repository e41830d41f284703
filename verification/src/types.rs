//! Core data model of the profile pipeline: stitch kinds, instructions, rows
//! and the error taxonomy.

use vstd::prelude::*;
use vstd::string::*;
use crate::runs::run_lengths;
use crate::runs::lemma_run_lengths_step;
use crate::text::decimal_text;
use crate::text::push_decimal;

verus! {

/// Number of stitches in the starting magic ring.
pub const MAGIC_RING_STITCHES: usize = 6;

/// Smallest stitch count a row may have.
pub const MIN_ROW_STITCHES: usize = 6;

/// Stitch kinds of the profile pipeline.
#[derive(Debug, Clone, Copy, PartialEq, Eq, Structural)]
pub enum StitchType {
    /// Single crochet: one stitch in, one stitch out.
    SC,
    /// Increase: two stitches worked into one.
    INC,
    /// Decrease: one stitch worked across two.
    DEC,
    /// Invisible decrease: one stitch worked across two front loops.
    INVDEC,
}

impl StitchType {
    /// Stitches of the previous row that one instruction of this kind uses up.
    pub open spec fn consumes(self) -> nat {
        match self {
            StitchType::SC => 1,
            StitchType::INC => 1,
            StitchType::DEC => 2,
            StitchType::INVDEC => 2,
        }
    }

    /// Stitches of the current row that one instruction of this kind creates.
    pub open spec fn produces(self) -> nat {
        match self {
            StitchType::SC => 1,
            StitchType::INC => 2,
            StitchType::DEC => 1,
            StitchType::INVDEC => 1,
        }
    }

    /// True for every kind but the single crochet.
    pub open spec fn is_special(self) -> bool {
        self != StitchType::SC
    }

    /// The standard lower-case abbreviation of the kind as a sequence of
    /// characters.
    pub open spec fn abbreviation_text(self) -> Seq<char> {
        match self {
            StitchType::SC => "sc"@,
            StitchType::INC => "inc"@,
            StitchType::DEC => "dec"@,
            StitchType::INVDEC => "invdec"@,
        }
    }

    /// The standard lower-case abbreviation of the kind.
    pub fn abbreviation(&self) -> (r: &'static str)
        ensures
            r@ == self.abbreviation_text(),
    {
        match self {
            StitchType::SC => "sc",
            StitchType::INC => "inc",
            StitchType::DEC => "dec",
            StitchType::INVDEC => "invdec",
        }
    }

    /// The text of the kind in row summaries: its standard abbreviation.
    pub fn to_string(&self) -> (r: &'static str)
        ensures
            r@ == self.abbreviation_text(),
    {
        self.abbreviation()
    }

    /// Executable form of [`StitchType::consumes`].
    pub fn consumed_stitches(&self) -> (r: usize)
        ensures
            r == self.consumes(),
    {
        match self {
            StitchType::SC => 1,
            StitchType::INC => 1,
            StitchType::DEC => 2,
            StitchType::INVDEC => 2,
        }
    }

    /// Executable form of [`StitchType::produces`].
    pub fn produced_stitches(&self) -> (r: usize)
        ensures
            r == self.produces(),
    {
        match self {
            StitchType::SC => 1,
            StitchType::INC => 2,
            StitchType::DEC => 1,
            StitchType::INVDEC => 1,
        }
    }
}

/// No two stitch kinds share an abbreviation.
pub proof fn abbreviations_are_distinct(a: StitchType, b: StitchType)
    requires
        a != b,
    ensures
        a.abbreviation_text() != b.abbreviation_text(),
{
    reveal_strlit("sc");
    reveal_strlit("inc");
    reveal_strlit("dec");
    reveal_strlit("invdec");
    assert("sc"@.len() == 2);
    assert("inc"@.len() == 3);
    assert("dec"@.len() == 3);
    assert("invdec"@.len() == 6);
    assert("inc"@[0] == 'i');
    assert("dec"@[0] == 'd');
}

/// One instruction of a row: a stitch kind and the index of the previous-row
/// stitch it is worked into. The angular position of an instruction in a row
/// worked over `n` stitches is `2 * pi * stitch_index / n`.
#[derive(Debug, Clone, Copy, PartialEq, Eq, Structural)]
pub struct StitchInstruction {
    pub stitch_type: StitchType,
    pub stitch_index: usize,
}

/// Total number of previous-row stitches that a sequence of instructions uses.
pub open spec fn consumed(s: Seq<StitchInstruction>) -> nat
    decreases s.len(),
{
    if s.len() == 0 {
        0
    } else {
        consumed(s.drop_last()) + s.last().stitch_type.consumes()
    }
}

/// Total number of current-row stitches that a sequence of instructions makes.
pub open spec fn produced(s: Seq<StitchInstruction>) -> nat
    decreases s.len(),
{
    if s.len() == 0 {
        0
    } else {
        produced(s.drop_last()) + s.last().stitch_type.produces()
    }
}

/// Number of instructions in `s` that are of kind `kind`.
pub open spec fn count_kind(s: Seq<StitchInstruction>, kind: StitchType) -> nat
    decreases s.len(),
{
    if s.len() == 0 {
        0
    } else {
        count_kind(s.drop_last(), kind) + if s.last().stitch_type == kind {
            1nat
        } else {
            0nat
        }
    }
}

/// One row of the pattern. `pattern` is worked into the stitches of the
/// previous row and leaves `total_stitches` stitches behind.
#[derive(Debug, Clone)]
pub struct Row {
    pub row_number: usize,
    pub total_stitches: usize,
    pub pattern: Vec<StitchInstruction>,
}

/// The kinds of a sequence of instructions.
pub open spec fn kinds_of(s: Seq<StitchInstruction>) -> Seq<StitchType> {
    s.map_values(|i: StitchInstruction| i.stitch_type)
}

/// Text of one run of equal stitches: the kind alone for a single stitch,
/// the count and the kind otherwise.
pub open spec fn run_text(run: (StitchType, nat)) -> Seq<char> {
    if run.1 > 1 {
        decimal_text(run.1) + " "@ + run.0.abbreviation_text()
    } else {
        run.0.abbreviation_text()
    }
}

/// Text of a list of runs, each followed by a comma and a space.
pub open spec fn runs_text(runs: Seq<(StitchType, nat)>) -> Seq<char>
    decreases runs.len(),
{
    if runs.len() == 0 {
        Seq::empty()
    } else {
        runs_text(runs.drop_last()) + run_text(runs.last()) + ", "@
    }
}

/// Human-readable summary of a row: its runs of equal stitches separated by
/// commas, or the total as single crochets for a row without instructions.
pub open spec fn pattern_text(pattern: Seq<StitchInstruction>, total_stitches: nat) -> Seq<char> {
    if pattern.len() == 0 {
        decimal_text(total_stitches) + " sc"@
    } else {
        let runs = run_lengths(kinds_of(pattern));
        runs_text(runs.drop_last()) + run_text(runs.last())
    }
}

/// Appends the text of one run to `text`.
fn push_run(text: String, kind: StitchType, count: usize) -> (r: String)
    ensures
        r@ == text@ + run_text((kind, count as nat)),
{
    if count > 1 {
        let ghost start = text@;
        let with_count = push_decimal(text, count as u128);
        let with_space = with_count.concat(" ");
        let r = with_space.concat(kind.to_string());
        assert(r@ =~= start + (decimal_text(count as nat) + " "@ + kind.abbreviation_text()));
        r
    } else {
        text.concat(kind.to_string())
    }
}

impl Row {
    /// The row uses exactly `prev_stitches` stitches and makes exactly
    /// `total_stitches`.
    pub open spec fn closes_over(&self, prev_stitches: nat) -> bool {
        &&& consumed(self.pattern@) == prev_stitches
        &&& produced(self.pattern@) == self.total_stitches
    }

    /// Converts the row to a human-readable summary such as
    /// `"inc, 2 sc, inc, 2 sc"`.
    #[verifier::rlimit(40)]
    pub fn pattern_string(&self) -> (r: String)
        ensures
            r@ == pattern_text(self.pattern@, self.total_stitches as nat),
    {
        if self.pattern.len() == 0 {
            let text = push_decimal(String::new(), self.total_stitches as u128);
            assert(text@ =~= decimal_text(self.total_stitches as nat));
            return text.concat(" sc");
        }
        let ghost kinds = kinds_of(self.pattern@);
        let mut result = String::new();
        let mut current = self.pattern[0].stitch_type;
        let mut count: usize = 1;
        let n = self.pattern.len();
        let mut i: usize = 1;
        proof {
            assert(kinds.take(1).drop_last() =~= Seq::<StitchType>::empty());
            assert(run_lengths(kinds.take(1).drop_last()).len() == 0);
            assert(kinds.take(1).last() == current);
            assert(run_lengths(kinds.take(1)) =~= seq![(current, 1nat)]);
            assert(run_lengths(kinds.take(1)).drop_last() =~= Seq::<(StitchType, nat)>::empty());
        }
        while i < n
            invariant
                1 <= i <= n,
                n == self.pattern.len(),
                kinds == kinds_of(self.pattern@),
                1 <= count <= i,
                run_lengths(kinds.take(i as int)).len() > 0,
                run_lengths(kinds.take(i as int)).last() == (current, count as nat),
                result@ == runs_text(run_lengths(kinds.take(i as int)).drop_last()),
                current == self.pattern[i - 1].stitch_type,
            decreases n - i,
        {
            let kind = self.pattern[i].stitch_type;
            let ghost runs = run_lengths(kinds.take(i as int));
            proof {
                lemma_run_lengths_step(kinds, i as int);
                assert(kinds[i as int] == kind);
                assert(kinds[i - 1] == current);
            }
            if kind == current {
                count += 1;
                proof {
                    let longer = run_lengths(kinds.take(i + 1));
                    assert(longer.drop_last() =~= runs.drop_last());
                }
            } else {
                result = push_run(result, current, count);
                result = result.concat(", ");
                proof {
                    let longer = run_lengths(kinds.take(i + 1));
                    assert(longer.drop_last() =~= runs);
                    assert(runs.last() == (current, count as nat));
                }
                current = kind;
                count = 1;
            }
            i += 1;
        }
        assert(kinds.take(n as int) =~= kinds);
        push_run(result, current, count)
    }
}

/// Summary figures of a generated pattern. The time estimate is two seconds
/// per stitch.
#[derive(Debug, Clone, Copy, PartialEq, Eq, Structural)]
pub struct PatternMetadata {
    pub total_rows: usize,
    pub total_stitches: usize,
    pub estimated_time_seconds: usize,
}

/// A complete pattern of the profile pipeline.
#[derive(Debug, Clone)]
pub struct CrochetPattern {
    pub rows: Vec<Row>,
    pub metadata: PatternMetadata,
}

/// Tagged errors of the pipeline. Each carries a human-readable detail.
#[derive(Debug, Clone)]
pub enum PatternError {
    InvalidProfileCurve(String),
    InvalidConfiguration(String),
    ParameterizationFailure(String),
    SeamPlacementFailure(String),
    PatternInconsistency(String),
    IOError(String),
    InternalError(String),
}

impl PatternError {
    /// The fixed prefix that introduces the detail of each error kind.
    pub open spec fn prefix(self) -> Seq<char> {
        match self {
            PatternError::InvalidProfileCurve(_) => "Invalid profile curve: "@,
            PatternError::InvalidConfiguration(_) => "Invalid configuration: "@,
            PatternError::ParameterizationFailure(_) => "Parameterization failed: "@,
            PatternError::SeamPlacementFailure(_) => "Seam placement failed: "@,
            PatternError::PatternInconsistency(_) => "Pattern inconsistency: "@,
            PatternError::IOError(_) => "I/O error: "@,
            PatternError::InternalError(_) => "Internal error: "@,
        }
    }

    /// The detail carried by the error.
    pub open spec fn detail(self) -> Seq<char> {
        match self {
            PatternError::InvalidProfileCurve(m) => m@,
            PatternError::InvalidConfiguration(m) => m@,
            PatternError::ParameterizationFailure(m) => m@,
            PatternError::SeamPlacementFailure(m) => m@,
            PatternError::PatternInconsistency(m) => m@,
            PatternError::IOError(m) => m@,
            PatternError::InternalError(m) => m@,
        }
    }

    /// Human-readable rendering: the prefix of the kind, then the detail.
    pub fn message(&self) -> (r: String)
        ensures
            r@ == self.prefix() + self.detail(),
    {
        match self {
            PatternError::InvalidProfileCurve(m) => String::from_str("Invalid profile curve: ").concat(
                m.as_str(),
            ),
            PatternError::InvalidConfiguration(m) => String::from_str(
                "Invalid configuration: ",
            ).concat(m.as_str()),
            PatternError::ParameterizationFailure(m) => String::from_str(
                "Parameterization failed: ",
            ).concat(m.as_str()),
            PatternError::SeamPlacementFailure(m) => String::from_str(
                "Seam placement failed: ",
            ).concat(m.as_str()),
            PatternError::PatternInconsistency(m) => String::from_str(
                "Pattern inconsistency: ",
            ).concat(m.as_str()),
            PatternError::IOError(m) => String::from_str("I/O error: ").concat(m.as_str()),
            PatternError::InternalError(m) => String::from_str("Internal error: ").concat(
                m.as_str(),
            ),
        }
    }
}

} // verus!

//! Plain-text rendering of a pattern.

use vstd::prelude::*;
use vstd::string::*;
use crate::pattern::types::CrochetPattern;
use crate::pattern::types::RowInstruction;
use crate::pattern::types::RowInstructionView;
use crate::pattern::types::StitchGroup;
use crate::pattern::types::StitchGroupView;
use crate::text::decimal_text;
use crate::text::push_decimal;
use crate::types::PatternError;

verus! {

pub struct PatternFormatter {
    _private: (),
}

/// The instruction fragments of `groups`, separated by a comma and a space.
pub open spec fn joined_instructions(groups: Seq<StitchGroupView>) -> Seq<char>
    decreases groups.len(),
{
    if groups.len() == 0 {
        Seq::empty()
    } else if groups.len() == 1 {
        groups[0].instruction
    } else {
        joined_instructions(groups.drop_last()) + ", "@ + groups.last().instruction
    }
}

/// One line of the instruction list: the row number, the row's groups and
/// the row's total in brackets.
pub open spec fn row_line(row: RowInstructionView) -> Seq<char> {
    "Row "@ + decimal_text(row.number as nat) + ": "@ + joined_instructions(row.stitches) + " ("@
        + decimal_text(row.total_stitches as nat) + ")\n"@
}

/// The lines of the first `upto` rows.
pub open spec fn row_lines(rows: Seq<RowInstructionView>, upto: int) -> Seq<char>
    decreases upto,
{
    if upto <= 0 {
        Seq::empty()
    } else {
        row_lines(rows, upto - 1) + row_line(rows[upto - 1])
    }
}

/// The heading of the text rendering, with the summary figures.
pub open spec fn heading(
    stitch_count: nat,
    row_count: nat,
    estimated_time: Seq<char>,
    yarn_estimate: Seq<char>,
) -> Seq<char> {
    "CROCHET PATTERN\n"@ + "===============\n\n"@ + "Total stitches: "@ + decimal_text(stitch_count)
        + "\n"@ + "Total rows: "@ + decimal_text(row_count) + "\n"@ + "Estimated time: "@
        + estimated_time + "\n"@ + "Yarn needed: "@ + yarn_estimate + "\n\n"@ + "INSTRUCTIONS\n"@
        + "============\n\n"@
}

/// Appends the instruction fragments of a row to `text`.
fn push_joined(text: String, groups: &Vec<StitchGroup>) -> (r: String)
    ensures
        r@ == text@ + joined_instructions(groups@.map_values(|g: StitchGroup| g@)),
{
    let ghost start = text@;
    let ghost views = groups@.map_values(|g: StitchGroup| g@);
    let mut text = text;
    let n = groups.len();
    let mut g: usize = 0;
    assert(start + joined_instructions(views.take(0)) =~= start);
    while g < n
        invariant
            g <= n,
            n == groups.len(),
            views == groups@.map_values(|g: StitchGroup| g@),
            text@ == start + joined_instructions(views.take(g as int)),
        decreases n - g,
    {
        proof {
            assert(views.take(g + 1).drop_last() =~= views.take(g as int));
            assert(views.take(g + 1).last().instruction == groups[g as int].instruction@);
            if g == 0 {
                assert(views.take(1)[0].instruction == groups[0].instruction@);
            }
        }
        let ghost before = text@;
        if g > 0 {
            text = text.concat(", ");
        }
        text = text.concat(groups[g].instruction.as_str());
        proof {
            if g > 0 {
                assert(text@ =~= start + (joined_instructions(views.take(g as int)) + ", "@
                    + groups[g as int].instruction@));
            } else {
                assert(joined_instructions(views.take(0)) =~= Seq::<char>::empty());
                assert(text@ =~= start + groups[0].instruction@);
            }
        }
        g += 1;
    }
    assert(views.take(n as int) =~= views);
    text
}

/// Appends the line of one row to `text`.
fn push_row_line(text: String, row: &RowInstruction) -> (r: String)
    ensures
        r@ == text@ + row_line(row@),
{
    let ghost start = text@;
    let text = text.concat("Row ");
    let text = push_decimal(text, row.number as u128);
    let text = text.concat(": ");
    let text = push_joined(text, &row.stitches);
    let text = text.concat(" (");
    let text = push_decimal(text, row.total_stitches as u128);
    let text = text.concat(")\n");
    assert(text@ =~= start + row_line(row@));
    text
}

impl PatternFormatter {
    pub fn new() -> Self {
        Self { _private: () }
    }

    /// Renders the pattern as plain text: the heading with the summary
    /// figures, then one line per row.
    pub fn to_text(&self, pattern: &CrochetPattern) -> (r: Result<String, PatternError>)
        ensures
            r matches Ok(text) && text@ == heading(
                pattern.metadata.stitch_count as nat,
                pattern.metadata.row_count as nat,
                pattern.metadata.estimated_time@,
                pattern.metadata.yarn_estimate@,
            ) + row_lines(pattern.instructions.row_views(), pattern.instructions.rows.len() as int),
    {
        let text = String::from_str("CROCHET PATTERN\n");
        let text = text.concat("===============\n\n");
        let text = text.concat("Total stitches: ");
        let text = push_decimal(text, pattern.metadata.stitch_count as u128);
        let text = text.concat("\n");
        let text = text.concat("Total rows: ");
        let text = push_decimal(text, pattern.metadata.row_count as u128);
        let text = text.concat("\n");
        let text = text.concat("Estimated time: ");
        let text = text.concat(pattern.metadata.estimated_time.as_str());
        let text = text.concat("\n");
        let text = text.concat("Yarn needed: ");
        let text = text.concat(pattern.metadata.yarn_estimate.as_str());
        let text = text.concat("\n\n");
        let text = text.concat("INSTRUCTIONS\n");
        let text = text.concat("============\n\n");
        let ghost head = heading(
            pattern.metadata.stitch_count as nat,
            pattern.metadata.row_count as nat,
            pattern.metadata.estimated_time@,
            pattern.metadata.yarn_estimate@,
        );
        assert(text@ =~= head);
        let ghost views = pattern.instructions.row_views();
        let mut text = text;
        let n = pattern.instructions.rows.len();
        let mut i: usize = 0;
        assert(head + row_lines(views, 0) =~= head);
        while i < n
            invariant
                i <= n,
                n == pattern.instructions.rows.len(),
                views == pattern.instructions.row_views(),
                text@ == head + row_lines(views, i as int),
            decreases n - i,
        {
            text = push_row_line(text, &pattern.instructions.rows[i]);
            proof {
                assert(views[i as int] == pattern.instructions.rows[i as int]@);
                assert(text@ =~= head + (row_lines(views, i as int) + row_line(views[i as int])));
            }
            i += 1;
        }
        Ok(text)
    }

    /// The diagram of the pattern, where one has been attached.
    pub fn to_svg(&self, pattern: &CrochetPattern) -> (r: Result<String, PatternError>)
        ensures
            r is Ok <==> pattern.diagram is Some,
            r matches Ok(svg) ==> svg@ == pattern.diagram->0@,
            r matches Err(e) ==> e is InternalError && e.detail() == "No diagram available"@,
    {
        match &pattern.diagram {
            Some(svg) => Ok(svg.clone()),
            None => Err(PatternError::InternalError(String::from_str("No diagram available"))),
        }
    }
}

} // verus!

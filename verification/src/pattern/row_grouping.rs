//! Grouping of similar consecutive rows.

use vstd::prelude::*;
use vstd::string::*;
use crate::pattern::types::RowInstruction;
use crate::pattern::types::RowInstructionView;
use crate::pattern::types::StitchGroup;
use crate::pattern::types::StitchGroupView;
use crate::pattern::types::CrochetPattern;
use crate::text::decimal_text;
use crate::text::push_decimal;

verus! {

pub struct RowGrouper {
    _private: (),
}

/// Two rows have the same stitch pattern: the same total and, group by
/// group, the same count of the same kind of stitch.
pub open spec fn similar(a: RowInstructionView, b: RowInstructionView) -> bool {
    &&& a.total_stitches == b.total_stitches
    &&& a.stitches.len() == b.stitches.len()
    &&& forall|g: int|
        0 <= g < a.stitches.len() ==> (#[trigger] a.stitches[g]).count == b.stitches[g].count
            && a.stitches[g].stitch_type == b.stitches[g].stitch_type
}

/// Last row of the group that starts at row `start`, searched from row `e`
/// on: the group runs on for as long as the next row is similar to its first.
pub open spec fn group_end(rows: Seq<RowInstructionView>, start: int, e: int) -> int
    decreases rows.len() - e,
{
    if e + 1 < rows.len() && similar(rows[start], rows[e + 1]) {
        group_end(rows, start, e + 1)
    } else {
        e
    }
}

/// The note that marks an instruction as standing for rows `first` to `last`.
pub open spec fn repeat_note(first: u32, last: u32) -> Seq<char> {
    " (repeat for rows "@ + decimal_text(first as nat) + "-"@ + decimal_text(last as nat) + ")"@
}

/// A stitch group with the repeat note added to its instruction.
pub open spec fn noted_group(group: StitchGroupView, first: u32, last: u32) -> StitchGroupView {
    StitchGroupView {
        count: group.count,
        stitch_type: group.stitch_type,
        instruction: group.instruction + repeat_note(first, last),
    }
}

/// The one row that stands for rows `start` to `end`: the first row of the
/// group, with the repeat note on each of its instructions where the group
/// has more than one row.
pub open spec fn merged_row(rows: Seq<RowInstructionView>, start: int, end: int) -> RowInstructionView {
    if end > start {
        RowInstructionView {
            number: rows[start].number,
            stitches: rows[start].stitches.map_values(
                |g: StitchGroupView| noted_group(g, rows[start].number, rows[end].number),
            ),
            total_stitches: rows[start].total_stitches,
        }
    } else {
        rows[start]
    }
}

/// The rows from `start` on with every group of similar consecutive rows
/// replaced by one row.
pub open spec fn grouped_rows(rows: Seq<RowInstructionView>, start: int) -> Seq<RowInstructionView>
    decreases rows.len() - start,
{
    if start < 0 || start >= rows.len() {
        Seq::empty()
    } else {
        let end = group_end(rows, start, start);
        if end < start || end >= rows.len() {
            Seq::empty()
        } else {
            seq![merged_row(rows, start, end)] + grouped_rows(rows, end + 1)
        }
    }
}

proof fn lemma_group_end_bounds(rows: Seq<RowInstructionView>, start: int, e: int)
    requires
        0 <= start <= e < rows.len(),
    ensures
        e <= group_end(rows, start, e) < rows.len(),
    decreases rows.len() - e,
{
    if e + 1 < rows.len() && similar(rows[start], rows[e + 1]) {
        lemma_group_end_bounds(rows, start, e + 1);
    }
}

/// A copy of `group`, with the repeat note added where `noted` is set.
fn copy_group(group: &StitchGroup, noted: bool, first: u32, last: u32) -> (r: StitchGroup)
    ensures
        r@ == if noted {
            noted_group(group@, first, last)
        } else {
            group@
        },
{
    let text = group.instruction.clone();
    if noted {
        let ghost start = text@;
        let text = text.concat(" (repeat for rows ");
        let text = push_decimal(text, first as u128);
        let text = text.concat("-");
        let text = push_decimal(text, last as u128);
        let text = text.concat(")");
        assert(text@ =~= start + repeat_note(first, last));
        StitchGroup { count: group.count, stitch_type: group.stitch_type, instruction: text }
    } else {
        StitchGroup { count: group.count, stitch_type: group.stitch_type, instruction: text }
    }
}

/// The row that stands for rows `start` to `end` of `rows`.
fn merge_rows(rows: &Vec<RowInstruction>, start: usize, end: usize) -> (r: RowInstruction)
    requires
        start <= end < rows.len(),
    ensures
        r@ == merged_row(rows@.map_values(|row: RowInstruction| row@), start as int, end as int),
{
    let ghost views = rows@.map_values(|row: RowInstruction| row@);
    let noted = end > start;
    let first = rows[start].number;
    let last = rows[end].number;
    let source = &rows[start];
    let mut groups: Vec<StitchGroup> = Vec::new();
    let n = source.stitches.len();
    let mut g: usize = 0;
    while g < n
        invariant
            g <= n,
            n == source.stitches.len(),
            groups.len() == g,
            forall|h: int|
                0 <= h < g ==> (#[trigger] groups[h])@ == if noted {
                    noted_group(source.stitches[h]@, first, last)
                } else {
                    source.stitches[h]@
                },
        decreases n - g,
    {
        groups.push(copy_group(&source.stitches[g], noted, first, last));
        g += 1;
    }
    let r = RowInstruction {
        number: source.number,
        stitches: groups,
        total_stitches: source.total_stitches,
    };
    proof {
        assert(views[start as int] == source@);
        assert(views[end as int].number == last);
        if noted {
            assert(r@.stitches =~= source@.stitches.map_values(
                |g: StitchGroupView| noted_group(g, first, last),
            ));
        } else {
            assert(r@.stitches =~= source@.stitches);
        }
    }
    r
}

impl RowGrouper {
    pub fn new() -> Self {
        Self { _private: () }
    }

    /// Groups similar consecutive rows together: every run of rows that are
    /// similar to the first row of the run is replaced by that first row,
    /// with a note on each of its instructions that names the rows it stands
    /// for. Nothing else in the pattern changes.
    #[verifier::rlimit(40)]
    pub fn group_rows(&self, pattern: &mut CrochetPattern)
        ensures
            final(pattern).instructions.row_views() == grouped_rows(
                old(pattern).instructions.row_views(),
                0,
            ),
            final(pattern).metadata == old(pattern).metadata,
            final(pattern).stitches == old(pattern).stitches,
            final(pattern).diagram == old(pattern).diagram,
    {
        let ghost views = pattern.instructions.row_views();
        let n = pattern.instructions.rows.len();
        if n == 0 {
            assert(grouped_rows(views, 0) =~= views);
            return;
        }
        let mut out: Vec<RowInstruction> = Vec::new();
        let mut start: usize = 0;
        let mut i: usize = 1;
        proof {
            assert(out@.map_values(|row: RowInstruction| row@) + grouped_rows(views, 0)
                =~= grouped_rows(views, 0));
        }
        while i < n
            invariant
                start < i <= n,
                n == pattern.instructions.rows.len(),
                views == pattern.instructions.row_views(),
                *pattern == *old(pattern),
                group_end(views, start as int, start as int) == group_end(
                    views,
                    start as int,
                    i - 1,
                ),
                out@.map_values(|row: RowInstruction| row@) + grouped_rows(views, start as int)
                    == grouped_rows(views, 0),
            decreases n - i,
        {
            let same = self.rows_are_similar(
                &pattern.instructions.rows[start],
                &pattern.instructions.rows[i],
            );
            proof {
                assert(views[start as int] == pattern.instructions.rows[start as int]@);
                assert(views[i as int] == pattern.instructions.rows[i as int]@);
                lemma_group_end_bounds(views, start as int, start as int);
            }
            if !same {
                let ghost before = out@.map_values(|row: RowInstruction| row@);
                let merged = merge_rows(&pattern.instructions.rows, start, i - 1);
                out.push(merged);
                proof {
                    assert(group_end(views, start as int, i - 1) == i - 1);
                    assert(out@.map_values(|row: RowInstruction| row@) =~= before.push(
                        merged_row(views, start as int, i - 1),
                    ));
                    assert(out@.map_values(|row: RowInstruction| row@) + grouped_rows(
                        views,
                        i as int,
                    ) =~= before + (seq![merged_row(views, start as int, i - 1)] + grouped_rows(
                        views,
                        i as int,
                    )));
                }
                start = i;
            }
            i += 1;
        }
        let ghost before = out@.map_values(|row: RowInstruction| row@);
        let merged = merge_rows(&pattern.instructions.rows, start, n - 1);
        out.push(merged);
        proof {
            lemma_group_end_bounds(views, start as int, start as int);
            assert(group_end(views, start as int, n - 1) == n - 1);
            assert(grouped_rows(views, n as int) =~= Seq::<RowInstructionView>::empty());
            assert(out@.map_values(|row: RowInstruction| row@) =~= before.push(
                merged_row(views, start as int, n - 1),
            ));
            assert(out@.map_values(|row: RowInstruction| row@) =~= before + (seq![
                merged_row(views, start as int, n - 1),
            ] + grouped_rows(views, n as int)));
        }
        pattern.instructions.rows = out;
    }

    /// Checks if two rows have the same stitch pattern.
    pub fn rows_are_similar(&self, row1: &RowInstruction, row2: &RowInstruction) -> (b: bool)
        ensures
            b == similar(row1@, row2@),
    {
        if row1.total_stitches != row2.total_stitches {
            return false;
        }
        if row1.stitches.len() != row2.stitches.len() {
            return false;
        }
        let n = row1.stitches.len();
        let mut g: usize = 0;
        while g < n
            invariant
                g <= n,
                n == row1.stitches.len(),
                n == row2.stitches.len(),
                forall|h: int|
                    0 <= h < g ==> (#[trigger] row1@.stitches[h]).count == row2@.stitches[h].count
                        && row1@.stitches[h].stitch_type == row2@.stitches[h].stitch_type,
            decreases n - g,
        {
            if row1.stitches[g].count != row2.stitches[g].count || row1.stitches[g].stitch_type
                != row2.stitches[g].stitch_type {
                assert(row1@.stitches[g as int].count == row1.stitches[g as int].count);
                assert(row2@.stitches[g as int].count == row2.stitches[g as int].count);
                return false;
            }
            assert(row1@.stitches[g as int].count == row2@.stitches[g as int].count);
            g += 1;
        }
        true
    }
}

} // verus!

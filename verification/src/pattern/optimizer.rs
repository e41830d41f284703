//! Row instructions and summary figures from a classified stitch grid.

use vstd::prelude::*;
use vstd::string::*;
use crate::pattern::types::CrochetPattern;
use crate::pattern::types::PatternInstructions;
use crate::pattern::types::PatternMetadata;
use crate::pattern::types::RowInstruction;
use crate::pattern::types::StitchGroup;
use crate::pattern::types::StitchGroupView;
use crate::runs::run_lengths;
use crate::runs::lemma_run_lengths_step;
use crate::stitch::Stitch;
use crate::stitch::StitchGrid;
use crate::stitch::StitchType;
use crate::text::decimal_text;
use crate::text::push_decimal;

verus! {

pub struct PatternOptimizer {
    _private: (),
}

/// Half of `stitch_count`, rounded to the nearest whole with halves rounded
/// up, and capped at the largest 32-bit number: the minutes of work and the
/// yards of yarn that a piece of that many stitches takes.
pub open spec fn half_rounded(stitch_count: nat) -> nat {
    if (stitch_count + 1) / 2 > u32::MAX {
        u32::MAX as nat
    } else {
        (stitch_count + 1) / 2
    }
}

/// Working time as text: hours and minutes, or minutes alone below an hour.
pub open spec fn time_text(stitch_count: nat) -> Seq<char> {
    let minutes = half_rounded(stitch_count);
    if minutes / 60 > 0 {
        decimal_text(minutes / 60) + "h "@ + decimal_text(minutes % 60) + "m"@
    } else {
        decimal_text(minutes % 60) + "m"@
    }
}

/// Yarn need as text.
pub open spec fn yarn_text(stitch_count: nat) -> Seq<char> {
    decimal_text(half_rounded(stitch_count)) + " yards"@
}

/// The stitch group that stands for a run of equal stitches.
pub open spec fn group_for(run: (StitchType, nat)) -> StitchGroupView {
    StitchGroupView {
        count: run.1 as usize,
        stitch_type: run.0,
        instruction: decimal_text(run.1) + " "@ + run.0.abbreviation_text(),
    }
}

/// The kinds of the stitches of one row, in working order.
pub open spec fn row_kinds(stitches: Seq<Stitch>, row: Seq<u32>) -> Seq<StitchType> {
    Seq::new(row.len(), |c: int| stitches[row[c] as int].stitch_type)
}

/// The stitch groups of one row: one group for each run of equal stitches.
pub open spec fn row_groups(stitches: Seq<Stitch>, row: Seq<u32>) -> Seq<StitchGroupView> {
    run_lengths(row_kinds(stitches, row)).map_values(|run: (StitchType, nat)| group_for(run))
}

fn half_of(stitch_count: usize) -> (half: u32)
    ensures
        half == half_rounded(stitch_count as nat),
{
    let half = stitch_count / 2 + stitch_count % 2;
    if half > u32::MAX as usize {
        u32::MAX
    } else {
        half as u32
    }
}

/// Builds the stitch group for `count` stitches of kind `kind`.
fn make_group(kind: StitchType, count: usize) -> (group: StitchGroup)
    ensures
        group@ == group_for((kind, count as nat)),
{
    let text = push_decimal(String::new(), count as u128);
    let text = text.concat(" ");
    let text = text.concat(kind.abbreviation());
    assert(text@ =~= decimal_text(count as nat) + " "@ + kind.abbreviation_text());
    StitchGroup { count, stitch_type: kind, instruction: text }
}

impl PatternOptimizer {
    pub fn new() -> Self {
        Self { _private: () }
    }

    /// Working time for `stitch_count` stitches, at half a minute a stitch.
    pub fn estimate_time(&self, stitch_count: usize) -> (r: String)
        ensures
            r@ == time_text(stitch_count as nat),
    {
        let minutes = half_of(stitch_count);
        let hours = minutes / 60;
        let mins = minutes % 60;
        if hours > 0 {
            let text = push_decimal(String::new(), hours as u128);
            let text = text.concat("h ");
            let text = push_decimal(text, mins as u128);
            let r = text.concat("m");
            assert(r@ =~= time_text(stitch_count as nat));
            r
        } else {
            let text = push_decimal(String::new(), mins as u128);
            let r = text.concat("m");
            assert(r@ =~= time_text(stitch_count as nat));
            r
        }
    }

    /// Yarn need for `stitch_count` stitches, at half a yard a stitch.
    pub fn estimate_yarn(&self, stitch_count: usize) -> (r: String)
        ensures
            r@ == yarn_text(stitch_count as nat),
    {
        let yards = half_of(stitch_count);
        let text = push_decimal(String::new(), yards as u128);
        let r = text.concat(" yards");
        assert(r@ =~= yarn_text(stitch_count as nat));
        r
    }

    /// Groups the stitches of one row into runs of equal kind.
    #[verifier::rlimit(40)]
    pub fn group_row(&self, stitches: &Vec<Stitch>, row: &Vec<u32>) -> (groups: Vec<StitchGroup>)
        requires
            forall|c: int| 0 <= c < row.len() ==> (#[trigger] row[c]) < stitches.len(),
        ensures
            groups@.map_values(|g: StitchGroup| g@) == row_groups(stitches@, row@),
    {
        let mut groups: Vec<StitchGroup> = Vec::new();
        let n = row.len();
        let ghost kinds = row_kinds(stitches@, row@);
        if n == 0 {
            assert(groups@.map_values(|g: StitchGroup| g@) =~= row_groups(stitches@, row@));
            return groups;
        }
        let mut current = stitches[row[0] as usize].stitch_type;
        let mut count: usize = 1;
        let mut i: usize = 1;
        proof {
            assert(kinds.take(1).drop_last() =~= Seq::<StitchType>::empty());
            assert(run_lengths(kinds.take(1).drop_last()).len() == 0);
            assert(kinds.take(1).last() == current);
            assert(run_lengths(kinds.take(1)) =~= seq![(current, 1nat)]);
            assert(run_lengths(kinds.take(1)).drop_last() =~= Seq::<(StitchType, nat)>::empty());
        }
        while i < n
            invariant
                1 <= i <= n,
                n == row.len(),
                kinds == row_kinds(stitches@, row@),
                forall|c: int| 0 <= c < row.len() ==> (#[trigger] row[c]) < stitches.len(),
                1 <= count <= i,
                run_lengths(kinds.take(i as int)).len() > 0,
                run_lengths(kinds.take(i as int)).last() == (current, count as nat),
                groups@.map_values(|g: StitchGroup| g@) == run_lengths(
                    kinds.take(i as int),
                ).drop_last().map_values(|run: (StitchType, nat)| group_for(run)),
                current == kinds[i - 1],
            decreases n - i,
        {
            let kind = stitches[row[i] as usize].stitch_type;
            let ghost runs = run_lengths(kinds.take(i as int));
            proof {
                lemma_run_lengths_step(kinds, i as int);
                assert(kinds[i as int] == kind);
            }
            if kind == current {
                count += 1;
                proof {
                    let longer = run_lengths(kinds.take(i + 1));
                    assert(longer.drop_last() =~= runs.drop_last());
                }
            } else {
                let ghost before = groups@.map_values(|g: StitchGroup| g@);
                let group = make_group(current, count);
                groups.push(group);
                proof {
                    let longer = run_lengths(kinds.take(i + 1));
                    assert(longer.drop_last() =~= runs);
                    assert(runs =~= runs.drop_last().push(runs.last()));
                    assert(groups@.map_values(|g: StitchGroup| g@) =~= before.push(
                        group_for((current, count as nat)),
                    ));
                    assert(runs.map_values(|run: (StitchType, nat)| group_for(run))
                        =~= runs.drop_last().map_values(|run: (StitchType, nat)| group_for(run)).push(
                        group_for(runs.last()),
                    ));
                }
                current = kind;
                count = 1;
            }
            i += 1;
        }
        let ghost before = groups@.map_values(|g: StitchGroup| g@);
        let ghost runs = run_lengths(kinds.take(n as int));
        let group = make_group(current, count);
        groups.push(group);
        proof {
            assert(kinds.take(n as int) =~= kinds);
            assert(runs =~= runs.drop_last().push(runs.last()));
            assert(groups@.map_values(|g: StitchGroup| g@) =~= before.push(
                group_for((current, count as nat)),
            ));
            assert(runs.map_values(|run: (StitchType, nat)| group_for(run))
                =~= runs.drop_last().map_values(|run: (StitchType, nat)| group_for(run)).push(
                group_for(runs.last()),
            ));
        }
        groups
    }

    /// Turns a stitch grid into a pattern: one row instruction per grid row,
    /// numbered from 1, with the stitches of the row grouped into runs of
    /// equal kind, and the summary figures of the whole piece.
    pub fn optimize(&self, grid: StitchGrid) -> (pattern: CrochetPattern)
        requires
            grid.ids_in_range(),
            grid.rows.len() < u32::MAX,
        ensures
            pattern.stitches@ == grid.stitches@,
            pattern.diagram is None,
            pattern.metadata.stitch_count == grid.stitches.len(),
            pattern.metadata.row_count == grid.rows.len(),
            pattern.metadata.estimated_time@ == time_text(grid.stitches.len() as nat),
            pattern.metadata.yarn_estimate@ == yarn_text(grid.stitches.len() as nat),
            pattern.instructions.rows.len() == grid.rows.len(),
            forall|r: int|
                0 <= r < grid.rows.len() ==> {
                    &&& (#[trigger] pattern.instructions.rows[r]).number == r + 1
                    &&& pattern.instructions.rows[r].total_stitches == grid.rows[r].len()
                    &&& pattern.instructions.rows[r]@.stitches == row_groups(
                        grid.stitches@,
                        grid.rows[r]@,
                    )
                },
    {
        let mut rows: Vec<RowInstruction> = Vec::new();
        let n = grid.rows.len();
        let mut r: usize = 0;
        while r < n
            invariant
                r <= n,
                n == grid.rows.len(),
                n < u32::MAX,
                grid.ids_in_range(),
                rows.len() == r,
                forall|k: int|
                    0 <= k < r ==> {
                        &&& (#[trigger] rows[k]).number == k + 1
                        &&& rows[k].total_stitches == grid.rows[k].len()
                        &&& rows[k]@.stitches == row_groups(grid.stitches@, grid.rows[k]@)
                    },
            decreases n - r,
        {
            let groups = self.group_row(&grid.stitches, &grid.rows[r]);
            rows.push(
                RowInstruction {
                    number: r as u32 + 1,
                    stitches: groups,
                    total_stitches: grid.rows[r].len(),
                },
            );
            r += 1;
        }
        let stitch_count = grid.stitches.len();
        let metadata = PatternMetadata {
            stitch_count,
            row_count: n,
            estimated_time: self.estimate_time(stitch_count),
            yarn_estimate: self.estimate_yarn(stitch_count),
        };
        CrochetPattern {
            metadata,
            stitches: grid.stitches,
            instructions: PatternInstructions { rows },
            diagram: None,
        }
    }
}

} // verus!

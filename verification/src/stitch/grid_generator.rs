//! Layout of the stitch grid: how many stitches a row gets and which ids.

use vstd::prelude::*;
use crate::stitch::Stitch;
use crate::stitch::StitchGrid;
use crate::stitch::StitchType;
use crate::stitch::row_start;
use crate::stitch::lemma_row_start_grows;

verus! {

/// Fewest stitches a pole row may have.
pub const POLE_STITCHES: u32 = 6;

/// Stitch count of row `row_idx` of `total_rows` whose width asks for
/// `raw_count` stitches: the first and last rows are the poles and get at
/// least six stitches, every other row at least one.
pub open spec fn target_count(raw_count: int, row_idx: int, total_rows: int) -> int {
    if raw_count < 6 && (row_idx == 0 || row_idx == total_rows - 1) {
        6
    } else if raw_count == 0 {
        1
    } else {
        raw_count
    }
}

/// Applies the pole floor to the stitch count that the width of a row asks
/// for.
pub fn row_target_count(raw_count: u32, row_idx: u32, total_rows: u32) -> (count: u32)
    ensures
        count == target_count(raw_count as int, row_idx as int, total_rows as int),
        count >= 1,
{
    if raw_count < POLE_STITCHES && (row_idx == 0 || (total_rows > 0 && row_idx == total_rows - 1)) {
        POLE_STITCHES
    } else if raw_count == 0 {
        1
    } else {
        raw_count
    }
}

/// Sum of the first `upto` row counts.
pub open spec fn count_sum(counts: Seq<u32>, upto: int) -> int
    decreases upto,
{
    if upto <= 0 {
        0
    } else {
        count_sum(counts, upto - 1) + counts[upto - 1]
    }
}

proof fn lemma_count_sum_grows(counts: Seq<u32>, a: int, b: int)
    requires
        0 <= a <= b <= counts.len(),
    ensures
        0 <= count_sum(counts, a) <= count_sum(counts, b),
    decreases b - a, a,
{
    if a < b {
        lemma_count_sum_grows(counts, a, b - 1);
    } else if a > 0 {
        lemma_count_sum_grows(counts, a - 1, a - 1);
    }
}

/// The number of stitches in all rows, where it fits 32 bits.
fn total_count(row_counts: &Vec<u32>) -> (r: Option<u32>)
    ensures
        r is Some <==> count_sum(row_counts@, row_counts.len() as int) <= u32::MAX,
        r matches Some(total) ==> total == count_sum(row_counts@, row_counts.len() as int),
{
    let n = row_counts.len();
    let mut total: u32 = 0;
    let mut r: usize = 0;
    while r < n
        invariant
            r <= n,
            n == row_counts.len(),
            total == count_sum(row_counts@, r as int),
        decreases n - r,
    {
        let count = row_counts[r];
        if count > u32::MAX - total {
            proof {
                lemma_count_sum_grows(row_counts@, r + 1, n as int);
            }
            return None;
        }
        total = total + count;
        r += 1;
    }
    Some(total)
}

/// Lays out a grid with `row_counts[r]` single crochets in row `r`,
/// numbering the stitches through the rows. There is no grid when the
/// stitches or the rows cannot be numbered in 32 bits.
#[verifier::rlimit(40)]
pub fn layout_grid(row_counts: &Vec<u32>) -> (r: Option<StitchGrid>)
    ensures
        r is Some <==> count_sum(row_counts@, row_counts.len() as int) <= u32::MAX
            && row_counts.len() <= u32::MAX,
        r matches Some(grid) ==> {
            &&& grid.laid_out_in_rows()
            &&& grid.ids_in_range()
            &&& grid.rows.len() == row_counts.len()
            &&& forall|k: int| 0 <= k < grid.rows.len() ==> (#[trigger] grid.rows[k]).len() == row_counts[k]
            &&& forall|id: int|
                0 <= id < grid.stitches.len() ==> (#[trigger] grid.stitches[id]).stitch_type
                    == StitchType::SingleCrochet && grid.stitches[id].connections@ == Seq::<
                    u32,
                >::empty()
        },
{
    let n = row_counts.len();
    if n > u32::MAX as usize {
        return None;
    }
    if total_count(row_counts).is_none() {
        return None;
    }
    let mut stitches: Vec<Stitch> = Vec::new();
    let mut rows: Vec<Vec<u32>> = Vec::new();
    let mut next_id: u32 = 0;
    let mut r: usize = 0;
    while r < n
        invariant
            r <= n,
            n == row_counts.len(),
            n <= u32::MAX,
            rows.len() == r,
            stitches.len() == next_id,
            count_sum(row_counts@, n as int) <= u32::MAX,
            next_id == count_sum(row_counts@, r as int),
            next_id == row_start(rows@, r as int),
            forall|k: int| 0 <= k < r ==> (#[trigger] rows[k]).len() == row_counts[k],
            forall|k: int, c: int|
                0 <= k < r && 0 <= c < rows[k].len() ==> (#[trigger] rows[k][c]) == row_start(
                    rows@,
                    k,
                ) + c,
            forall|k: int, c: int|
                0 <= k < r && 0 <= c < rows[k].len() ==> stitches[(#[trigger] rows[k][c]) as int].row
                    == k,
            forall|id: int|
                0 <= id < stitches.len() ==> (#[trigger] stitches[id]).id == id
                    && stitches[id].stitch_type == StitchType::SingleCrochet
                    && stitches[id].connections@ == Seq::<u32>::empty(),
        decreases n - r,
    {
        let count = row_counts[r];
        proof {
            lemma_count_sum_grows(row_counts@, r + 1, n as int);
        }
        let first = next_id;
        let mut row: Vec<u32> = Vec::new();
        let mut c: u32 = 0;
        let ghost done_rows = rows@;
        proof {
            assert forall|k: int, d: int| 0 <= k < r && 0 <= d < rows[k].len() implies (
            #[trigger] rows[k][d]) < first by {
                lemma_row_start_grows(rows@, k, r as int);
            }
        }
        while c < count
            invariant
                c <= count,
                r < n,
                n <= u32::MAX,
                first + count <= u32::MAX,
                next_id == first + c,
                row.len() == c,
                rows@ == done_rows,
                rows.len() == r,
                first == row_start(rows@, r as int),
                stitches.len() == next_id,
                forall|d: int| 0 <= d < c ==> #[trigger] row[d] == first + d,
                forall|d: int| 0 <= d < c ==> (#[trigger] stitches[first + d]).row == r,
                forall|k: int, d: int|
                    0 <= k < r && 0 <= d < rows[k].len() ==> (#[trigger] rows[k][d]) < first
                        && stitches[rows[k][d] as int].row == k,
                forall|id: int|
                    0 <= id < stitches.len() ==> (#[trigger] stitches[id]).id == id
                        && stitches[id].stitch_type == StitchType::SingleCrochet
                        && stitches[id].connections@ == Seq::<u32>::empty(),
            decreases count - c,
        {
            let ghost before = stitches@;
            stitches.push(
                Stitch {
                    id: next_id,
                    stitch_type: StitchType::SingleCrochet,
                    row: r as u32,
                    connections: Vec::new(),
                },
            );
            row.push(next_id);
            proof {
                assert forall|k: int, d: int| 0 <= k < r && 0 <= d < rows[k].len() implies (
                #[trigger] rows[k][d]) < first && stitches[rows[k][d] as int].row == k by {
                    assert(before[rows[k][d] as int].row == k);
                }
                assert forall|d: int| 0 <= d < c + 1 implies (#[trigger] stitches[first + d]).row
                    == r by {
                    if d < c {
                        assert(before[first + d].row == r);
                    }
                }
            }
            next_id += 1;
            c += 1;
        }
        rows.push(row);
        proof {
            assert forall|k: int| 0 <= k <= r implies row_start(rows@, k) == row_start(
                done_rows,
                k,
            ) by {
                lemma_row_start_prefix(done_rows, rows@, k);
            }
            lemma_row_start_prefix(done_rows, rows@, r + 1);
            assert(row_start(rows@, r + 1) == first + count);
            assert forall|k: int, d: int| 0 <= k < r + 1 && 0 <= d < rows[k].len() implies (
            #[trigger] rows[k][d]) == row_start(rows@, k) + d by {
                if k < r {
                    assert(rows[k] == done_rows[k]);
                    assert(done_rows[k][d] == row_start(done_rows, k) + d);
                }
            }
            assert forall|k: int, d: int| 0 <= k < r + 1 && 0 <= d < rows[k].len() implies stitches[(
            #[trigger] rows[k][d]) as int].row == k by {
                if k < r {
                    assert(rows[k] == done_rows[k]);
                    assert(stitches[done_rows[k][d] as int].row == k);
                } else {
                    assert(stitches[first + d].row == r);
                }
            }
            assert forall|k: int| 0 <= k < r + 1 implies (#[trigger] rows[k]).len()
                == row_counts[k] by {
                if k < r {
                    assert(rows[k] == done_rows[k]);
                }
            }
        }
        r += 1;
    }
    let grid = StitchGrid { stitches, rows };
    proof {
        assert forall|k: int, c: int|
            0 <= k < grid.rows.len() && 0 <= c < grid.rows[k].len() implies (
        #[trigger] grid.rows[k][c]) < grid.stitches.len() by {
            lemma_row_start_grows(grid.rows@, k, grid.rows.len() as int);
        }
    }
    Some(grid)
}

proof fn lemma_row_start_prefix(shorter: Seq<Vec<u32>>, longer: Seq<Vec<u32>>, k: int)
    requires
        longer.len() == shorter.len() + 1,
        forall|j: int| 0 <= j < shorter.len() ==> #[trigger] longer[j] == shorter[j],
        0 <= k <= longer.len(),
    ensures
        k <= shorter.len() ==> row_start(longer, k) == row_start(shorter, k),
        k == longer.len() ==> row_start(longer, k) == row_start(shorter, k - 1) + longer[k
            - 1].len(),
        k == longer.len() ==> row_start(longer, k - 1) == row_start(shorter, k - 1),
    decreases k,
{
    if k > 0 {
        lemma_row_start_prefix(shorter, longer, k - 1);
        if k <= shorter.len() {
            assert(longer[k - 1] == shorter[k - 1]);
        }
    }
}

} // verus!

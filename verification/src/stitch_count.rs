//! Stitch-count solver: turns the ideal stitch count of each row into counts
//! that a crocheter can actually work, row after row.

use vstd::prelude::*;
use crate::types::MIN_ROW_STITCHES;

verus! {

/// Largest change in stitch count that a row worked over `prev` stitches
/// allows: six stitches, or a sixth of the previous row where that is more.
pub open spec fn max_delta(prev: int) -> int {
    if prev / 6 > 6 {
        prev / 6
    } else {
        6
    }
}

/// The count nearest to `ideal` that lies within `max_delta(prev)` of `prev`
/// and is not below the minimum row size.
pub open spec fn clamp_count(prev: int, ideal: int) -> int {
    let banded = if ideal > prev + max_delta(prev) {
        prev + max_delta(prev)
    } else if ideal < prev - max_delta(prev) {
        prev - max_delta(prev)
    } else {
        ideal
    };
    if banded < MIN_ROW_STITCHES as int {
        MIN_ROW_STITCHES as int
    } else {
        banded
    }
}

/// The solved counts for the ideal counts `ideal`: row 0 has `baseline`
/// stitches whatever its ideal says, every later row is its ideal clamped
/// against the row before it.
pub open spec fn solved_counts(ideal: Seq<int>, baseline: int) -> Seq<int>
    decreases ideal.len(),
{
    if ideal.len() == 0 {
        Seq::empty()
    } else if ideal.len() == 1 {
        seq![baseline]
    } else {
        let before = solved_counts(ideal.drop_last(), baseline);
        before.push(clamp_count(before.last(), ideal.last()))
    }
}

/// Two consecutive counts respect the physical limit on row-to-row change.
pub open spec fn within_band(prev: int, next: int) -> bool {
    -max_delta(prev) <= next - prev <= max_delta(prev)
}

/// Clamps one ideal count against the count of the row before it.
pub fn clamp_stitch_count(prev: usize, ideal: usize) -> (count: usize)
    ensures
        count == clamp_count(prev as int, ideal as int),
        within_band(prev as int, count as int),
        count >= MIN_ROW_STITCHES,
{
    let sixth: usize = prev / 6;
    let delta: usize = if sixth > 6 {
        sixth
    } else {
        6
    };
    let banded: usize = if ideal > prev {
        if ideal - prev > delta {
            prev + delta
        } else {
            ideal
        }
    } else {
        if prev - ideal > delta {
            prev - delta
        } else {
            ideal
        }
    };
    if banded < MIN_ROW_STITCHES {
        MIN_ROW_STITCHES
    } else {
        banded
    }
}

/// Solves the stitch count of every row. `ideal_counts[i]` is the rounded
/// product of the circumference (or width) of row `i` and the stitch gauge;
/// row 0 always gets `baseline` stitches, the size of the magic ring.
pub fn calculate_stitch_counts(ideal_counts: &Vec<usize>, baseline: usize) -> (counts: Vec<usize>)
    ensures
        counts@.map_values(|c: usize| c as int) == solved_counts(
            ideal_counts@.map_values(|c: usize| c as int),
            baseline as int,
        ),
        counts.len() == ideal_counts.len(),
        counts.len() > 0 ==> counts[0] == baseline,
        forall|i: int|
            1 <= i < counts.len() ==> #[trigger] counts[i] == clamp_count(
                counts[i - 1] as int,
                ideal_counts[i] as int,
            ),
        forall|i: int|
            1 <= i < counts.len() ==> within_band(counts[i - 1] as int, #[trigger] counts[i] as int),
        forall|i: int| 1 <= i < counts.len() ==> #[trigger] counts[i] >= MIN_ROW_STITCHES,
{
    let mut counts: Vec<usize> = Vec::new();
    let n = ideal_counts.len();
    if n == 0 {
        assert(counts@.map_values(|c: usize| c as int) =~= Seq::<int>::empty());
        return counts;
    }
    counts.push(baseline);
    let ghost ideal = ideal_counts@.map_values(|c: usize| c as int);
    proof {
        assert(ideal.take(1).len() == 1);
        assert(counts@.map_values(|c: usize| c as int) =~= seq![baseline as int]);
    }
    let mut i: usize = 1;
    while i < n
        invariant
            1 <= i <= n,
            n == ideal_counts.len(),
            ideal == ideal_counts@.map_values(|c: usize| c as int),
            counts.len() == i,
            counts[0] == baseline,
            counts@.map_values(|c: usize| c as int) == solved_counts(
                ideal.take(i as int),
                baseline as int,
            ),
            forall|j: int|
                1 <= j < i ==> #[trigger] counts[j] == clamp_count(
                    counts[j - 1] as int,
                    ideal_counts[j] as int,
                ),
            forall|j: int|
                1 <= j < i ==> within_band(counts[j - 1] as int, #[trigger] counts[j] as int),
            forall|j: int| 1 <= j < i ==> #[trigger] counts[j] >= MIN_ROW_STITCHES,
        decreases n - i,
    {
        let prev = counts[i - 1];
        let next = clamp_stitch_count(prev, ideal_counts[i]);
        let ghost before = counts@.map_values(|c: usize| c as int);
        counts.push(next);
        proof {
            let longer = ideal.take(i as int + 1);
            assert(longer.drop_last() =~= ideal.take(i as int));
            assert(longer.last() == ideal_counts[i as int] as int);
            assert(before.last() == prev as int);
            assert(counts@.map_values(|c: usize| c as int) =~= before.push(next as int));
        }
        i += 1;
    }
    proof {
        assert(ideal.take(n as int) =~= ideal);
    }
    counts
}

/// Every solved count is at least the smaller of the baseline and the
/// minimum row size.
pub proof fn solved_counts_are_bounded_below(ideal: Seq<int>, baseline: int, i: int)
    requires
        0 <= i < ideal.len(),
    ensures
        solved_counts(ideal, baseline).len() == ideal.len(),
        solved_counts(ideal, baseline)[i] >= 6 || solved_counts(ideal, baseline)[i] == baseline,
    decreases ideal.len(),
{
    solved_counts_len(ideal, baseline);
    if ideal.len() > 1 {
        solved_counts_len(ideal.drop_last(), baseline);
        if i < ideal.len() - 1 {
            solved_counts_are_bounded_below(ideal.drop_last(), baseline, i);
        }
    }
}

/// Every pair of adjacent solved counts differs by at most
/// `max(6, floor(previous / 6))`, and every row after the first has at least
/// six stitches.
pub proof fn solved_counts_stay_in_band(ideal: Seq<int>, baseline: int, i: int)
    requires
        baseline >= 0,
        1 <= i < ideal.len(),
    ensures
        solved_counts(ideal, baseline).len() == ideal.len(),
        within_band(solved_counts(ideal, baseline)[i - 1], solved_counts(ideal, baseline)[i]),
        solved_counts(ideal, baseline)[i] >= 6,
    decreases ideal.len(),
{
    solved_counts_len(ideal, baseline);
    let before = solved_counts(ideal.drop_last(), baseline);
    solved_counts_len(ideal.drop_last(), baseline);
    assert(solved_counts(ideal, baseline) == before.push(
        clamp_count(before.last(), ideal.last()),
    ));
    if i < ideal.len() - 1 {
        solved_counts_stay_in_band(ideal.drop_last(), baseline, i);
    } else {
        solved_counts_are_bounded_below(ideal.drop_last(), baseline, i - 1);
    }
}

/// There is one solved count per ideal count.
pub proof fn solved_counts_len(ideal: Seq<int>, baseline: int)
    ensures
        solved_counts(ideal, baseline).len() == ideal.len(),
    decreases ideal.len(),
{
    if ideal.len() > 1 {
        solved_counts_len(ideal.drop_last(), baseline);
    }
}

/// The first solved row always has exactly `baseline` stitches.
pub proof fn solved_counts_start_at_baseline(ideal: Seq<int>, baseline: int)
    requires
        ideal.len() > 0,
    ensures
        solved_counts(ideal, baseline)[0] == baseline,
    decreases ideal.len(),
{
    if ideal.len() > 1 {
        solved_counts_len(ideal.drop_last(), baseline);
        solved_counts_start_at_baseline(ideal.drop_last(), baseline);
    }
}

/// A row whose ideal count equals the count of the row before it keeps that
/// count, provided the count is not below the minimum row size.
pub proof fn stable_count_is_kept(prev: int)
    requires
        prev >= 6,
    ensures
        clamp_count(prev, prev) == prev,
{
}

/// On a cylinder, where every row has the same ideal count `c` and the
/// baseline is `c` too, all solved counts equal `c`.
pub proof fn cylinder_counts_are_constant(ideal: Seq<int>, c: int, i: int)
    requires
        c >= 6,
        0 <= i < ideal.len(),
        forall|j: int| 1 <= j < ideal.len() ==> #[trigger] ideal[j] == c,
    ensures
        solved_counts(ideal, c)[i] == c,
    decreases ideal.len(),
{
    solved_counts_len(ideal, c);
    if ideal.len() == 1 {
    } else {
        let shorter = ideal.drop_last();
        solved_counts_len(shorter, c);
        cylinder_counts_are_constant(shorter, c, ideal.len() - 2);
        if i < ideal.len() - 1 {
            cylinder_counts_are_constant(shorter, c, i);
        }
    }
}

/// While the ideal count stays at `c`, solved counts below `c` never fall and
/// never overshoot: they climb toward `c`, and a row that has reached `c`
/// is followed by a row of `c` stitches.
pub proof fn counts_approach_constant_ideal(prev: int, c: int)
    requires
        c >= 6,
        6 <= prev <= c,
    ensures
        prev <= clamp_count(prev, c) <= c,
        prev < c ==> clamp_count(prev, c) > prev,
{
}

} // verus!

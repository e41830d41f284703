//! Row composer: the instruction sequence of each row, its consumption and
//! production totals, and the assembly of validated rows into a pattern.

use vstd::prelude::*;
use vstd::string::*;
use vstd::arithmetic::div_mod::lemma_fundamental_div_mod;
use vstd::arithmetic::div_mod::lemma_mod_bound;
use crate::types::StitchType;
use crate::types::StitchInstruction;
use crate::types::Row;
use crate::types::PatternMetadata;
use crate::types::CrochetPattern;
use crate::types::PatternError;
use crate::types::consumed;
use crate::types::produced;
use crate::types::count_kind;
use crate::text::decimal_text;
use crate::text::push_decimal;
use crate::stitch_count::calculate_stitch_counts;
use crate::stitch_count::solved_counts;
use crate::stitch_count::solved_counts_stay_in_band;
use crate::stitch_count::solved_counts_are_bounded_below;
use crate::stitch_count::within_band;

verus! {

/// How many special stitches the placement schedule wants to have been placed
/// once `i` of the `prev` previous-row stitches are used: `ceil(i * delta / prev)`.
pub open spec fn schedule(i: int, delta: int, prev: int) -> int {
    (i * delta + prev - 1) / prev
}

/// An instruction of kind `kind` worked into previous-row stitch `i`.
pub open spec fn instruction_at(kind: StitchType, i: int) -> StitchInstruction {
    StitchInstruction { stitch_type: kind, stitch_index: i as usize }
}

/// A row of `n` single crochets.
pub open spec fn plain_pattern(n: int) -> Seq<StitchInstruction> {
    Seq::new(n as nat, |i: int| instruction_at(StitchType::SC, i))
}

/// Kind of instruction `i` in a row that grows by `delta` over `prev`
/// stitches: an increase wherever the schedule steps up.
pub open spec fn increase_kind(i: int, delta: int, prev: int) -> StitchType {
    if delta >= prev || schedule(i + 1, delta, prev) > schedule(i, delta, prev) {
        StitchType::INC
    } else {
        StitchType::SC
    }
}

/// The row that grows by `delta` over `prev` stitches.
pub open spec fn increase_pattern(prev: int, delta: int) -> Seq<StitchInstruction> {
    Seq::new(prev as nat, |i: int| instruction_at(increase_kind(i, delta, prev), i))
}

/// The rest of a shrinking row from previous-row stitch `i` on, when `placed`
/// invisible decreases have been made so far and `d` are wanted in all. A
/// decrease is made when the schedule asks for more than were placed and a
/// second stitch is left to work it across.
pub open spec fn decrease_pattern(i: int, placed: int, prev: int, d: int) -> Seq<StitchInstruction>
    decreases prev - i,
{
    if i < 0 || i >= prev {
        Seq::empty()
    } else if placed < schedule(i + 1, d, prev) && i + 1 < prev {
        seq![instruction_at(StitchType::INVDEC, i)] + decrease_pattern(i + 2, placed + 1, prev, d)
    } else {
        seq![instruction_at(StitchType::SC, i)] + decrease_pattern(i + 1, placed, prev, d)
    }
}

/// The instruction sequence of a row worked over `prev` stitches that should
/// leave `total` stitches.
pub open spec fn row_pattern(prev: int, total: int) -> Seq<StitchInstruction> {
    if total == prev {
        plain_pattern(prev)
    } else if total > prev {
        increase_pattern(prev, total - prev)
    } else {
        decrease_pattern(0, 0, prev, prev - total)
    }
}

/// A row can reach `total` from `prev` stitches: it may at most double and at
/// most halve.
pub open spec fn feasible(prev: int, total: int) -> bool {
    prev <= 2 * total && total <= 2 * prev
}

proof fn lemma_schedule_bounds(i: int, delta: int, prev: int)
    requires
        prev > 0,
        i >= 0,
        delta >= 0,
    ensures
        i * delta <= schedule(i, delta, prev) * prev < i * delta + prev,
        schedule(i, delta, prev) >= 0,
{
    let x = i * delta + prev - 1;
    let q = x / prev;
    assert(i * delta >= 0) by (nonlinear_arith)
        requires
            i >= 0,
            delta >= 0,
    ;
    lemma_fundamental_div_mod(x, prev);
    lemma_mod_bound(x, prev);
    assert(prev * q == q * prev) by (nonlinear_arith);
    assert(q >= 0) by (nonlinear_arith)
        requires
            q * prev > -prev,
            prev > 0,
    ;
}

proof fn lemma_schedule_unique(i: int, delta: int, prev: int, t: int)
    requires
        prev > 0,
        i >= 0,
        delta >= 0,
        i * delta <= t * prev < i * delta + prev,
    ensures
        schedule(i, delta, prev) == t,
{
    lemma_schedule_bounds(i, delta, prev);
    let s = schedule(i, delta, prev);
    assert(s == t) by (nonlinear_arith)
        requires
            prev > 0,
            i * delta <= t * prev < i * delta + prev,
            i * delta <= s * prev < i * delta + prev,
    ;
}

proof fn lemma_schedule_ends(delta: int, prev: int)
    requires
        prev > 0,
        delta >= 0,
    ensures
        schedule(0, delta, prev) == 0,
        schedule(prev, delta, prev) == delta,
{
    assert(0 * delta == 0);
    assert(0 * prev == 0);
    lemma_schedule_unique(0, delta, prev, 0);
    assert(prev * delta == delta * prev) by (nonlinear_arith);
    lemma_schedule_unique(prev, delta, prev, delta);
}

proof fn lemma_schedule_step(i: int, delta: int, prev: int)
    requires
        prev > 0,
        i >= 0,
        0 <= delta <= prev,
    ensures
        schedule(i, delta, prev) <= schedule(i + 1, delta, prev) <= schedule(i, delta, prev) + 1,
{
    lemma_schedule_bounds(i, delta, prev);
    lemma_schedule_bounds(i + 1, delta, prev);
    let a = schedule(i, delta, prev);
    let b = schedule(i + 1, delta, prev);
    assert((i + 1) * delta == i * delta + delta) by (nonlinear_arith);
    assert(a <= b <= a + 1) by (nonlinear_arith)
        requires
            prev > 0,
            0 <= delta <= prev,
            i * delta <= a * prev < i * delta + prev,
            i * delta + delta <= b * prev < i * delta + delta + prev,
    ;
}

proof fn lemma_schedule_double_step(i: int, d: int, prev: int)
    requires
        prev > 0,
        i >= 0,
        0 <= d,
        2 * d <= prev,
    ensures
        schedule(i + 2, d, prev) <= schedule(i, d, prev) + 1,
{
    lemma_schedule_bounds(i, d, prev);
    lemma_schedule_bounds(i + 2, d, prev);
    let a = schedule(i, d, prev);
    let b = schedule(i + 2, d, prev);
    assert((i + 2) * d == i * d + 2 * d) by (nonlinear_arith);
    assert(b <= a + 1) by (nonlinear_arith)
        requires
            prev > 0,
            0 <= d,
            2 * d <= prev,
            i * d <= a * prev < i * d + prev,
            i * d + 2 * d <= b * prev < i * d + 2 * d + prev,
    ;
}

proof fn lemma_schedule_last_step(d: int, prev: int)
    requires
        prev > 0,
        0 < d < prev,
    ensures
        schedule(prev - 1, d, prev) == d,
{
    assert((prev - 1) * d == d * prev - d) by (nonlinear_arith);
    lemma_schedule_unique(prev - 1, d, prev, d);
}

/// Totals of a sequence extended by one instruction.
pub proof fn lemma_totals_push(s: Seq<StitchInstruction>, x: StitchInstruction)
    ensures
        consumed(s.push(x)) == consumed(s) + x.stitch_type.consumes(),
        produced(s.push(x)) == produced(s) + x.stitch_type.produces(),
        forall|k: StitchType|
            count_kind(s.push(x), k) == count_kind(s, k) + if x.stitch_type == k {
                1nat
            } else {
                0nat
            },
{
    assert(s.push(x).drop_last() =~= s);
}

/// Totals of two sequences worked one after the other.
pub proof fn lemma_totals_concat(a: Seq<StitchInstruction>, b: Seq<StitchInstruction>)
    ensures
        consumed(a + b) == consumed(a) + consumed(b),
        produced(a + b) == produced(a) + produced(b),
        forall|k: StitchType| count_kind(a + b, k) == count_kind(a, k) + count_kind(b, k),
    decreases b.len(),
{
    if b.len() == 0 {
        assert(a + b =~= a);
    } else {
        lemma_totals_concat(a, b.drop_last());
        assert((a + b).drop_last() =~= a + b.drop_last());
        assert forall|k: StitchType|
            count_kind(a + b, k) == count_kind(a, k) + count_kind(b, k) by {
            assert(count_kind(a + b.drop_last(), k) == count_kind(a, k) + count_kind(
                b.drop_last(),
                k,
            ));
        }
    }
}

proof fn lemma_plain_totals(n: int, k: int)
    requires
        0 <= k <= n,
    ensures
        consumed(plain_pattern(n).take(k)) == k,
        produced(plain_pattern(n).take(k)) == k,
        count_kind(plain_pattern(n).take(k), StitchType::SC) == k,
    decreases k,
{
    let s = plain_pattern(n);
    if k > 0 {
        lemma_plain_totals(n, k - 1);
        assert(s.take(k).drop_last() =~= s.take(k - 1));
    }
}

/// In a growing row the increases follow the schedule: among the first `k`
/// instructions there are exactly `ceil(k * delta / prev)` increases (all `k`
/// where the row would have to more than double), and every instruction uses
/// one stitch.
pub proof fn increases_follow_schedule(prev: int, delta: int, k: int)
    requires
        prev > 0,
        delta >= 0,
        0 <= k <= prev,
    ensures
        consumed(increase_pattern(prev, delta).take(k)) == k,
        produced(increase_pattern(prev, delta).take(k)) == k + if delta >= prev {
            k
        } else {
            schedule(k, delta, prev)
        },
        count_kind(increase_pattern(prev, delta).take(k), StitchType::INC) == if delta >= prev {
            k
        } else {
            schedule(k, delta, prev)
        },
    decreases k,
{
    let s = increase_pattern(prev, delta);
    if k == 0 {
        lemma_schedule_ends(delta, prev);
    } else {
        increases_follow_schedule(prev, delta, k - 1);
        assert(s.take(k).drop_last() =~= s.take(k - 1));
        if delta < prev {
            lemma_schedule_step(k - 1, delta, prev);
        }
    }
}

proof fn lemma_decrease_consumed(i: int, placed: int, prev: int, d: int)
    requires
        0 <= i <= prev,
    ensures
        consumed(decrease_pattern(i, placed, prev, d)) == prev - i,
        produced(decrease_pattern(i, placed, prev, d)) == decrease_pattern(
            i,
            placed,
            prev,
            d,
        ).len(),
        count_kind(decrease_pattern(i, placed, prev, d), StitchType::INVDEC) == prev - i
            - decrease_pattern(i, placed, prev, d).len(),
        2 * decrease_pattern(i, placed, prev, d).len() >= prev - i,
    decreases prev - i,
{
    if i < prev {
        if placed < schedule(i + 1, d, prev) && i + 1 < prev {
            let head = seq![instruction_at(StitchType::INVDEC, i)];
            lemma_decrease_consumed(i + 2, placed + 1, prev, d);
            lemma_totals_concat(head, decrease_pattern(i + 2, placed + 1, prev, d));
            lemma_totals_push(Seq::empty(), instruction_at(StitchType::INVDEC, i));
            assert(head =~= Seq::<StitchInstruction>::empty().push(
                instruction_at(StitchType::INVDEC, i),
            ));
        } else {
            let head = seq![instruction_at(StitchType::SC, i)];
            lemma_decrease_consumed(i + 1, placed, prev, d);
            lemma_totals_concat(head, decrease_pattern(i + 1, placed, prev, d));
            lemma_totals_push(Seq::empty(), instruction_at(StitchType::SC, i));
            assert(head =~= Seq::<StitchInstruction>::empty().push(
                instruction_at(StitchType::SC, i),
            ));
        }
    }
}

proof fn lemma_decrease_length(i: int, prev: int, d: int)
    requires
        0 <= i <= prev,
        0 < d,
        2 * d <= prev,
    ensures
        decrease_pattern(i, schedule(i, d, prev), prev, d).len() == (prev - i) - (d - schedule(
            i,
            d,
            prev,
        )),
    decreases prev - i,
{
    let placed = schedule(i, d, prev);
    lemma_schedule_ends(d, prev);
    if i < prev {
        lemma_schedule_step(i, d, prev);
        if placed < schedule(i + 1, d, prev) && i + 1 < prev {
            lemma_schedule_step(i + 1, d, prev);
            lemma_schedule_double_step(i, d, prev);
            lemma_decrease_length(i + 2, prev, d);
        } else {
            if i + 1 == prev {
                lemma_schedule_last_step(d, prev);
            }
            lemma_decrease_length(i + 1, prev, d);
        }
    }
}

/// Whatever the target, a composed row uses every stitch of the previous row
/// exactly once; and it reaches its target exactly when the target is
/// feasible, that is when the row neither more than doubles nor more than
/// halves.
pub proof fn row_pattern_totals(prev: int, total: int)
    requires
        0 <= prev,
        0 <= total,
    ensures
        consumed(row_pattern(prev, total)) == prev,
        produced(row_pattern(prev, total)) == total <==> feasible(prev, total),
        feasible(prev, total) && total >= prev ==> row_pattern(prev, total).len() == prev
            && count_kind(row_pattern(prev, total), StitchType::INC) == total - prev,
        feasible(prev, total) && total < prev ==> row_pattern(prev, total).len() == total
            && count_kind(row_pattern(prev, total), StitchType::INVDEC) == prev - total,
{
    if total == prev {
        lemma_plain_totals(prev, prev);
        assert(plain_pattern(prev).take(prev) =~= plain_pattern(prev));
        lemma_no_increase_in_plain(prev, prev);
    } else if total > prev {
        if prev > 0 {
            let delta = total - prev;
            increases_follow_schedule(prev, delta, prev);
            assert(increase_pattern(prev, delta).take(prev) =~= increase_pattern(prev, delta));
            lemma_schedule_ends(delta, prev);
        } else {
            assert(increase_pattern(prev, total - prev) =~= Seq::empty());
        }
    } else {
        let d = prev - total;
        lemma_decrease_consumed(0, 0, prev, d);
        if 2 * d <= prev {
            lemma_schedule_ends(d, prev);
            lemma_decrease_length(0, prev, d);
        }
    }
}

proof fn lemma_no_increase_in_plain(n: int, k: int)
    requires
        0 <= k <= n,
    ensures
        count_kind(plain_pattern(n).take(k), StitchType::INC) == 0,
    decreases k,
{
    if k > 0 {
        lemma_no_increase_in_plain(n, k - 1);
        assert(plain_pattern(n).take(k).drop_last() =~= plain_pattern(n).take(k - 1));
    }
}

/// Executable form of [`schedule`].
fn schedule_at(i: usize, delta: usize, prev: usize) -> (t: u128)
    requires
        prev > 0,
    ensures
        t == schedule(i as int, delta as int, prev as int),
{
    assert((i as int) * (delta as int) <= 0xFFFF_FFFF_FFFF_FFFF * 0xFFFF_FFFF_FFFF_FFFF)
        by (nonlinear_arith)
        requires
            0 <= i <= 0xFFFF_FFFF_FFFF_FFFF,
            0 <= delta <= 0xFFFF_FFFF_FFFF_FFFF,
    ;
    assert((i as int) * (delta as int) >= 0) by (nonlinear_arith)
        requires
            0 <= i,
            0 <= delta,
    ;
    let numerator: u128 = (i as u128) * (delta as u128) + (prev as u128) - 1;
    numerator / (prev as u128)
}

/// Composes the instructions of one row worked over `prev_stitches` stitches
/// that should leave `total_stitches`. Equal counts give single crochets
/// only; a growing row gets its increases where the schedule steps up; a
/// shrinking row gets invisible decreases as the schedule asks for them, each
/// worked across two stitches.
#[verifier::rlimit(40)]
pub fn generate_row_pattern(_row_number: usize, prev_stitches: usize, total_stitches: usize) -> (pattern:
    Vec<StitchInstruction>)
    ensures
        pattern@ == row_pattern(prev_stitches as int, total_stitches as int),
        consumed(pattern@) == prev_stitches,
        produced(pattern@) == total_stitches <==> feasible(
            prev_stitches as int,
            total_stitches as int,
        ),
        total_stitches >= prev_stitches ==> pattern.len() == prev_stitches,
{
    let prev = prev_stitches;
    let mut pattern: Vec<StitchInstruction> = Vec::new();
    proof {
        row_pattern_totals(prev as int, total_stitches as int);
    }
    if total_stitches == prev {
        let mut i: usize = 0;
        while i < prev
            invariant
                i <= prev,
                pattern.len() == i,
                forall|j: int| 0 <= j < i ==> pattern[j] == instruction_at(StitchType::SC, j),
            decreases prev - i,
        {
            pattern.push(StitchInstruction { stitch_type: StitchType::SC, stitch_index: i });
            i += 1;
        }
        assert(pattern@ =~= plain_pattern(prev as int));
    } else if total_stitches > prev {
        let delta = total_stitches - prev;
        let mut i: usize = 0;
        let mut reached: u128 = 0;
        proof {
            if prev > 0 {
                lemma_schedule_ends(delta as int, prev as int);
            }
        }
        while i < prev
            invariant
                i <= prev,
                delta == total_stitches - prev,
                prev > 0 ==> reached == schedule(i as int, delta as int, prev as int),
                pattern.len() == i,
                forall|j: int|
                    0 <= j < i ==> pattern[j] == instruction_at(
                        increase_kind(j, delta as int, prev as int),
                        j,
                    ),
            decreases prev - i,
        {
            let next = schedule_at(i + 1, delta, prev);
            let kind = if delta >= prev || next > reached {
                StitchType::INC
            } else {
                StitchType::SC
            };
            pattern.push(StitchInstruction { stitch_type: kind, stitch_index: i });
            reached = next;
            i += 1;
        }
        assert(pattern@ =~= increase_pattern(prev as int, delta as int));
    } else {
        let d = prev - total_stitches;
        let mut i: usize = 0;
        let mut placed: usize = 0;
        let ghost whole = decrease_pattern(0, 0, prev as int, d as int);
        while i < prev
            invariant
                i <= prev,
                placed <= i,
                whole == decrease_pattern(0, 0, prev as int, d as int),
                pattern@ + decrease_pattern(i as int, placed as int, prev as int, d as int)
                    == whole,
            decreases prev - i,
        {
            let target = schedule_at(i + 1, d, prev);
            let ghost before = pattern@;
            if (placed as u128) < target && i + 1 < prev {
                pattern.push(StitchInstruction { stitch_type: StitchType::INVDEC, stitch_index: i });
                proof {
                    let rest = decrease_pattern(i + 2, placed + 1, prev as int, d as int);
                    assert(pattern@ + rest =~= before + (seq![
                        instruction_at(StitchType::INVDEC, i as int),
                    ] + rest));
                }
                placed += 1;
                i += 2;
            } else {
                pattern.push(StitchInstruction { stitch_type: StitchType::SC, stitch_index: i });
                proof {
                    let rest = decrease_pattern(i + 1, placed as int, prev as int, d as int);
                    assert(pattern@ + rest =~= before + (seq![
                        instruction_at(StitchType::SC, i as int),
                    ] + rest));
                }
                i += 1;
            }
        }
        assert(pattern@ =~= pattern@ + Seq::<StitchInstruction>::empty());
    }
    pattern
}

/// Detail of the error for a row that does not use up the previous row.
pub open spec fn consumption_mismatch(row_number: nat, used: nat, prev: nat) -> Seq<char> {
    "Row "@ + decimal_text(row_number) + ": pattern consumes "@ + decimal_text(used)
        + " stitches but previous row has "@ + decimal_text(prev)
}

/// Detail of the error for a row that does not make its stated total.
pub open spec fn production_mismatch(row_number: nat, made: nat, total: nat) -> Seq<char> {
    "Row "@ + decimal_text(row_number) + ": pattern produces "@ + decimal_text(made)
        + " stitches but expects "@ + decimal_text(total)
}

/// Detail of the error for a row that does not close over a previous row of
/// `prev` stitches: the consumption is reported where it is wrong, the
/// production otherwise.
pub open spec fn mismatch_text(row: Row, prev: int) -> Seq<char> {
    if consumed(row.pattern@) != prev {
        consumption_mismatch(row.row_number as nat, consumed(row.pattern@), prev as nat)
    } else {
        production_mismatch(
            row.row_number as nat,
            produced(row.pattern@),
            row.total_stitches as nat,
        )
    }
}

/// Checks that `row` uses exactly the `prev_row_stitches` stitches of the row
/// before it and makes exactly the total it states.
#[verifier::rlimit(40)]
pub fn validate_pattern(row: &Row, prev_row_stitches: usize) -> (r: Result<(), PatternError>)
    ensures
        r is Ok <==> row.closes_over(prev_row_stitches as nat),
        r matches Err(e) ==> e is PatternInconsistency && e.detail() == mismatch_text(
            *row,
            prev_row_stitches as int,
        ),
{
    let mut used: u128 = 0;
    let mut made: u128 = 0;
    let mut i: usize = 0;
    let n = row.pattern.len();
    while i < n
        invariant
            i <= n,
            n == row.pattern.len(),
            used == consumed(row.pattern@.take(i as int)),
            made == produced(row.pattern@.take(i as int)),
            used <= 2 * i,
            made <= 2 * i,
        decreases n - i,
    {
        let kind = row.pattern[i].stitch_type;
        proof {
            lemma_totals_push(row.pattern@.take(i as int), row.pattern@[i as int]);
            assert(row.pattern@.take(i + 1) =~= row.pattern@.take(i as int).push(
                row.pattern@[i as int],
            ));
        }
        used = used + kind.consumed_stitches() as u128;
        made = made + kind.produced_stitches() as u128;
        i += 1;
    }
    assert(row.pattern@.take(n as int) =~= row.pattern@);
    if used != prev_row_stitches as u128 {
        let text = String::from_str("Row ");
        let text = push_decimal(text, row.row_number as u128);
        let text = text.concat(": pattern consumes ");
        let text = push_decimal(text, used);
        let text = text.concat(" stitches but previous row has ");
        let text = push_decimal(text, prev_row_stitches as u128);
        return Err(PatternError::PatternInconsistency(text));
    }
    if made != row.total_stitches as u128 {
        let text = String::from_str("Row ");
        let text = push_decimal(text, row.row_number as u128);
        let text = text.concat(": pattern produces ");
        let text = push_decimal(text, made);
        let text = text.concat(" stitches but expects ");
        let text = push_decimal(text, row.total_stitches as u128);
        return Err(PatternError::PatternInconsistency(text));
    }
    Ok(())
}

/// The instructions of row `i` of the pattern for the stitch counts `counts`:
/// the first row is the magic ring of single crochets, every later row is
/// composed against the row before it.
pub open spec fn composed_pattern(counts: Seq<usize>, i: int) -> Seq<StitchInstruction> {
    if i == 0 {
        plain_pattern(counts[0] as int)
    } else {
        row_pattern(counts[i - 1] as int, counts[i] as int)
    }
}

/// `rows` is the pattern composed for the stitch counts `counts`.
pub open spec fn rows_composed_from(rows: Seq<Row>, counts: Seq<usize>) -> bool {
    &&& rows.len() == counts.len()
    &&& forall|i: int|
        0 <= i < rows.len() ==> {
            &&& (#[trigger] rows[i]).row_number == i + 1
            &&& rows[i].total_stitches == counts[i]
            &&& rows[i].pattern@ == composed_pattern(counts, i)
        }
}

/// Every row after the first uses exactly the stitches of the row before it
/// and makes exactly its own total.
pub open spec fn all_rows_close(rows: Seq<Row>) -> bool {
    forall|i: int|
        1 <= i < rows.len() ==> (#[trigger] rows[i]).closes_over(rows[i - 1].total_stitches as nat)
}

/// Row `i` is the first row that does not close over the row before it.
pub open spec fn first_open_row(rows: Seq<Row>, i: int) -> bool {
    &&& 1 <= i < rows.len()
    &&& !rows[i].closes_over(rows[i - 1].total_stitches as nat)
    &&& forall|j: int|
        1 <= j < i ==> (#[trigger] rows[j]).closes_over(rows[j - 1].total_stitches as nat)
}

/// A row pattern between equal counts is worked in single crochets alone: a
/// row that keeps the count of the row before it has no increase and no
/// decrease.
pub proof fn stable_rows_are_plain(count: int)
    requires
        0 <= count,
    ensures
        row_pattern(count, count) == plain_pattern(count),
        row_pattern(count, count).len() == count,
        forall|i: int|
            0 <= i < count ==> (#[trigger] row_pattern(count, count)[i]).stitch_type
                == StitchType::SC,
{
}

/// Composes one row per stitch count, numbered from 1.
pub fn compose_rows(stitch_counts: &Vec<usize>) -> (rows: Vec<Row>)
    ensures
        rows_composed_from(rows@, stitch_counts@),
{
    let mut rows: Vec<Row> = Vec::new();
    let n = stitch_counts.len();
    let mut i: usize = 0;
    while i < n
        invariant
            i <= n,
            n == stitch_counts.len(),
            rows.len() == i,
            forall|j: int|
                0 <= j < i ==> {
                    &&& (#[trigger] rows[j]).row_number == j + 1
                    &&& rows[j].total_stitches == stitch_counts[j]
                    &&& rows[j].pattern@ == composed_pattern(stitch_counts@, j)
                },
        decreases n - i,
    {
        let total = stitch_counts[i];
        let pattern = if i == 0 {
            generate_row_pattern(1, total, total)
        } else {
            generate_row_pattern(i + 1, stitch_counts[i - 1], total)
        };
        rows.push(Row { row_number: i + 1, total_stitches: total, pattern });
        i += 1;
    }
    rows
}

/// Sum of the stated totals of `rows`.
pub open spec fn total_stitch_sum(rows: Seq<Row>) -> nat
    decreases rows.len(),
{
    if rows.len() == 0 {
        0
    } else {
        total_stitch_sum(rows.drop_last()) + rows.last().total_stitches as nat
    }
}

proof fn lemma_stitch_sum_grows(rows: Seq<Row>, k: int)
    requires
        0 <= k <= rows.len(),
    ensures
        total_stitch_sum(rows.take(k)) <= total_stitch_sum(rows),
    decreases rows.len(),
{
    if k == rows.len() {
        assert(rows.take(k) =~= rows);
    } else {
        lemma_stitch_sum_grows(rows.drop_last(), k);
        assert(rows.drop_last().take(k) =~= rows.take(k));
    }
}

/// Row count, stitch count and time estimate (two seconds a stitch) of
/// `rows`. There is no result when the time estimate does not fit the
/// machine word.
pub fn calculate_metadata(rows: &Vec<Row>) -> (r: Option<PatternMetadata>)
    ensures
        r is Some <==> 2 * total_stitch_sum(rows@) <= usize::MAX,
        r matches Some(m) ==> {
            &&& m.total_rows == rows.len()
            &&& m.total_stitches == total_stitch_sum(rows@)
            &&& m.estimated_time_seconds == 2 * total_stitch_sum(rows@)
        },
{
    let mut sum: usize = 0;
    let mut i: usize = 0;
    let n = rows.len();
    while i < n
        invariant
            i <= n,
            n == rows.len(),
            sum == total_stitch_sum(rows@.take(i as int)),
        decreases n - i,
    {
        let add = rows[i].total_stitches;
        proof {
            assert(rows@.take(i + 1).drop_last() =~= rows@.take(i as int));
            lemma_stitch_sum_grows(rows@, i + 1);
        }
        if add > usize::MAX - sum {
            return None;
        }
        sum = sum + add;
        i += 1;
    }
    assert(rows@.take(n as int) =~= rows@);
    if sum > usize::MAX / 2 {
        return None;
    }
    Some(PatternMetadata { total_rows: n, total_stitches: sum, estimated_time_seconds: sum * 2 })
}

/// Turns composed (and possibly rearranged) rows into a pattern. The rows are
/// rejected as inconsistent unless every row after the first closes over the
/// row before it; the first row that does not is the one reported.
pub fn assemble_pattern(rows: Vec<Row>) -> (r: Result<CrochetPattern, PatternError>)
    ensures
        r is Ok <==> all_rows_close(rows@) && 2 * total_stitch_sum(rows@) <= usize::MAX,
        r matches Ok(p) ==> {
            &&& p.rows@ == rows@
            &&& p.metadata.total_rows == rows.len()
            &&& p.metadata.total_stitches == total_stitch_sum(rows@)
            &&& p.metadata.estimated_time_seconds == 2 * total_stitch_sum(rows@)
        },
        r matches Err(e) ==> if all_rows_close(rows@) {
            e is InternalError && e.detail() == "Stitch total exceeds the machine word"@
        } else {
            e is PatternInconsistency && exists|i: int| #[trigger]
                first_open_row(rows@, i) && e.detail() == mismatch_text(
                    rows[i],
                    rows[i - 1].total_stitches as int,
                )
        },
{
    let n = rows.len();
    let mut i: usize = 1;
    while i < n
        invariant
            1 <= i,
            n == rows.len(),
            forall|j: int|
                1 <= j < i && j < n ==> (#[trigger] rows[j]).closes_over(
                    rows[j - 1].total_stitches as nat,
                ),
        decreases n - i,
    {
        match validate_pattern(&rows[i], rows[i - 1].total_stitches) {
            Ok(()) => {},
            Err(e) => {
                assert(!rows[i as int].closes_over(rows[i - 1].total_stitches as nat));
                assert(first_open_row(rows@, i as int));
                return Err(e);
            },
        }
        i += 1;
    }
    match calculate_metadata(&rows) {
        Some(metadata) => Ok(CrochetPattern { rows, metadata }),
        None => Err(
            PatternError::InternalError(String::from_str("Stitch total exceeds the machine word")),
        ),
    }
}

/// Two solved counts that follow each other are always feasible for the row
/// composer, provided the magic ring has at least six stitches.
pub proof fn solved_counts_are_feasible(ideal: Seq<int>, baseline: int, i: int)
    requires
        baseline >= 6,
        1 <= i < ideal.len(),
    ensures
        feasible(solved_counts(ideal, baseline)[i - 1], solved_counts(ideal, baseline)[i]),
{
    solved_counts_stay_in_band(ideal, baseline, i);
    solved_counts_are_bounded_below(ideal, baseline, i - 1);
}

/// Counts that stay in the band and at or above six stitches compose into
/// rows that all close: each row after the first uses exactly the stitches of
/// the row before it and makes exactly its own total.
pub proof fn banded_rows_close(rows: Seq<Row>, counts: Seq<usize>)
    requires
        rows_composed_from(rows, counts),
        forall|i: int| 0 <= i < counts.len() ==> #[trigger] counts[i] >= 6,
        forall|i: int|
            1 <= i < counts.len() ==> within_band(counts[i - 1] as int, #[trigger] counts[i] as int),
    ensures
        all_rows_close(rows),
{
    assert forall|i: int| 1 <= i < rows.len() implies (#[trigger] rows[i]).closes_over(
        rows[i - 1].total_stitches as nat,
    ) by {
        assert(counts[i] >= 6);
        assert(counts[i - 1] >= 6);
        assert(within_band(counts[i - 1] as int, counts[i] as int));
        assert(rows[i - 1].total_stitches == counts[i - 1]);
        row_pattern_totals(counts[i - 1] as int, counts[i] as int);
    }
}

/// Solves the stitch counts for `ideal_counts` and composes the rows. With a
/// magic ring of at least six stitches every row closes over the one before.
pub fn plan_rows(ideal_counts: &Vec<usize>, baseline: usize) -> (rows: Vec<Row>)
    ensures
        rows.len() == ideal_counts.len(),
        exists|counts: Seq<usize>|
            {
                &&& #[trigger] rows_composed_from(rows@, counts)
                &&& counts.map_values(|c: usize| c as int) == solved_counts(
                    ideal_counts@.map_values(|c: usize| c as int),
                    baseline as int,
                )
            },
        rows.len() > 0 ==> rows[0].total_stitches == baseline && rows[0].pattern@ == plain_pattern(
            baseline as int,
        ),
        baseline >= 6 ==> all_rows_close(rows@),
{
    let counts = calculate_stitch_counts(ideal_counts, baseline);
    let rows = compose_rows(&counts);
    proof {
        if baseline >= 6 {
            banded_rows_close(rows@, counts@);
        }
    }
    rows
}

/// What validation needs to know about a profile curve. The comparisons of
/// coordinates are made by the caller; a discontinuity is a pair of
/// neighbouring segments whose end and start lie more than 1e-6 apart, named
/// by the index of the later segment.
#[derive(Debug, Clone, Copy, PartialEq, Eq, Structural)]
pub struct CurveFacts {
    pub segment_count: usize,
    pub start_radius_negative: bool,
    pub end_radius_negative: bool,
    pub first_discontinuity: Option<usize>,
}

/// What validation needs to know about a configuration: which of its
/// figures are greater than zero.
#[derive(Debug, Clone, Copy, PartialEq, Eq, Structural)]
pub struct ConfigFacts {
    pub height_positive: bool,
    pub stitch_gauge_positive: bool,
    pub row_gauge_positive: bool,
    pub hook_size_positive: bool,
}

impl CurveFacts {
    /// The curve has segments, non-negative end radii and no gap between
    /// neighbouring segments.
    pub open spec fn acceptable(self) -> bool {
        &&& self.segment_count > 0
        &&& !self.start_radius_negative
        &&& !self.end_radius_negative
        &&& self.first_discontinuity is None
    }

    /// Detail of the error for the first thing that is wrong with the curve.
    pub open spec fn complaint(self) -> Seq<char> {
        if self.segment_count == 0 {
            "Curve has no segments"@
        } else if self.start_radius_negative {
            "Start radius must be non-negative"@
        } else if self.end_radius_negative {
            "End radius must be non-negative"@
        } else {
            "Curve segments are not continuous"@
        }
    }
}

impl ConfigFacts {
    /// Height, both gauges and the hook size are all greater than zero.
    pub open spec fn acceptable(self) -> bool {
        &&& self.height_positive
        &&& self.stitch_gauge_positive
        &&& self.row_gauge_positive
        &&& self.hook_size_positive
    }

    /// Detail of the error for the first figure that is not positive.
    pub open spec fn complaint(self) -> Seq<char> {
        if !self.height_positive {
            "Height must be positive"@
        } else if !self.stitch_gauge_positive {
            "Gauge stitches per cm must be positive"@
        } else if !self.row_gauge_positive {
            "Gauge rows per cm must be positive"@
        } else {
            "Hook size must be positive"@
        }
    }
}

/// Validates a profile curve: an empty curve, a negative end radius and a
/// gap between neighbouring segments are refused, in that order.
pub fn validate_curve(facts: &CurveFacts) -> (r: Result<(), PatternError>)
    ensures
        r is Ok <==> facts.acceptable(),
        r matches Err(e) ==> e is InvalidProfileCurve && e.detail() == facts.complaint(),
{
    if facts.segment_count == 0 {
        return Err(PatternError::InvalidProfileCurve(String::from_str("Curve has no segments")));
    }
    if facts.start_radius_negative {
        return Err(
            PatternError::InvalidProfileCurve(String::from_str("Start radius must be non-negative")),
        );
    }
    if facts.end_radius_negative {
        return Err(
            PatternError::InvalidProfileCurve(String::from_str("End radius must be non-negative")),
        );
    }
    if facts.first_discontinuity.is_some() {
        return Err(
            PatternError::InvalidProfileCurve(String::from_str("Curve segments are not continuous")),
        );
    }
    Ok(())
}

/// Validates a configuration: a height, gauge or hook size that is zero or
/// negative is refused.
pub fn validate_config(facts: &ConfigFacts) -> (r: Result<(), PatternError>)
    ensures
        r is Ok <==> facts.acceptable(),
        r matches Err(e) ==> e is InvalidConfiguration && e.detail() == facts.complaint(),
{
    if !facts.height_positive {
        return Err(PatternError::InvalidConfiguration(String::from_str("Height must be positive")));
    }
    if !facts.stitch_gauge_positive {
        return Err(
            PatternError::InvalidConfiguration(
                String::from_str("Gauge stitches per cm must be positive"),
            ),
        );
    }
    if !facts.row_gauge_positive {
        return Err(
            PatternError::InvalidConfiguration(String::from_str("Gauge rows per cm must be positive")),
        );
    }
    if !facts.hook_size_positive {
        return Err(PatternError::InvalidConfiguration(String::from_str("Hook size must be positive")));
    }
    Ok(())
}

} // verus!

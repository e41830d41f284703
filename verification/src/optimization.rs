//! Placement of the special stitches of a row: the integer side of the
//! annealer. The energy of an arrangement and the acceptance of a proposal are
//! numeric work done by the caller; everything that moves positions around,
//! and keeps a row's totals intact while doing so, lives here.

use vstd::prelude::*;
use vstd::arithmetic::div_mod::lemma_fundamental_div_mod;
use vstd::arithmetic::div_mod::lemma_mod_bound;
use vstd::arithmetic::div_mod::lemma_mod_multiples_vanish;
use crate::types::StitchType;
use crate::types::StitchInstruction;
use crate::types::Row;
use crate::types::consumed;
use crate::types::produced;
use crate::types::count_kind;
use crate::generator::instruction_at;
use crate::generator::all_rows_close;
use crate::generator::plain_pattern;
use rand::Rng;
use rand::SeedableRng;
use rand_chacha::ChaCha8Rng;

verus! {

/// Seed of the placement annealer's generator.
pub const PLACEMENT_SEED: u64 = 42;

/// The ChaCha generator with eight rounds of the `rand_chacha` crate, carried
/// through as an opaque value.
#[verifier::external_type_specification]
#[verifier::external_body]
pub struct ExChaCha8Rng(rand_chacha::ChaCha8Rng);

/// Calls `ChaCha8Rng::seed_from_u64` of the `rand_chacha` crate: a generator
/// whose stream is fixed by `seed`. Nothing is claimed about the generator.
#[verifier::external_body]
pub(crate) fn seeded_rng(seed: u64) -> ChaCha8Rng {
    ChaCha8Rng::seed_from_u64(seed)
}

/// Calls `Rng::gen_ratio` of the `rand` crate: a coin that comes up heads
/// `numerator` times in `denominator`, drawn as `gen_bool` draws one for the
/// same odds. Nothing is claimed about which side comes up. The call panics
/// on a zero denominator and on odds above one, so both are excluded.
#[verifier::external_body]
pub(crate) fn draw_ratio(rng: &mut ChaCha8Rng, numerator: u32, denominator: u32) -> bool
    requires
        denominator > 0,
        numerator <= denominator,
{
    rng.gen_ratio(numerator, denominator)
}

/// Calls `Rng::gen_range(0..n)` of the `rand` crate. Taken on trust from the
/// crate: the value drawn lies in the range, so it is an index below `n`. The
/// call panics on an empty range, so `n` must be positive.
#[verifier::external_body]
pub(crate) fn draw_index(rng: &mut ChaCha8Rng, n: usize) -> (r: usize)
    requires
        n > 0,
    ensures
        r < n,
{
    rng.gen_range(0..n)
}

/// Calls `Rng::gen_range(low..=high)` of the `rand` crate. Taken on trust
/// from the crate: the value drawn lies in the range. The call panics on an
/// empty range, so `low` must not exceed `high`.
#[verifier::external_body]
pub(crate) fn draw_between(rng: &mut ChaCha8Rng, low: i32, high: i32) -> (d: i32)
    requires
        low <= high,
    ensures
        low <= d <= high,
{
    rng.gen_range(low..=high)
}

/// The generator every annealing run starts from.
pub fn placement_rng() -> ChaCha8Rng {
    seeded_rng(PLACEMENT_SEED)
}

/// Distance between positions `a` and `b` on a ring of `length` places.
pub open spec fn circular_gap(a: int, b: int, length: int) -> int {
    let diff = if a > b {
        a - b
    } else {
        b - a
    };
    if diff <= length - diff {
        diff
    } else {
        length - diff
    }
}

/// Circular distance between two indices of a row of `length` instructions.
pub fn circular_distance(a: usize, b: usize, length: usize) -> (d: usize)
    requires
        a <= length,
        b <= length,
    ensures
        d == circular_gap(a as int, b as int, length as int),
        2 * d <= length,
{
    let diff = if a > b {
        a - b
    } else {
        b - a
    };
    let around = length - diff;
    if diff <= around {
        diff
    } else {
        around
    }
}

/// `a / b` rounded to the nearest integer, halves rounded up.
pub open spec fn round_div(a: int, b: int) -> int {
    a / b + if 2 * (a % b) >= b {
        1int
    } else {
        0int
    }
}

/// Where special stitch `i` of `n` starts out in a row of `length`
/// instructions: evenly spaced, and moved on by half a spacing when the row
/// is staggered against special stitches of the row before.
pub open spec fn initial_position(i: int, n: int, length: int, staggered: bool) -> int {
    let base = round_div(i * length, n) % length;
    if staggered {
        (base + round_div(length, 2 * n)) % length
    } else {
        base
    }
}

proof fn lemma_round_div_bounds(a: int, b: int)
    requires
        a >= 0,
        b > 0,
    ensures
        2 * a - b < 2 * (b * round_div(a, b)) <= 2 * a + b,
        round_div(a, b) >= 0,
{
    lemma_fundamental_div_mod(a, b);
    lemma_mod_bound(a, b);
    let q = a / b;
    let r = a % b;
    assert(b * (q + 1) == b * q + b) by (nonlinear_arith);
    assert(q >= 0) by (nonlinear_arith)
        requires
            b * q + r == a,
            a >= 0,
            0 <= r < b,
    ;
}

proof fn lemma_even_bases(i: int, j: int, n: int, length: int)
    requires
        0 <= i < j < n <= length,
    ensures
        0 <= round_div(i * length, n) < round_div(j * length, n) < length,
{
    assert(i * length >= 0) by (nonlinear_arith)
        requires
            i >= 0,
            length >= 0,
    ;
    assert(j * length >= i * length + length) by (nonlinear_arith)
        requires
            j >= i + 1,
            length >= 0,
    ;
    assert(j * length <= n * length - length) by (nonlinear_arith)
        requires
            j <= n - 1,
            length >= 0,
    ;
    lemma_round_div_bounds(i * length, n);
    lemma_round_div_bounds(j * length, n);
    let bi = round_div(i * length, n);
    let bj = round_div(j * length, n);
    assert(bi < bj) by (nonlinear_arith)
        requires
            n > 0,
            length >= n,
            2 * (n * bi) <= 2 * (i * length) + n,
            2 * (j * length) - n < 2 * (n * bj),
            j * length >= i * length + length,
    ;
    assert(bj < length) by (nonlinear_arith)
        requires
            n > 0,
            length >= n,
            2 * (n * bj) <= 2 * (j * length) + n,
            j * length <= n * length - length,
    ;
}

proof fn lemma_small_mod_int(x: int, m: int)
    requires
        0 <= x < m,
    ensures
        x % m == x,
{
    vstd::arithmetic::div_mod::lemma_small_mod(x as nat, m as nat);
}

proof fn lemma_rotation_is_injective(x: int, y: int, o: int, m: int)
    requires
        0 <= x < m,
        0 <= y < m,
        o >= 0,
        (x + o) % m == (y + o) % m,
    ensures
        x == y,
{
    lemma_fundamental_div_mod(x + o, m);
    lemma_fundamental_div_mod(y + o, m);
    let qx = (x + o) / m;
    let qy = (y + o) / m;
    assert(x - y == m * (qx - qy)) by (nonlinear_arith)
        requires
            x + o == m * qx + (x + o) % m,
            y + o == m * qy + (y + o) % m,
            (x + o) % m == (y + o) % m,
    ;
    assert(qx - qy == 0) by (nonlinear_arith)
        requires
            x - y == m * (qx - qy),
            -m < x - y < m,
            m > 0,
    ;
}

/// Evenly spaced starting positions never collide and stay inside the row.
pub proof fn initial_positions_are_distinct(i: int, j: int, n: int, length: int, staggered: bool)
    requires
        0 <= i < j < n <= length,
    ensures
        0 <= initial_position(i, n, length, staggered) < length,
        0 <= initial_position(j, n, length, staggered) < length,
        initial_position(i, n, length, staggered) != initial_position(j, n, length, staggered),
{
    lemma_even_bases(i, j, n, length);
    let bi = round_div(i * length, n);
    let bj = round_div(j * length, n);
    lemma_small_mod_int(bi, length);
    lemma_small_mod_int(bj, length);
    if staggered {
        lemma_round_div_bounds(length, 2 * n);
        let o = round_div(length, 2 * n);
        lemma_mod_bound(bi + o, length);
        lemma_mod_bound(bj + o, length);
        if (bi + o) % length == (bj + o) % length {
            lemma_rotation_is_injective(bi, bj, o, length);
        }
    }
}

/// Executable form of [`round_div`].
fn rounded_quotient(a: u128, b: u128) -> (r: u128)
    requires
        b > 0,
        b <= 0x2_0000_0000_0000_0000,
        a < 0xFFFF_FFFF_FFFF_FFFF_FFFF_FFFF_FFFF_FFFF,
    ensures
        r == round_div(a as int, b as int),
{
    let q = a / b;
    let rem = a % b;
    if 2 * rem >= b {
        q + 1
    } else {
        q
    }
}

/// Starting arrangement of `n` special stitches in a row of `pattern_length`
/// instructions: evenly spaced, staggered by half a spacing where asked.
#[verifier::rlimit(40)]
pub fn initial_positions(n: usize, pattern_length: usize, staggered: bool) -> (positions: Vec<usize>)
    requires
        n <= pattern_length,
    ensures
        positions.len() == n,
        forall|i: int|
            0 <= i < n ==> #[trigger] positions[i] == initial_position(
                i,
                n as int,
                pattern_length as int,
                staggered,
            ),
        forall|i: int| 0 <= i < n ==> #[trigger] positions[i] < pattern_length,
        forall|i: int, j: int| 0 <= i < j < n ==> positions[i] != positions[j],
{
    let mut positions: Vec<usize> = Vec::new();
    let mut i: usize = 0;
    while i < n
        invariant
            i <= n <= pattern_length,
            positions.len() == i,
            forall|k: int|
                0 <= k < i ==> #[trigger] positions[k] == initial_position(
                    k,
                    n as int,
                    pattern_length as int,
                    staggered,
                ),
        decreases n - i,
    {
        proof {
            assert((i as int) * (pattern_length as int) <= 0xFFFF_FFFF_FFFF_FFFE
                * 0xFFFF_FFFF_FFFF_FFFF) by (nonlinear_arith)
                requires
                    0 <= i <= 0xFFFF_FFFF_FFFF_FFFE,
                    0 <= pattern_length <= 0xFFFF_FFFF_FFFF_FFFF,
            ;
            assert((i as int) * (pattern_length as int) >= 0) by (nonlinear_arith)
                requires
                    0 <= i,
                    0 <= pattern_length,
            ;
            if i + 1 < n {
                initial_positions_are_distinct(
                    i as int,
                    i + 1,
                    n as int,
                    pattern_length as int,
                    staggered,
                );
            } else if i > 0 {
                initial_positions_are_distinct(
                    0,
                    i as int,
                    n as int,
                    pattern_length as int,
                    staggered,
                );
            } else {
                assert(0 * (pattern_length as int) == 0);
                lemma_round_div_bounds(pattern_length as int, 2 * n);
                lemma_mod_bound(
                    round_div(0, n as int) % (pattern_length as int) + round_div(
                        pattern_length as int,
                        2 * n,
                    ),
                    pattern_length as int,
                );
                lemma_mod_bound(round_div(0, n as int), pattern_length as int);
            }
        }
        let length = pattern_length as u128;
        let base = rounded_quotient((i as u128) * length, n as u128) % length;
        let place = if staggered {
            let offset = rounded_quotient(length, 2 * (n as u128));
            proof {
                lemma_round_div_bounds(pattern_length as int, 2 * n);
            }
            (base + offset) % length
        } else {
            base
        };
        positions.push(place as usize);
        i += 1;
    }
    proof {
        assert forall|a: int, b: int| 0 <= a < b < n implies positions[a] != positions[b] by {
            initial_positions_are_distinct(a, b, n as int, pattern_length as int, staggered);
        }
        assert forall|a: int| 0 <= a < n implies #[trigger] positions[a] < pattern_length by {
            if a + 1 < n {
                initial_positions_are_distinct(a, a + 1, n as int, pattern_length as int, staggered);
            } else if a > 0 {
                initial_positions_are_distinct(0, a, n as int, pattern_length as int, staggered);
            } else {
                lemma_mod_bound(
                    round_div(0, n as int) % (pattern_length as int) + round_div(
                        pattern_length as int,
                        2 * n,
                    ),
                    pattern_length as int,
                );
                lemma_mod_bound(round_div(0 * (pattern_length as int), n as int), pattern_length as int);
            }
        }
    }
    positions
}

/// No position occurs twice.
pub open spec fn no_duplicates(s: Seq<usize>) -> bool {
    forall|a: int, b: int| 0 <= a < b < s.len() ==> s[a] != s[b]
}

/// Positions ascend strictly.
pub open spec fn strictly_increasing(s: Seq<usize>) -> bool {
    forall|a: int, b: int| 0 <= a < b < s.len() ==> s[a] < s[b]
}

/// Every position lies inside a row of `length` instructions.
pub open spec fn all_below(s: Seq<usize>, length: int) -> bool {
    forall|k: int| 0 <= k < s.len() ==> (#[trigger] s[k]) < length
}

/// `a` and `b` hold the same positions, in whatever order.
pub open spec fn same_members(a: Seq<usize>, b: Seq<usize>) -> bool {
    forall|x: usize| a.contains(x) <==> b.contains(x)
}

/// `settled` is `candidate` put in ascending order.
pub open spec fn is_sorted_form(candidate: Seq<usize>, settled: Seq<usize>) -> bool {
    &&& strictly_increasing(settled)
    &&& settled.len() == candidate.len()
    &&& same_members(settled, candidate)
}

/// `current` with the positions at `i` and `j` exchanged.
pub open spec fn swapped(current: Seq<usize>, i: int, j: int) -> Seq<usize> {
    current.update(i, current[j]).update(j, current[i])
}

/// `current` with position `i` moved by `delta` places around a ring of
/// `length` places.
pub open spec fn shifted(current: Seq<usize>, i: int, delta: int, length: int) -> Seq<usize> {
    current.update(i, ((current[i] + delta) % length) as usize)
}

/// Exchanges two positions of an arrangement.
pub fn propose_swap(current: &Vec<usize>, i: usize, j: usize) -> (candidate: Vec<usize>)
    requires
        i < current.len(),
        j < current.len(),
    ensures
        candidate@ == swapped(current@, i as int, j as int),
{
    let mut candidate = current.clone();
    let at_i = current[i];
    let at_j = current[j];
    candidate.set(i, at_j);
    candidate.set(j, at_i);
    assert(candidate@ =~= swapped(current@, i as int, j as int));
    candidate
}

/// Moves one position by `delta` places, wrapping around the row.
pub fn propose_shift(current: &Vec<usize>, i: usize, delta: i32, pattern_length: usize) -> (candidate:
    Vec<usize>)
    requires
        i < current.len(),
        pattern_length > 0,
        -MAX_SHIFT <= delta <= MAX_SHIFT,
    ensures
        candidate@ == shifted(current@, i as int, delta as int, pattern_length as int),
        candidate[i as int] < pattern_length,
{
    let mut candidate = current.clone();
    let length = pattern_length as u128;
    let lifted: u128 = (current[i] as u128) + 3 * length;
    let moved: u128 = if delta >= 0 {
        lifted + (delta as u128)
    } else {
        lifted - ((-delta) as u128)
    };
    let place = (moved % length) as usize;
    proof {
        lemma_mod_multiples_vanish(3, current[i as int] + delta, pattern_length as int);
        lemma_mod_bound(current[i as int] + delta, pattern_length as int);
        assert(moved == pattern_length * 3 + (current[i as int] + delta));
    }
    candidate.set(i, place);
    assert(candidate@ =~= shifted(current@, i as int, delta as int, pattern_length as int));
    candidate
}

proof fn lemma_sorted_insert(before: Seq<usize>, p: int, x: usize)
    requires
        strictly_increasing(before),
        0 <= p <= before.len(),
        forall|a: int| 0 <= a < p ==> before[a] < x,
        p < before.len() ==> before[p] > x,
    ensures
        strictly_increasing(before.insert(p, x)),
        before.insert(p, x).len() == before.len() + 1,
        !before.contains(x),
        forall|y: usize| before.insert(p, x).contains(y) <==> (before.contains(y) || y == x),
{
    let after = before.insert(p, x);
    before.insert_ensures(p, x);
    assert forall|a: int, b: int| 0 <= a < b < after.len() implies after[a] < after[b] by {
        if b < p {
        } else if a < p && b == p {
        } else if a < p && b > p {
            assert(after[b] == before[b - 1]);
            assert(before[p] <= before[b - 1]);
        } else if a == p {
            assert(after[b] == before[b - 1]);
            assert(before[p] <= before[b - 1]);
        } else {
            assert(after[a] == before[a - 1]);
            assert(after[b] == before[b - 1]);
        }
    }
    assert(!before.contains(x)) by {
        if before.contains(x) {
            let w = choose|w: int| 0 <= w < before.len() && before[w] == x;
            if w > p {
                assert(before[p] < before[w]);
            }
        }
    }
    assert forall|y: usize| after.contains(y) <==> (before.contains(y) || y == x) by {
        if after.contains(y) {
            let w = choose|w: int| 0 <= w < after.len() && after[w] == y;
            if w < p {
                assert(before[w] == y);
            } else if w > p {
                assert(before[w - 1] == y);
            }
        }
        if before.contains(y) {
            let w = choose|w: int| 0 <= w < before.len() && before[w] == y;
            if w < p {
                assert(after[w] == y);
            } else {
                assert(after[w + 1] == y);
            }
        }
        if y == x {
            assert(after[p] == y);
        }
    }
}

proof fn lemma_push_members(seen: Seq<usize>, x: usize)
    ensures
        forall|y: usize| seen.push(x).contains(y) <==> (seen.contains(y) || y == x),
        no_duplicates(seen) && !seen.contains(x) ==> no_duplicates(seen.push(x)),
{
    let longer = seen.push(x);
    assert forall|y: usize| longer.contains(y) <==> (seen.contains(y) || y == x) by {
        if longer.contains(y) {
            let w = choose|w: int| 0 <= w < longer.len() && longer[w] == y;
            if w < seen.len() {
                assert(seen[w] == y);
            }
        }
        if seen.contains(y) {
            let w = choose|w: int| 0 <= w < seen.len() && seen[w] == y;
            assert(longer[w] == y);
        }
        if y == x {
            assert(longer[seen.len() as int] == y);
        }
    }
    if no_duplicates(seen) && !seen.contains(x) {
        assert forall|a: int, b: int| 0 <= a < b < longer.len() implies longer[a] != longer[b] by {
            if b == seen.len() {
                assert(seen[a] == longer[a]);
                assert(seen.contains(longer[a]));
            } else {
                assert(seen[a] == longer[a] && seen[b] == longer[b]);
            }
        }
    }
}

/// Puts a candidate arrangement in ascending order. A candidate in which two
/// special stitches collide on one position is refused.
#[verifier::rlimit(40)]
pub fn normalize_candidate(candidate: &Vec<usize>) -> (r: Option<Vec<usize>>)
    ensures
        r is Some <==> no_duplicates(candidate@),
        r matches Some(v) ==> is_sorted_form(candidate@, v@),
{
    let mut sorted: Vec<usize> = Vec::new();
    let n = candidate.len();
    let mut k: usize = 0;
    while k < n
        invariant
            k <= n,
            n == candidate.len(),
            sorted.len() == k,
            strictly_increasing(sorted@),
            no_duplicates(candidate@.take(k as int)),
            same_members(sorted@, candidate@.take(k as int)),
        decreases n - k,
    {
        let x = candidate[k];
        let p = insertion_place(&sorted, x);
        let ghost seen = candidate@.take(k as int);
        proof {
            assert(candidate@.take(k + 1) =~= seen.push(x));
            lemma_push_members(seen, x);
        }
        if p < sorted.len() && sorted[p] == x {
            proof {
                assert(sorted@.contains(x));
                assert(seen.contains(x));
                let a = choose|a: int| 0 <= a < seen.len() && seen[a] == x;
                assert(candidate@[a] == candidate@[k as int]);
            }
            return None;
        }
        let ghost before = sorted@;
        proof {
            lemma_sorted_insert(before, p as int, x);
        }
        sorted.insert(p, x);
        proof {
            let longer = seen.push(x);
            assert forall|y: usize| sorted@.contains(y) <==> longer.contains(y) by {
                assert(before.contains(y) <==> seen.contains(y));
                assert(sorted@.contains(y) <==> (before.contains(y) || y == x));
                assert(longer.contains(y) <==> (seen.contains(y) || y == x));
            }
        }
        k += 1;
    }
    assert(candidate@.take(n as int) =~= candidate@);
    Some(sorted)
}

/// First place of `sorted` that holds a position not below `x`.
fn insertion_place(sorted: &Vec<usize>, x: usize) -> (p: usize)
    ensures
        p <= sorted.len(),
        forall|a: int| 0 <= a < p ==> sorted[a] < x,
        p < sorted.len() ==> sorted[p as int] >= x,
{
    let mut p: usize = 0;
    while p < sorted.len() && sorted[p] < x
        invariant
            p <= sorted.len(),
            forall|a: int| 0 <= a < p ==> sorted[a] < x,
        decreases sorted.len() - p,
    {
        p += 1;
    }
    p
}

/// Odds of a proposal being a swap: one in two.
pub const SWAP_ODDS_NUMERATOR: u32 = 1;

/// Odds of a proposal being a swap: one in two.
pub const SWAP_ODDS_DENOMINATOR: u32 = 2;

/// Farthest that a proposal shifts a position, either way.
pub const MAX_SHIFT: i32 = 3;

/// One move of the annealer.
#[derive(Debug, Clone, Copy, PartialEq, Eq, Structural)]
pub enum ProposedMove {
    /// The positions at `first` and `second` trade places.
    Swap { first: usize, second: usize },
    /// The position at `index` moves by `delta` places around the row.
    Shift { index: usize, delta: i32 },
}

impl ProposedMove {
    /// The move names positions of an arrangement of `n` special stitches,
    /// and shifts by at most three places.
    pub open spec fn is_legal(self, n: int) -> bool {
        match self {
            ProposedMove::Swap { first, second } => first < n && second < n,
            ProposedMove::Shift { index, delta } => index < n && -MAX_SHIFT <= delta <= MAX_SHIFT,
        }
    }

    /// What the move makes of `current` in a row of `length` instructions,
    /// before it is put in order.
    pub open spec fn applied(self, current: Seq<usize>, length: int) -> Seq<usize> {
        match self {
            ProposedMove::Swap { first, second } => swapped(current, first as int, second as int),
            ProposedMove::Shift { index, delta } => shifted(
                current,
                index as int,
                delta as int,
                length,
            ),
        }
    }
}

/// `candidate` comes from `current` by one legal move of the annealer.
pub open spec fn is_proposal_from(current: Seq<usize>, candidate: Seq<usize>, length: int) -> bool {
    exists|chosen: ProposedMove|
        chosen.is_legal(current.len() as int) && candidate == #[trigger] chosen.applied(
            current,
            length,
        )
}

/// Draws the next move for an arrangement of `n` special stitches: a coin
/// decides between a swap and a shift, a swap only where there are two
/// positions to trade; then the positions and the shift are drawn.
pub fn draw_move(n: usize, rng: &mut ChaCha8Rng) -> (chosen: ProposedMove)
    requires
        n > 0,
    ensures
        chosen.is_legal(n as int),
        chosen is Swap ==> n > 1,
{
    let heads = draw_ratio(rng, SWAP_ODDS_NUMERATOR, SWAP_ODDS_DENOMINATOR);
    if heads && n > 1 {
        let first = draw_index(rng, n);
        let second = draw_index(rng, n);
        ProposedMove::Swap { first, second }
    } else {
        let index = draw_index(rng, n);
        let delta = draw_between(rng, -MAX_SHIFT, MAX_SHIFT);
        ProposedMove::Shift { index, delta }
    }
}

/// Carries out a move on `current` and puts the outcome in order. The
/// outcome is refused where two special stitches collide.
pub fn apply_move(current: &Vec<usize>, pattern_length: usize, chosen: ProposedMove) -> (r: Option<
    Vec<usize>,
>)
    requires
        chosen.is_legal(current.len() as int),
        pattern_length > 0,
    ensures
        r is Some <==> no_duplicates(chosen.applied(current@, pattern_length as int)),
        r matches Some(v) ==> is_sorted_form(chosen.applied(current@, pattern_length as int), v@),
        r matches Some(v) ==> (all_below(current@, pattern_length as int) ==> all_below(
            v@,
            pattern_length as int,
        )),
{
    let candidate = match chosen {
        ProposedMove::Swap { first, second } => propose_swap(current, first, second),
        ProposedMove::Shift { index, delta } => propose_shift(current, index, delta, pattern_length),
    };
    let r = normalize_candidate(&candidate);
    proof {
        if r is Some {
            let v = r->0@;
            if all_below(current@, pattern_length as int) {
                assert forall|k: int| 0 <= k < v.len() implies (#[trigger] v[k])
                    < pattern_length by {
                    assert(v.contains(v[k]));
                    assert(candidate@.contains(v[k]));
                    let w = choose|w: int| 0 <= w < candidate@.len() && candidate@[w] == v[k];
                    assert(candidate@[w] < pattern_length);
                }
            }
        }
    }
    r
}

/// One proposal of the annealer: a move is drawn and carried out on
/// `current`; the outcome is put in order, and refused where two special
/// stitches would collide.
#[verifier::rlimit(40)]
pub fn propose_candidate(current: &Vec<usize>, pattern_length: usize, rng: &mut ChaCha8Rng) -> (r:
    Option<Vec<usize>>)
    requires
        current.len() > 0,
        pattern_length > 0,
    ensures
        exists|candidate: Seq<usize>|
            {
                &&& #[trigger] is_proposal_from(current@, candidate, pattern_length as int)
                &&& match r {
                    Some(v) => is_sorted_form(candidate, v@),
                    None => !no_duplicates(candidate),
                }
            },
        r matches Some(v) ==> v.len() == current.len() && strictly_increasing(v@),
        r matches Some(v) ==> (all_below(current@, pattern_length as int) ==> all_below(
            v@,
            pattern_length as int,
        )),
{
    let chosen = draw_move(current.len(), rng);
    let r = apply_move(current, pattern_length, chosen);
    proof {
        let candidate = chosen.applied(current@, pattern_length as int);
        assert(is_proposal_from(current@, candidate, pattern_length as int));
    }
    r
}

/// Indices of the instructions of `s` that are not single crochets,
/// ascending.
pub open spec fn special_positions(s: Seq<StitchInstruction>) -> Seq<usize>
    decreases s.len(),
{
    if s.len() == 0 {
        Seq::empty()
    } else if s.last().stitch_type.is_special() {
        special_positions(s.drop_last()).push((s.len() - 1) as usize)
    } else {
        special_positions(s.drop_last())
    }
}

/// Kinds of the instructions of `s` that are not single crochets, in order.
pub open spec fn special_kinds(s: Seq<StitchInstruction>) -> Seq<StitchType>
    decreases s.len(),
{
    if s.len() == 0 {
        Seq::empty()
    } else if s.last().stitch_type.is_special() {
        special_kinds(s.drop_last()).push(s.last().stitch_type)
    } else {
        special_kinds(s.drop_last())
    }
}

/// Number of entries of `kinds` that equal `kind`.
pub open spec fn count_type(kinds: Seq<StitchType>, kind: StitchType) -> nat
    decreases kinds.len(),
{
    if kinds.len() == 0 {
        0
    } else {
        count_type(kinds.drop_last(), kind) + if kinds.last() == kind {
            1nat
        } else {
            0nat
        }
    }
}

proof fn lemma_special_positions(s: Seq<StitchInstruction>)
    requires
        s.len() <= usize::MAX,
    ensures
        special_positions(s).len() == special_kinds(s).len(),
        special_positions(s).len() <= s.len(),
        strictly_increasing(special_positions(s)),
        forall|t: int|
            0 <= t < special_positions(s).len() ==> {
                &&& (#[trigger] special_positions(s)[t]) < s.len()
                &&& s[special_positions(s)[t] as int].stitch_type == special_kinds(s)[t]
                &&& special_kinds(s)[t].is_special()
            },
        forall|i: int|
            0 <= i < s.len() && (#[trigger] s[i]).stitch_type.is_special()
                ==> special_positions(s).contains(i as usize),
    decreases s.len(),
{
    if s.len() > 0 {
        let shorter = s.drop_last();
        lemma_special_positions(shorter);
        let before = special_positions(shorter);
        let now = special_positions(s);
        let last = (s.len() - 1) as usize;
        let grows = s.last().stitch_type.is_special();
        assert(grows ==> now == before.push(last));
        assert(!grows ==> now == before);
        assert forall|i: int|
            0 <= i < s.len() && (#[trigger] s[i]).stitch_type.is_special() implies now.contains(
            i as usize,
        ) by {
            if i < s.len() - 1 {
                assert(shorter[i] == s[i]);
                assert(before.contains(i as usize));
                let w = choose|w: int| 0 <= w < before.len() && before[w] == i as usize;
                assert(now[w] == i as usize);
            } else {
                assert(now[now.len() - 1] == i as usize);
            }
        }
        assert forall|t: int| 0 <= t < now.len() implies {
            &&& (#[trigger] now[t]) < s.len()
            &&& s[now[t] as int].stitch_type == special_kinds(s)[t]
            &&& special_kinds(s)[t].is_special()
        } by {
            if t < before.len() {
                assert(before[t] == now[t]);
                assert(before[t] < shorter.len());
                assert(shorter[before[t] as int] == s[before[t] as int]);
                assert(special_kinds(s)[t] == special_kinds(shorter)[t]);
            } else {
                assert(now[t] == last);
                assert(special_kinds(s)[t] == s.last().stitch_type);
            }
        }
        assert forall|a: int, b: int| 0 <= a < b < now.len() implies now[a] < now[b] by {
            assert(before[a] < shorter.len());
            if b < before.len() {
                assert(before[a] < before[b]);
            } else {
                assert(now[b] == last);
            }
        }
    }
}

proof fn lemma_counts_of_specials(s: Seq<StitchInstruction>, kind: StitchType)
    requires
        kind.is_special(),
    ensures
        count_kind(s, kind) == count_type(special_kinds(s), kind),
    decreases s.len(),
{
    if s.len() > 0 {
        lemma_counts_of_specials(s.drop_last(), kind);
        if s.last().stitch_type.is_special() {
            assert(special_kinds(s).drop_last() =~= special_kinds(s.drop_last()));
        }
    }
}

/// The totals of a row are fixed by its length and by how many of each
/// special kind it holds.
pub proof fn totals_from_counts(s: Seq<StitchInstruction>)
    ensures
        consumed(s) == s.len() + count_kind(s, StitchType::DEC) + count_kind(
            s,
            StitchType::INVDEC,
        ),
        produced(s) == s.len() + count_kind(s, StitchType::INC),
        s.len() == count_kind(s, StitchType::SC) + count_kind(s, StitchType::INC) + count_kind(
            s,
            StitchType::DEC,
        ) + count_kind(s, StitchType::INVDEC),
    decreases s.len(),
{
    if s.len() > 0 {
        totals_from_counts(s.drop_last());
    }
}

proof fn lemma_count_after_update(s: Seq<StitchInstruction>, p: int, x: StitchInstruction, kind: StitchType)
    requires
        0 <= p < s.len(),
    ensures
        count_kind(s.update(p, x), kind) + if s[p].stitch_type == kind {
            1nat
        } else {
            0nat
        } == count_kind(s, kind) + if x.stitch_type == kind {
            1nat
        } else {
            0nat
        },
    decreases s.len(),
{
    if p == s.len() - 1 {
        assert(s.update(p, x).drop_last() =~= s.drop_last());
    } else {
        lemma_count_after_update(s.drop_last(), p, x, kind);
        assert(s.update(p, x).drop_last() =~= s.drop_last().update(p, x));
    }
}

proof fn lemma_plain_has_no_specials(n: int, k: int, kind: StitchType)
    requires
        0 <= k <= n,
        kind.is_special(),
    ensures
        count_kind(plain_pattern(n).take(k), kind) == 0,
    decreases k,
{
    if k > 0 {
        lemma_plain_has_no_specials(n, k - 1, kind);
        assert(plain_pattern(n).take(k).drop_last() =~= plain_pattern(n).take(k - 1));
    }
}

/// Indices of the special stitches of a row, ascending.
pub fn special_indices(pattern: &Vec<StitchInstruction>) -> (indices: Vec<usize>)
    ensures
        indices@ == special_positions(pattern@),
        strictly_increasing(indices@),
        forall|t: int|
            0 <= t < indices.len() ==> (#[trigger] indices[t]) < pattern.len()
                && pattern[indices[t] as int].stitch_type.is_special(),
        forall|i: int|
            0 <= i < pattern.len() && (#[trigger] pattern[i]).stitch_type.is_special()
                ==> indices@.contains(i as usize),
{
    let mut indices: Vec<usize> = Vec::new();
    let n = pattern.len();
    let mut i: usize = 0;
    while i < n
        invariant
            i <= n,
            n == pattern.len(),
            indices@ == special_positions(pattern@.take(i as int)),
        decreases n - i,
    {
        proof {
            assert(pattern@.take(i + 1).drop_last() =~= pattern@.take(i as int));
        }
        if pattern[i].stitch_type != StitchType::SC {
            indices.push(i);
        }
        i += 1;
    }
    proof {
        assert(pattern@.take(n as int) =~= pattern@);
        lemma_special_positions(pattern@);
    }
    indices
}

/// `positions` can take the special stitches of `pattern`: one position for
/// each, inside the row, no two alike.
pub open spec fn valid_placement(pattern: Seq<StitchInstruction>, positions: Seq<usize>) -> bool {
    &&& positions.len() == special_positions(pattern).len()
    &&& forall|k: int| 0 <= k < positions.len() ==> (#[trigger] positions[k]) < pattern.len()
    &&& no_duplicates(positions)
}

/// Rebuilds `row` with its special stitches moved to `positions`: the k-th
/// special stitch of the row, in order, goes to `positions[k]`, and every
/// other place holds a single crochet. The row keeps its length, the count
/// of every stitch kind and with them its consumption and production. There
/// is no result when `positions` is not a valid placement for the row.
#[verifier::rlimit(40)]
pub fn apply_placement(row: &Row, positions: &Vec<usize>) -> (r: Option<Row>)
    ensures
        r is Some <==> valid_placement(row.pattern@, positions@),
        r matches Some(out) ==> {
            &&& out.row_number == row.row_number
            &&& out.total_stitches == row.total_stitches
            &&& out.pattern.len() == row.pattern.len()
            &&& forall|p: int|
                0 <= p < out.pattern.len() ==> (#[trigger] out.pattern[p]).stitch_index == p
            &&& forall|k: int|
                0 <= k < positions.len() ==> out.pattern[(#[trigger] positions[k]) as int].stitch_type
                    == special_kinds(row.pattern@)[k]
            &&& forall|p: int|
                0 <= p < out.pattern.len() && !positions@.contains(p as usize) ==> (
                #[trigger] out.pattern[p]).stitch_type == StitchType::SC
            &&& forall|kind: StitchType|
                count_kind(out.pattern@, kind) == count_kind(row.pattern@, kind)
            &&& consumed(out.pattern@) == consumed(row.pattern@)
            &&& produced(out.pattern@) == produced(row.pattern@)
        },
{
    let specials = special_indices(&row.pattern);
    let n = specials.len();
    let length = row.pattern.len();
    if positions.len() != n {
        return None;
    }
    let mut pattern: Vec<StitchInstruction> = Vec::new();
    let mut i: usize = 0;
    while i < length
        invariant
            i <= length,
            pattern.len() == i,
            forall|j: int| 0 <= j < i ==> pattern[j] == instruction_at(StitchType::SC, j),
        decreases length - i,
    {
        pattern.push(StitchInstruction { stitch_type: StitchType::SC, stitch_index: i });
        i += 1;
    }
    let ghost kinds = special_kinds(row.pattern@);
    proof {
        lemma_special_positions(row.pattern@);
        assert(pattern@ =~= plain_pattern(length as int));
        assert(pattern@.take(length as int) =~= pattern@);
        assert forall|kind: StitchType| kind.is_special() implies count_kind(pattern@, kind)
            == count_type(kinds.take(0), kind) by {
            lemma_plain_has_no_specials(length as int, length as int, kind);
        }
    }
    let mut k: usize = 0;
    while k < n
        invariant
            k <= n,
            n == specials.len(),
            n == positions.len(),
            length == row.pattern.len(),
            pattern.len() == length,
            specials@ == special_positions(row.pattern@),
            kinds == special_kinds(row.pattern@),
            kinds.len() == n,
            forall|t: int|
                0 <= t < n ==> (#[trigger] specials[t]) < length
                    && row.pattern[specials[t] as int].stitch_type == kinds[t]
                    && kinds[t].is_special(),
            forall|p: int| 0 <= p < length ==> (#[trigger] pattern[p]).stitch_index == p,
            forall|t: int| 0 <= t < k ==> (#[trigger] positions[t]) < length,
            no_duplicates(positions@.take(k as int)),
            forall|t: int|
                0 <= t < k ==> pattern[(#[trigger] positions[t]) as int].stitch_type == kinds[t],
            forall|p: int|
                0 <= p < length && !positions@.take(k as int).contains(p as usize) ==> (
                #[trigger] pattern[p]).stitch_type == StitchType::SC,
            forall|kind: StitchType|
                kind.is_special() ==> count_kind(pattern@, kind) == count_type(
                    kinds.take(k as int),
                    kind,
                ),
        decreases n - k,
    {
        let pos = positions[k];
        let ghost placed = positions@.take(k as int);
        let ghost longer = positions@.take(k + 1);
        if pos >= length {
            return None;
        }
        if pattern[pos].stitch_type != StitchType::SC {
            proof {
                assert(placed.contains(pos));
                let w = choose|w: int| 0 <= w < placed.len() && placed[w] == pos;
                assert(positions@[w] == positions@[k as int]);
            }
            return None;
        }
        let kind = row.pattern[specials[k]].stitch_type;
        let ghost before = pattern@;
        pattern.set(pos, StitchInstruction { stitch_type: kind, stitch_index: pos });
        proof {
            assert(kind == kinds[k as int]);
            assert(!placed.contains(pos)) by {
                if placed.contains(pos) {
                    let w = choose|w: int| 0 <= w < placed.len() && placed[w] == pos;
                    assert(placed[w] == positions[w]);
                    assert(specials[w] < length);
                    assert(kinds[w].is_special());
                    assert(before[positions[w] as int].stitch_type == kinds[w]);
                }
            }
            assert forall|a: int, b: int| 0 <= a < b < longer.len() implies longer[a]
                != longer[b] by {
                if b == k {
                    assert(placed[a] == longer[a]);
                    assert(placed.contains(longer[a]));
                } else {
                    assert(placed[a] == longer[a] && placed[b] == longer[b]);
                }
            }
            assert forall|t: int| 0 <= t < k + 1 implies pattern[(
            #[trigger] positions[t]) as int].stitch_type == kinds[t] by {
                if t < k {
                    assert(placed[t] == positions[t]);
                    assert(placed.contains(positions[t]));
                }
            }
            assert forall|p: int|
                0 <= p < length && !longer.contains(p as usize) implies (
            #[trigger] pattern[p]).stitch_type == StitchType::SC by {
                assert(longer[k as int] == pos);
                if placed.contains(p as usize) {
                    let w = choose|w: int| 0 <= w < placed.len() && placed[w] == p as usize;
                    assert(longer[w] == p as usize);
                }
            }
            assert forall|any: StitchType| any.is_special() implies count_kind(pattern@, any)
                == count_type(kinds.take(k + 1), any) by {
                lemma_count_after_update(
                    before,
                    pos as int,
                    StitchInstruction { stitch_type: kind, stitch_index: pos },
                    any,
                );
                assert(kinds.take(k + 1).drop_last() =~= kinds.take(k as int));
            }
        }
        k += 1;
    }
    proof {
        assert(positions@.take(n as int) =~= positions@);
        assert(kinds.take(n as int) =~= kinds);
        totals_from_counts(pattern@);
        totals_from_counts(row.pattern@);
        lemma_counts_of_specials(row.pattern@, StitchType::INC);
        lemma_counts_of_specials(row.pattern@, StitchType::DEC);
        lemma_counts_of_specials(row.pattern@, StitchType::INVDEC);
        assert(StitchType::INC.is_special() && StitchType::DEC.is_special()
            && StitchType::INVDEC.is_special());
        assert(count_kind(pattern@, StitchType::INC) == count_kind(row.pattern@, StitchType::INC));
        assert(count_kind(pattern@, StitchType::DEC) == count_kind(row.pattern@, StitchType::DEC));
        assert(count_kind(pattern@, StitchType::INVDEC) == count_kind(
            row.pattern@,
            StitchType::INVDEC,
        ));
        assert forall|kind: StitchType| count_kind(pattern@, kind) == count_kind(
            row.pattern@,
            kind,
        ) by {
            match kind {
                StitchType::SC => {},
                StitchType::INC => {},
                StitchType::DEC => {},
                StitchType::INVDEC => {},
            }
        }
    }
    Some(Row { row_number: row.row_number, total_stitches: row.total_stitches, pattern })
}

/// Moving the special stitches of rows around never breaks a pattern: if
/// every row keeps its stated total, its consumption and its production, as
/// it does under [`apply_placement`], then rows that closed before still
/// close.
pub proof fn placement_keeps_rows_closed(before: Seq<Row>, after: Seq<Row>)
    requires
        before.len() == after.len(),
        forall|i: int|
            0 <= i < before.len() ==> {
                &&& (#[trigger] after[i]).total_stitches == before[i].total_stitches
                &&& consumed(after[i].pattern@) == consumed(before[i].pattern@)
                &&& produced(after[i].pattern@) == produced(before[i].pattern@)
            },
        all_rows_close(before),
    ensures
        all_rows_close(after),
{
    assert forall|i: int| 1 <= i < after.len() implies (#[trigger] after[i]).closes_over(
        after[i - 1].total_stitches as nat,
    ) by {
        assert(before[i].closes_over(before[i - 1].total_stitches as nat));
        assert(after[i - 1].total_stitches == before[i - 1].total_stitches);
    }
}

/// Number of proposals in one annealing run.
pub const ANNEAL_ITERATIONS: usize = 500;

/// The integer state of one annealing run over the special stitches of a
/// row: the arrangement the run stands at, the best arrangement met, and the
/// proposals still to be made. The caller owns the energies and the
/// temperature; it asks for a proposal, weighs it, and reports its verdict.
#[derive(Debug, Clone)]
pub struct Annealer {
    pub current: Vec<usize>,
    pub best: Vec<usize>,
    pub remaining: usize,
    pub pattern_length: usize,
}

/// `positions` is an arrangement of `n` special stitches in a row of
/// `length` instructions: `n` different positions inside the row.
pub open spec fn is_arrangement(positions: Seq<usize>, n: int, length: int) -> bool {
    &&& positions.len() == n
    &&& all_below(positions, length)
    &&& no_duplicates(positions)
}

/// `r` is what one legal move makes of `current`: the outcome of the move put
/// in order, or nothing where two special stitches collide in the outcome.
pub open spec fn proposal_made(current: Seq<usize>, length: int, r: Option<Vec<usize>>) -> bool {
    exists|candidate: Seq<usize>|
        {
            &&& #[trigger] is_proposal_from(current, candidate, length)
            &&& match r {
                Some(v) => is_sorted_form(candidate, v@),
                None => !no_duplicates(candidate),
            }
        }
}

impl Annealer {
    /// Both arrangements of the run are arrangements of the same number of
    /// stitches in the run's row.
    pub open spec fn well_formed(&self) -> bool {
        &&& is_arrangement(self.current@, self.current.len() as int, self.pattern_length as int)
        &&& is_arrangement(self.best@, self.current.len() as int, self.pattern_length as int)
        &&& self.remaining <= ANNEAL_ITERATIONS
    }

    /// Starts a run for `n` special stitches in a row of `pattern_length`
    /// instructions from the evenly spaced arrangement, staggered where the
    /// row before has special stitches of its own.
    pub fn start(n: usize, pattern_length: usize, staggered: bool) -> (run: Self)
        requires
            n <= pattern_length,
        ensures
            run.well_formed(),
            run.remaining == ANNEAL_ITERATIONS,
            run.pattern_length == pattern_length,
            run.current@ == run.best@,
            run.current.len() == n,
            forall|i: int|
                0 <= i < n ==> #[trigger] run.current[i] == initial_position(
                    i,
                    n as int,
                    pattern_length as int,
                    staggered,
                ),
    {
        let current = initial_positions(n, pattern_length, staggered);
        let best = current.clone();
        assert(best@ =~= current@);
        Annealer { current, best, remaining: ANNEAL_ITERATIONS, pattern_length }
    }

    /// Whether proposals are left to be made.
    pub fn is_running(&self) -> (b: bool)
        ensures
            b == (self.remaining > 0),
    {
        self.remaining > 0
    }

    /// Makes the next proposal from the arrangement the run stands at. One
    /// proposal is used up whether or not it survives; a proposal in which
    /// two stitches collide does not.
    pub fn propose(&mut self, rng: &mut ChaCha8Rng) -> (r: Option<Vec<usize>>)
        requires
            old(self).well_formed(),
            old(self).remaining > 0,
            old(self).current.len() > 0,
        ensures
            final(self).well_formed(),
            final(self).remaining == old(self).remaining - 1,
            final(self).current@ == old(self).current@,
            final(self).best@ == old(self).best@,
            final(self).pattern_length == old(self).pattern_length,
            proposal_made(old(self).current@, old(self).pattern_length as int, r),
            r matches Some(candidate) ==> is_arrangement(
                candidate@,
                old(self).current.len() as int,
                old(self).pattern_length as int,
            ) && strictly_increasing(candidate@),
    {
        self.remaining = self.remaining - 1;
        assert(self.current[0] < self.pattern_length);
        let r = propose_candidate(&self.current, self.pattern_length, rng);
        proof {
            if r is Some {
                let v = r->0@;
                assert forall|a: int, b: int| 0 <= a < b < v.len() implies v[a] != v[b] by {
                    assert(v[a] < v[b]);
                }
            }
        }
        r
    }

    /// Takes the caller's verdict on a proposal: an accepted proposal
    /// becomes the arrangement the run stands at, and the best arrangement
    /// as well where the caller found it better than the best so far. A
    /// rejected proposal changes nothing.
    pub fn decide(&mut self, candidate: Vec<usize>, accepted: bool, beats_best: bool)
        requires
            old(self).well_formed(),
            is_arrangement(
                candidate@,
                old(self).current.len() as int,
                old(self).pattern_length as int,
            ),
        ensures
            final(self).well_formed(),
            final(self).remaining == old(self).remaining,
            final(self).pattern_length == old(self).pattern_length,
            final(self).current@ == if accepted {
                candidate@
            } else {
                old(self).current@
            },
            final(self).best@ == if accepted && beats_best {
                candidate@
            } else {
                old(self).best@
            },
    {
        if accepted {
            if beats_best {
                let copy = candidate.clone();
                assert(copy@ =~= candidate@);
                self.best = copy;
            }
            self.current = candidate;
        }
    }
}

} // verus!

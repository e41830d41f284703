use crochet_core::generator::{generate_row_pattern, validate_pattern};
use crochet_core::optimization::{
    apply_placement, circular_distance, initial_positions, normalize_candidate, placement_rng,
    apply_move, draw_move, propose_candidate, propose_shift, propose_swap, special_indices,
    Annealer, ProposedMove, ANNEAL_ITERATIONS, MAX_SHIFT, PLACEMENT_SEED,
};
use crochet_core::types::StitchType::{INC, INVDEC, SC};
use crochet_core::types::{Row, StitchInstruction, StitchType};

fn row_of(kinds: &[StitchType], total: usize) -> Row {
    Row {
        row_number: 2,
        total_stitches: total,
        pattern: kinds
            .iter()
            .enumerate()
            .map(|(i, &stitch_type)| StitchInstruction { stitch_type, stitch_index: i })
            .collect(),
    }
}

fn kinds(row: &Row) -> Vec<StitchType> {
    row.pattern.iter().map(|s| s.stitch_type).collect()
}

#[test]
fn circular_distance_takes_the_short_way_round() {
    assert_eq!(circular_distance(0, 25, 30), 5);
    assert_eq!(circular_distance(25, 0, 30), 5);
    assert_eq!(circular_distance(1, 29, 30), 2);
    assert_eq!(circular_distance(0, 15, 30), 15);
    assert_eq!(circular_distance(3, 3, 10), 0);
    assert_eq!(circular_distance(0, 10, 10), 0);
    assert_eq!(circular_distance(0, 0, 0), 0);
}

#[test]
fn initial_positions_are_evenly_spaced() {
    assert_eq!(initial_positions(6, 30, false), vec![0, 5, 10, 15, 20, 25]);
    assert_eq!(initial_positions(4, 10, false), vec![0, 3, 5, 8]);
    assert_eq!(initial_positions(1, 7, false), vec![0]);
    assert_eq!(initial_positions(0, 7, false), Vec::<usize>::new());
    assert_eq!(initial_positions(0, 0, true), Vec::<usize>::new());
}

#[test]
fn staggered_positions_move_on_by_half_a_spacing() {
    assert_eq!(initial_positions(6, 30, true), vec![3, 8, 13, 18, 23, 28]);
    assert_eq!(initial_positions(3, 3, true), vec![1, 2, 0]);
    assert_eq!(initial_positions(1, 1, true), vec![0]);
    assert_eq!(initial_positions(2, 5, true), vec![1, 4]);
}

#[test]
fn initial_positions_never_collide() {
    for length in 1..40usize {
        for n in 1..=length {
            for staggered in [false, true] {
                let mut positions = initial_positions(n, length, staggered);
                assert_eq!(positions.len(), n);
                assert!(positions.iter().all(|&p| p < length));
                positions.sort_unstable();
                positions.dedup();
                assert_eq!(positions.len(), n);
            }
        }
    }
}

#[test]
fn swap_exchanges_two_positions() {
    assert_eq!(propose_swap(&vec![0, 5, 10], 0, 2), vec![10, 5, 0]);
    assert_eq!(propose_swap(&vec![0, 5, 10], 1, 1), vec![0, 5, 10]);
}

#[test]
fn shift_wraps_around_the_row() {
    assert_eq!(propose_shift(&vec![0, 5, 10], 0, -3, 30), vec![27, 5, 10]);
    assert_eq!(propose_shift(&vec![28, 5, 10], 0, 3, 30), vec![1, 5, 10]);
    assert_eq!(propose_shift(&vec![0, 5, 10], 1, 2, 30), vec![0, 7, 10]);
    assert_eq!(propose_shift(&vec![0, 5, 10], 2, 0, 30), vec![0, 5, 10]);
    assert_eq!(propose_shift(&vec![1], 0, -3, 2), vec![0]);
    assert_eq!(propose_shift(&vec![0], 0, -3, 1), vec![0]);
}

#[test]
fn normalize_sorts_and_refuses_collisions() {
    assert_eq!(normalize_candidate(&vec![5, 1, 3]), Some(vec![1, 3, 5]));
    assert_eq!(normalize_candidate(&vec![1, 3, 5]), Some(vec![1, 3, 5]));
    assert_eq!(normalize_candidate(&vec![]), Some(vec![]));
    assert_eq!(normalize_candidate(&vec![5, 1, 5]), None);
    assert_eq!(normalize_candidate(&vec![2, 2]), None);
}

#[test]
fn proposals_stay_in_order_inside_the_row() {
    assert_eq!(PLACEMENT_SEED, 42);
    let mut rng = placement_rng();
    let current = vec![0usize, 5, 10, 15, 20, 25];
    let mut accepted = 0;
    let mut moved = 0;
    for _ in 0..500 {
        if let Some(candidate) = propose_candidate(&current, 30, &mut rng) {
            accepted += 1;
            assert_eq!(candidate.len(), current.len());
            assert!(candidate.windows(2).all(|w| w[0] < w[1]));
            assert!(candidate.iter().all(|&p| p < 30));
            let changed = candidate.iter().filter(|p| !current.contains(p)).count();
            assert!(changed <= 1);
            if changed == 1 {
                moved += 1;
                let new = *candidate.iter().find(|p| !current.contains(p)).unwrap();
                let old = *current.iter().find(|p| !candidate.contains(p)).unwrap();
                assert!(circular_distance(new, old, 30) <= 3);
            }
        }
    }
    assert!(accepted > 0);
    assert!(moved > 0);
}

#[test]
fn proposals_repeat_for_the_same_seed() {
    let current = vec![3usize, 8, 13, 18, 23, 28];
    let mut first = placement_rng();
    let mut second = placement_rng();
    for _ in 0..200 {
        assert_eq!(
            propose_candidate(&current, 30, &mut first),
            propose_candidate(&current, 30, &mut second)
        );
    }
}

#[test]
fn special_indices_lists_everything_but_single_crochets() {
    let row = row_of(&[INC, SC, INVDEC, SC, SC, StitchType::DEC], 6);
    assert_eq!(special_indices(&row.pattern), vec![0, 2, 5]);
    assert_eq!(special_indices(&row_of(&[SC, SC], 2).pattern), Vec::<usize>::new());
    assert_eq!(special_indices(&vec![]), Vec::<usize>::new());
}

#[test]
fn placement_moves_special_stitches_in_order() {
    let row = row_of(&[INC, SC, INVDEC, SC], 4);
    let placed = apply_placement(&row, &vec![3, 1]).unwrap();
    assert_eq!(kinds(&placed), vec![SC, INVDEC, SC, INC]);
    assert_eq!(placed.row_number, 2);
    assert_eq!(placed.total_stitches, 4);
    for (i, s) in placed.pattern.iter().enumerate() {
        assert_eq!(s.stitch_index, i);
    }
}

#[test]
fn placement_keeps_a_row_closed() {
    let row = Row { row_number: 2, total_stitches: 18, pattern: generate_row_pattern(2, 12, 18) };
    let placed = apply_placement(&row, &vec![1, 3, 5, 7, 9, 11]).unwrap();
    assert_eq!(placed.pattern.len(), 12);
    assert_eq!(placed.pattern.iter().filter(|s| s.stitch_type == INC).count(), 6);
    assert_eq!(kinds(&placed), vec![SC, INC, SC, INC, SC, INC, SC, INC, SC, INC, SC, INC]);
    assert!(validate_pattern(&placed, 12).is_ok());

    let row = Row { row_number: 3, total_stitches: 12, pattern: generate_row_pattern(3, 18, 12) };
    let placed = apply_placement(&row, &vec![11, 0, 4, 6, 8, 2]).unwrap();
    assert_eq!(placed.pattern.iter().filter(|s| s.stitch_type == INVDEC).count(), 6);
    assert!(validate_pattern(&placed, 18).is_ok());
}

#[test]
fn placement_without_special_stitches_gives_the_plain_row() {
    let row = row_of(&[SC, SC, SC], 3);
    let placed = apply_placement(&row, &vec![]).unwrap();
    assert_eq!(kinds(&placed), vec![SC, SC, SC]);
}

#[test]
fn placement_refuses_invalid_positions() {
    let row = row_of(&[INC, SC, INC, SC], 6);
    assert!(apply_placement(&row, &vec![1]).is_none());
    assert!(apply_placement(&row, &vec![1, 2, 3]).is_none());
    assert!(apply_placement(&row, &vec![1, 1]).is_none());
    assert!(apply_placement(&row, &vec![1, 4]).is_none());
    assert!(apply_placement(&row, &vec![3, 0]).is_some());
}

fn spread(positions: &[usize], length: usize) -> usize {
    let mut least = length;
    for i in 0..positions.len() {
        for j in (i + 1)..positions.len() {
            least = least.min(circular_distance(positions[i], positions[j], length));
        }
    }
    least
}

fn anneal_by_spread(n: usize, length: usize, staggered: bool) -> Vec<usize> {
    let mut rng = placement_rng();
    let mut run = Annealer::start(n, length, staggered);
    let mut proposals = 0;
    while run.is_running() {
        proposals += 1;
        if let Some(candidate) = run.propose(&mut rng) {
            let accepted = spread(&candidate, length) >= spread(&run.current, length);
            let beats_best = accepted && spread(&candidate, length) > spread(&run.best, length);
            run.decide(candidate, accepted, beats_best);
        }
    }
    assert_eq!(proposals, ANNEAL_ITERATIONS);
    run.best
}

#[test]
fn annealer_starts_from_the_even_arrangement() {
    assert_eq!(ANNEAL_ITERATIONS, 500);
    let run = Annealer::start(6, 30, true);
    assert_eq!(run.current, vec![3, 8, 13, 18, 23, 28]);
    assert_eq!(run.best, run.current);
    assert_eq!(run.remaining, 500);
    assert_eq!(run.pattern_length, 30);
    assert!(run.is_running());
}

#[test]
fn annealer_follows_the_verdicts() {
    let mut run = Annealer::start(3, 12, false);
    assert_eq!(run.current, vec![0, 4, 8]);
    run.decide(vec![1, 4, 8], false, true);
    assert_eq!((run.current.clone(), run.best.clone()), (vec![0, 4, 8], vec![0, 4, 8]));
    run.decide(vec![1, 4, 8], true, false);
    assert_eq!((run.current.clone(), run.best.clone()), (vec![1, 4, 8], vec![0, 4, 8]));
    run.decide(vec![1, 5, 9], true, true);
    assert_eq!((run.current.clone(), run.best.clone()), (vec![1, 5, 9], vec![1, 5, 9]));
    assert_eq!(run.remaining, 500);
}

#[test]
fn annealer_uses_up_one_proposal_at_a_time() {
    let mut rng = placement_rng();
    let mut run = Annealer::start(4, 20, false);
    let before = run.current.clone();
    let _ = run.propose(&mut rng);
    assert_eq!(run.remaining, 499);
    assert_eq!(run.current, before);
    assert_eq!(run.best, before);
}

#[test]
fn annealing_repeats_for_the_same_seed() {
    let first = anneal_by_spread(5, 37, true);
    let second = anneal_by_spread(5, 37, true);
    assert_eq!(first, second);
    assert_eq!(first.len(), 5);
    assert!(first.iter().all(|&p| p < 37));
}

#[test]
fn moves_are_carried_out_and_put_in_order() {
    let current = vec![0usize, 5, 10];
    assert_eq!(
        apply_move(&current, 30, ProposedMove::Swap { first: 0, second: 2 }),
        Some(vec![0, 5, 10])
    );
    assert_eq!(
        apply_move(&current, 30, ProposedMove::Shift { index: 0, delta: -3 }),
        Some(vec![5, 10, 27])
    );
    assert_eq!(
        apply_move(&current, 30, ProposedMove::Shift { index: 1, delta: 2 }),
        Some(vec![0, 7, 10])
    );
    assert_eq!(apply_move(&vec![4, 5], 30, ProposedMove::Shift { index: 0, delta: 1 }), None);
    assert_eq!(apply_move(&vec![4, 4], 30, ProposedMove::Swap { first: 0, second: 1 }), None);
}

#[test]
fn drawn_moves_are_legal() {
    assert_eq!(MAX_SHIFT, 3);
    let mut rng = placement_rng();
    let (mut swaps, mut shifts) = (0, 0);
    for _ in 0..400 {
        match draw_move(6, &mut rng) {
            ProposedMove::Swap { first, second } => {
                swaps += 1;
                assert!(first < 6 && second < 6);
            }
            ProposedMove::Shift { index, delta } => {
                shifts += 1;
                assert!(index < 6);
                assert!((-3..=3).contains(&delta));
            }
        }
    }
    assert!(swaps > 100 && shifts > 100);
    for _ in 0..50 {
        match draw_move(1, &mut rng) {
            ProposedMove::Shift { index, .. } => assert_eq!(index, 0),
            other => panic!("unexpected move: {:?}", other),
        }
    }
}

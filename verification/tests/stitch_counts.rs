use crochet_core::stitch_count::{calculate_stitch_counts, clamp_stitch_count};
use crochet_core::types::{MAGIC_RING_STITCHES, MIN_ROW_STITCHES};

fn ideal_counts(radii: &[f64], stitches_per_cm: f64) -> Vec<usize> {
    radii
        .iter()
        .enumerate()
        .map(|(i, &r)| {
            let radius = if i == 0 { r.max(0.5) } else { r.max(0.1) };
            (2.0 * std::f64::consts::PI * radius * stitches_per_cm).round() as usize
        })
        .collect()
}

fn solve(radii: &[f64], stitches_per_cm: f64) -> Vec<usize> {
    let ideal = ideal_counts(radii, stitches_per_cm);
    calculate_stitch_counts(&ideal, MAGIC_RING_STITCHES)
}

#[test]
fn test_increasing_radius() {
    let radii: Vec<f64> = (0..10).map(|i| 2.0 + i as f64 * 0.5).collect();

    let counts = solve(&radii, 3.0);
    assert_eq!(counts.len(), 10);

    for i in 1..counts.len() {
        assert!(counts[i] >= counts[i - 1]);
    }
}

#[test]
fn test_minimum_stitches() {
    let radii = vec![0.1, 0.2, 0.3];

    let counts = solve(&radii, 3.0);

    for &count in &counts {
        assert!(count >= 6);
    }
}

#[test]
fn test_max_delta_constraint() {
    let radii = vec![2.0, 10.0, 10.0];

    let counts = solve(&radii, 3.0);

    for i in 1..counts.len() {
        let delta = (counts[i] as i32 - counts[i - 1] as i32).abs() as usize;
        let max_delta = (counts[i - 1] as f64 / 6.0).max(6.0) as usize;
        assert!(delta <= max_delta);
    }
}

#[test]
fn clamp_keeps_an_ideal_inside_the_band() {
    assert_eq!(clamp_stitch_count(38, 38), 38);
    assert_eq!(clamp_stitch_count(38, 44), 44);
    assert_eq!(clamp_stitch_count(38, 32), 32);
}

#[test]
fn clamp_limits_the_change_to_six_or_a_sixth() {
    assert_eq!(clamp_stitch_count(6, 38), 12);
    assert_eq!(clamp_stitch_count(36, 100), 42);
    assert_eq!(clamp_stitch_count(42, 100), 49);
    assert_eq!(clamp_stitch_count(100, 300), 116);
    assert_eq!(clamp_stitch_count(100, 6), 84);
    assert_eq!(clamp_stitch_count(30, 0), 24);
}

#[test]
fn clamp_never_goes_below_six() {
    assert_eq!(clamp_stitch_count(8, 0), 6);
    assert_eq!(clamp_stitch_count(6, 0), 6);
    assert_eq!(clamp_stitch_count(0, 0), 6);
    assert_eq!(clamp_stitch_count(3, 2), 6);
    assert_eq!(MIN_ROW_STITCHES, 6);
}

#[test]
fn clamp_survives_the_largest_counts() {
    assert_eq!(clamp_stitch_count(usize::MAX, usize::MAX), usize::MAX);
    assert_eq!(clamp_stitch_count(usize::MAX, 0), usize::MAX - usize::MAX / 6);
    assert_eq!(clamp_stitch_count(usize::MAX - 3, usize::MAX), usize::MAX);
}

#[test]
fn first_row_always_has_the_baseline() {
    assert_eq!(MAGIC_RING_STITCHES, 6);
    assert_eq!(calculate_stitch_counts(&vec![94, 94], 6), vec![6, 12]);
    assert_eq!(calculate_stitch_counts(&vec![0], 6), vec![6]);
    assert_eq!(calculate_stitch_counts(&vec![1, 1, 1], 9), vec![9, 6, 6]);
    assert_eq!(calculate_stitch_counts(&vec![], 6), Vec::<usize>::new());
}

#[test]
fn cylinder_counts_climb_to_the_ideal_and_stay() {
    let ideal: Vec<usize> = vec![38; 31];
    let counts = calculate_stitch_counts(&ideal, 6);
    assert_eq!(counts.len(), 31);
    assert_eq!(&counts[..8], &[6, 12, 18, 24, 30, 36, 38, 38]);
    for &c in &counts[6..] {
        assert_eq!(c, 38);
    }
}

#[test]
fn cylinder_at_the_baseline_is_constant() {
    let counts = calculate_stitch_counts(&vec![38; 12], 38);
    assert_eq!(counts, vec![38; 12]);
}

#[test]
fn cone_counts_fall_to_the_floor() {
    let rows = 30;
    let radii: Vec<f64> = (0..rows)
        .map(|i| 5.0 - 5.0 * i as f64 / (rows - 1) as f64)
        .collect();
    let ideal = ideal_counts(&radii, 3.0);
    let counts = solve(&radii, 3.0);
    assert_eq!(counts.len(), rows);
    assert_eq!(counts[0], 6);
    let met = (1..rows).find(|&i| counts[i] == ideal[i]).unwrap();
    for i in 1..counts.len() {
        let allowed = std::cmp::max(6, counts[i - 1] / 6);
        assert!(counts[i].abs_diff(counts[i - 1]) <= allowed);
        if i <= met {
            assert!(counts[i] >= counts[i - 1]);
        } else {
            assert!(counts[i] <= counts[i - 1]);
            assert_eq!(counts[i], ideal[i].max(6));
        }
    }
    assert_eq!(*counts.last().unwrap(), 6);
}

#[test]
fn adjacent_counts_stay_in_the_band() {
    let ideal: Vec<usize> = vec![0, 500, 1, 7, 7, 1000, 1000, 1000, 3, 3, 3, 3, 64, 9];
    let counts = calculate_stitch_counts(&ideal, 6);
    for i in 1..counts.len() {
        let allowed = std::cmp::max(6, counts[i - 1] / 6);
        let delta = if counts[i] > counts[i - 1] {
            counts[i] - counts[i - 1]
        } else {
            counts[i - 1] - counts[i]
        };
        assert!(delta <= allowed);
        assert!(counts[i] >= 6);
    }
    assert_eq!(&counts[..4], &[6, 12, 6, 7]);
}

use crochet_core::generator::{
    assemble_pattern, calculate_metadata, compose_rows, generate_row_pattern, plan_rows,
    validate_pattern,
};
use crochet_core::types::StitchType::{INC, INVDEC, SC};
use crochet_core::types::{PatternError, Row, StitchInstruction, StitchType};

fn kinds(pattern: &[StitchInstruction]) -> Vec<StitchType> {
    pattern.iter().map(|s| s.stitch_type).collect()
}

fn count(pattern: &[StitchInstruction], kind: StitchType) -> usize {
    pattern.iter().filter(|s| s.stitch_type == kind).count()
}

fn consumed(pattern: &[StitchInstruction]) -> usize {
    pattern
        .iter()
        .map(|s| match s.stitch_type {
            StitchType::SC | StitchType::INC => 1,
            StitchType::DEC | StitchType::INVDEC => 2,
        })
        .sum()
}

fn produced(pattern: &[StitchInstruction]) -> usize {
    pattern
        .iter()
        .map(|s| match s.stitch_type {
            StitchType::INC => 2,
            _ => 1,
        })
        .sum()
}

#[test]
fn test_generate_row_pattern_no_change() {
    let pattern = generate_row_pattern(1, 12, 12);
    assert_eq!(pattern.len(), 12);

    for stitch in &pattern {
        assert_eq!(stitch.stitch_type, StitchType::SC);
    }
}

#[test]
fn test_generate_row_pattern_increases() {
    let pattern = generate_row_pattern(2, 12, 18);

    assert_eq!(pattern.len(), 12);

    let inc_count = pattern
        .iter()
        .filter(|s| s.stitch_type == StitchType::INC)
        .count();
    assert_eq!(inc_count, 6);

    let sc_count = pattern
        .iter()
        .filter(|s| s.stitch_type == StitchType::SC)
        .count();
    assert_eq!(sc_count, 6);

    let total_produced: usize = pattern
        .iter()
        .map(|s| match s.stitch_type {
            StitchType::INC => 2,
            StitchType::SC => 1,
            _ => 0,
        })
        .sum();
    assert_eq!(total_produced, 18);
}

#[test]
fn test_generate_row_pattern_decreases() {
    let pattern = generate_row_pattern(3, 18, 12);

    let consumed: usize = pattern
        .iter()
        .map(|s| match s.stitch_type {
            StitchType::INVDEC => 2,
            StitchType::SC => 1,
            _ => 0,
        })
        .sum();
    assert_eq!(consumed, 18);

    let produced: usize = pattern
        .iter()
        .map(|s| match s.stitch_type {
            StitchType::INVDEC => 1,
            StitchType::SC => 1,
            _ => 0,
        })
        .sum();
    assert_eq!(produced, 12);

    let dec_count = pattern
        .iter()
        .filter(|s| s.stitch_type == StitchType::INVDEC)
        .count();

    assert_eq!(dec_count, 6);
}

#[test]
fn increases_follow_the_schedule() {
    let pattern = generate_row_pattern(2, 12, 18);
    assert_eq!(
        kinds(&pattern),
        vec![INC, SC, INC, SC, INC, SC, INC, SC, INC, SC, INC, SC]
    );
    for (i, s) in pattern.iter().enumerate() {
        assert_eq!(s.stitch_index, i);
    }
    let pattern = generate_row_pattern(2, 6, 8);
    assert_eq!(kinds(&pattern), vec![INC, SC, SC, INC, SC, SC]);
}

#[test]
fn decreases_follow_the_schedule() {
    let pattern = generate_row_pattern(3, 18, 12);
    assert_eq!(
        kinds(&pattern),
        vec![INVDEC, SC, INVDEC, SC, INVDEC, SC, INVDEC, SC, INVDEC, SC, INVDEC, SC]
    );
    let indices: Vec<usize> = pattern.iter().map(|s| s.stitch_index).collect();
    assert_eq!(indices, vec![0, 2, 3, 5, 6, 8, 9, 11, 12, 14, 15, 17]);
}

#[test]
fn doubling_and_halving_are_the_limits() {
    let doubled = generate_row_pattern(2, 6, 12);
    assert_eq!(count(&doubled, StitchType::INC), 6);
    assert_eq!(produced(&doubled), 12);

    let halved = generate_row_pattern(2, 12, 6);
    assert_eq!(halved.len(), 6);
    assert_eq!(count(&halved, StitchType::INVDEC), 6);
    assert_eq!(consumed(&halved), 12);

    let too_much = generate_row_pattern(2, 6, 13);
    assert_eq!(consumed(&too_much), 6);
    assert_eq!(produced(&too_much), 12);

    let too_little = generate_row_pattern(2, 12, 5);
    assert_eq!(consumed(&too_little), 12);
    assert!(produced(&too_little) != 5);
}

#[test]
fn empty_previous_row_gives_empty_pattern() {
    assert!(generate_row_pattern(2, 0, 0).is_empty());
    assert!(generate_row_pattern(2, 0, 4).is_empty());
}

#[test]
fn validate_accepts_composed_rows() {
    let row = Row {
        row_number: 2,
        total_stitches: 18,
        pattern: generate_row_pattern(2, 12, 18),
    };
    assert!(validate_pattern(&row, 12).is_ok());
}

#[test]
fn validate_reports_consumption_mismatch() {
    let row = Row {
        row_number: 4,
        total_stitches: 18,
        pattern: generate_row_pattern(4, 12, 18),
    };
    match validate_pattern(&row, 13) {
        Err(PatternError::PatternInconsistency(detail)) => {
            assert_eq!(
                detail,
                "Row 4: pattern consumes 12 stitches but previous row has 13"
            );
        }
        other => panic!("unexpected result: {:?}", other),
    }
}

#[test]
fn validate_reports_production_mismatch() {
    let row = Row {
        row_number: 7,
        total_stitches: 20,
        pattern: generate_row_pattern(7, 12, 18),
    };
    let err = validate_pattern(&row, 12).unwrap_err();
    assert_eq!(
        err.message(),
        "Pattern inconsistency: Row 7: pattern produces 18 stitches but expects 20"
    );
}

#[test]
fn first_row_is_the_magic_ring() {
    let rows = plan_rows(&vec![38, 38, 38], 6);
    assert_eq!(rows[0].row_number, 1);
    assert_eq!(rows[0].total_stitches, 6);
    assert_eq!(rows[0].pattern.len(), 6);
    for (i, s) in rows[0].pattern.iter().enumerate() {
        assert_eq!(s.stitch_type, StitchType::SC);
        assert_eq!(s.stitch_index, i);
    }
}

#[test]
fn every_planned_row_closes() {
    let ideal: Vec<usize> = vec![6, 40, 90, 90, 30, 6, 0, 200, 7];
    let rows = plan_rows(&ideal, 6);
    assert_eq!(rows.len(), ideal.len());
    for i in 1..rows.len() {
        assert_eq!(consumed(&rows[i].pattern), rows[i - 1].total_stitches);
        assert_eq!(produced(&rows[i].pattern), rows[i].total_stitches);
        assert_eq!(rows[i].row_number, i + 1);
    }
    assert!(assemble_pattern(rows).is_ok());
}

#[test]
fn cylinder_reaches_its_count_and_stays() {
    let ideal: Vec<usize> = vec![38; 30];
    let rows = plan_rows(&ideal, 6);
    assert!(rows.len() >= 30);
    let totals: Vec<usize> = rows.iter().map(|r| r.total_stitches).collect();
    assert_eq!(&totals[..8], &[6, 12, 18, 24, 30, 36, 38, 38]);
    for i in 7..rows.len() {
        assert_eq!(rows[i].total_stitches, 38);
        assert_eq!(count(&rows[i].pattern, StitchType::SC), 38);
    }
}

#[test]
fn cylinder_at_the_baseline_has_identical_rows() {
    let rows = plan_rows(&vec![6; 10], 6);
    for row in &rows {
        assert_eq!(row.total_stitches, 6);
        assert_eq!(count(&row.pattern, StitchType::SC), row.pattern.len());
    }
}

#[test]
fn assemble_rejects_a_row_that_does_not_close() {
    let mut rows = compose_rows(&vec![6, 12, 18]);
    rows[2].pattern.pop();
    match assemble_pattern(rows) {
        Err(PatternError::PatternInconsistency(detail)) => {
            assert_eq!(
                detail,
                "Row 3: pattern consumes 11 stitches but previous row has 12"
            );
        }
        other => panic!("unexpected result: {:?}", other),
    }
}

#[test]
fn metadata_counts_rows_stitches_and_seconds() {
    let rows = compose_rows(&vec![6, 12, 18]);
    let meta = calculate_metadata(&rows).unwrap();
    assert_eq!(meta.total_rows, 3);
    assert_eq!(meta.total_stitches, 36);
    assert_eq!(meta.estimated_time_seconds, 72);
    let pattern = assemble_pattern(rows).unwrap();
    assert_eq!(pattern.metadata, meta);
    assert_eq!(pattern.rows.len(), 3);
}

#[test]
fn metadata_refuses_totals_beyond_the_machine_word() {
    let rows = vec![
        Row { row_number: 1, total_stitches: usize::MAX, pattern: vec![] },
        Row { row_number: 2, total_stitches: 1, pattern: vec![] },
    ];
    assert!(calculate_metadata(&rows).is_none());
    let rows = vec![Row { row_number: 1, total_stitches: usize::MAX / 2 + 1, pattern: vec![] }];
    assert!(calculate_metadata(&rows).is_none());
    let rows = vec![Row { row_number: 1, total_stitches: usize::MAX / 2, pattern: vec![] }];
    assert_eq!(calculate_metadata(&rows).unwrap().estimated_time_seconds, usize::MAX - 1);
}

#[test]
fn test_generate_cylinder_pattern() {
    let radius = 2.0f64;
    let (total_height_cm, gauge_stitches_per_cm, gauge_rows_per_cm) = (10.0f64, 3.0f64, 3.0f64);
    let num_rows = (total_height_cm * gauge_rows_per_cm).round() as usize;
    let ideal: Vec<usize> = (0..num_rows)
        .map(|_| (2.0 * std::f64::consts::PI * radius * gauge_stitches_per_cm).round() as usize)
        .collect();

    let result = assemble_pattern(plan_rows(&ideal, 6));
    assert!(result.is_ok());

    let pattern = result.unwrap();
    assert!(pattern.rows.len() > 0);
    assert_eq!(pattern.metadata.total_rows, pattern.rows.len());
}

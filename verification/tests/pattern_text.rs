use crochet_core::generator::{generate_row_pattern, validate_config, validate_curve, ConfigFacts, CurveFacts};
use crochet_core::instruction::diagram::{DiagramGenerator, CANVAS_HEIGHT, CANVAS_WIDTH, STITCH_RADIUS};
use crochet_core::instruction::formatter::PatternFormatter;
use crochet_core::instruction::generator::InstructionGenerator;
use crochet_core::pattern::amigurumi::AmigurumiGenerator;
use crochet_core::pattern::optimizer::PatternOptimizer;
use crochet_core::pattern::row_grouping::RowGrouper;
use crochet_core::radius::clamped_index;
use crochet_core::stitch::connectivity::StitchConnectivity;
use crochet_core::stitch::grid_generator::{layout_grid, row_target_count};
use crochet_core::stitch::type_classifier::{CurvatureBand, StitchTypeClassifier};
use crochet_core::stitch::StitchType;
use crochet_core::text::decimal;
use crochet_core::types::{PatternError, Row};

#[test]
fn decimal_renders_counts() {
    assert_eq!(decimal(0), "0");
    assert_eq!(decimal(7), "7");
    assert_eq!(decimal(10), "10");
    assert_eq!(decimal(1234567890), "1234567890");
    assert_eq!(decimal(u128::MAX), u128::MAX.to_string());
}

#[test]
fn stitch_names_and_abbreviations() {
    assert_eq!(crochet_core::types::StitchType::SC.to_string(), "sc");
    assert_eq!(crochet_core::types::StitchType::INC.to_string(), "inc");
    assert_eq!(crochet_core::types::StitchType::DEC.to_string(), "dec");
    assert_eq!(crochet_core::types::StitchType::INVDEC.to_string(), "invdec");
    assert_eq!(crochet_core::types::StitchType::SC.abbreviation(), "sc");
    assert_eq!(crochet_core::types::StitchType::INC.abbreviation(), "inc");
    assert_eq!(crochet_core::types::StitchType::DEC.abbreviation(), "dec");
    assert_eq!(crochet_core::types::StitchType::INVDEC.abbreviation(), "invdec");
    assert_eq!(StitchType::SingleCrochet.abbreviation(), "sc");
    assert_eq!(StitchType::HalfDoubleCrochet.abbreviation(), "hdc");
    assert_eq!(StitchType::DoubleCrochet.abbreviation(), "dc");
    assert_eq!(StitchType::Increase.abbreviation(), "inc");
    assert_eq!(StitchType::Decrease.abbreviation(), "dec");
    assert_eq!(StitchType::ChainStitch.abbreviation(), "ch");
}

#[test]
fn stitch_totals_per_kind() {
    let sc = crochet_core::types::StitchType::SC;
    let inc = crochet_core::types::StitchType::INC;
    let dec = crochet_core::types::StitchType::DEC;
    let invdec = crochet_core::types::StitchType::INVDEC;
    assert_eq!((sc.consumed_stitches(), sc.produced_stitches()), (1, 1));
    assert_eq!((inc.consumed_stitches(), inc.produced_stitches()), (1, 2));
    assert_eq!((dec.consumed_stitches(), dec.produced_stitches()), (2, 1));
    assert_eq!((invdec.consumed_stitches(), invdec.produced_stitches()), (2, 1));
}

#[test]
fn error_messages_carry_their_kind() {
    let d = "x".to_string();
    assert_eq!(PatternError::InvalidProfileCurve(d.clone()).message(), "Invalid profile curve: x");
    assert_eq!(PatternError::InvalidConfiguration(d.clone()).message(), "Invalid configuration: x");
    assert_eq!(PatternError::ParameterizationFailure(d.clone()).message(), "Parameterization failed: x");
    assert_eq!(PatternError::SeamPlacementFailure(d.clone()).message(), "Seam placement failed: x");
    assert_eq!(PatternError::PatternInconsistency(d.clone()).message(), "Pattern inconsistency: x");
    assert_eq!(PatternError::IOError(d.clone()).message(), "I/O error: x");
    assert_eq!(PatternError::InternalError(d).message(), "Internal error: x");
}

#[test]
fn row_summary_groups_equal_stitches() {
    let row = Row { row_number: 2, total_stitches: 18, pattern: generate_row_pattern(2, 12, 18) };
    assert_eq!(
        row.pattern_string(),
        "inc, sc, inc, sc, inc, sc, inc, sc, inc, sc, inc, sc"
    );
    let row = Row { row_number: 2, total_stitches: 8, pattern: generate_row_pattern(2, 6, 8) };
    assert_eq!(row.pattern_string(), "inc, 2 sc, inc, 2 sc");
    let row = Row { row_number: 1, total_stitches: 12, pattern: generate_row_pattern(1, 12, 12) };
    assert_eq!(row.pattern_string(), "12 sc");
    let row = Row { row_number: 1, total_stitches: 1, pattern: generate_row_pattern(1, 1, 1) };
    assert_eq!(row.pattern_string(), "sc");
    let row = Row { row_number: 3, total_stitches: 6, pattern: generate_row_pattern(3, 12, 6) };
    assert_eq!(row.pattern_string(), "6 invdec");
    let row = Row { row_number: 1, total_stitches: 6, pattern: vec![] };
    assert_eq!(row.pattern_string(), "6 sc");
}

#[test]
fn empty_curve_is_an_invalid_profile_curve() {
    let facts = CurveFacts {
        segment_count: 0,
        start_radius_negative: true,
        end_radius_negative: false,
        first_discontinuity: Some(1),
    };
    match validate_curve(&facts) {
        Err(PatternError::InvalidProfileCurve(detail)) => assert_eq!(detail, "Curve has no segments"),
        other => panic!("unexpected result: {:?}", other),
    }
}

#[test]
fn discontinuous_curve_is_an_invalid_profile_curve() {
    let ok = CurveFacts {
        segment_count: 3,
        start_radius_negative: false,
        end_radius_negative: false,
        first_discontinuity: None,
    };
    assert!(validate_curve(&ok).is_ok());
    let detail = |facts: CurveFacts| match validate_curve(&facts) {
        Err(PatternError::InvalidProfileCurve(detail)) => detail,
        other => panic!("unexpected result: {:?}", other),
    };
    assert_eq!(
        detail(CurveFacts { first_discontinuity: Some(2), ..ok }),
        "Curve segments are not continuous"
    );
    assert_eq!(
        detail(CurveFacts { start_radius_negative: true, end_radius_negative: true, ..ok }),
        "Start radius must be non-negative"
    );
    assert_eq!(
        detail(CurveFacts { end_radius_negative: true, first_discontinuity: Some(1), ..ok }),
        "End radius must be non-negative"
    );
}

#[test]
fn non_positive_figures_are_an_invalid_configuration() {
    let ok = ConfigFacts {
        height_positive: true,
        stitch_gauge_positive: true,
        row_gauge_positive: true,
        hook_size_positive: true,
    };
    assert!(validate_config(&ok).is_ok());
    let detail = |facts: ConfigFacts| match validate_config(&facts) {
        Err(PatternError::InvalidConfiguration(detail)) => detail,
        other => panic!("unexpected result: {:?}", other),
    };
    assert_eq!(detail(ConfigFacts { height_positive: false, hook_size_positive: false, ..ok }), "Height must be positive");
    assert_eq!(detail(ConfigFacts { stitch_gauge_positive: false, ..ok }), "Gauge stitches per cm must be positive");
    assert_eq!(detail(ConfigFacts { row_gauge_positive: false, ..ok }), "Gauge rows per cm must be positive");
    assert_eq!(detail(ConfigFacts { hook_size_positive: false, ..ok }), "Hook size must be positive");
}

#[test]
fn pole_rows_get_at_least_six_stitches() {
    assert_eq!(row_target_count(2, 0, 10), 6);
    assert_eq!(row_target_count(2, 9, 10), 6);
    assert_eq!(row_target_count(0, 0, 1), 6);
    assert_eq!(row_target_count(2, 5, 10), 2);
    assert_eq!(row_target_count(0, 5, 10), 1);
    assert_eq!(row_target_count(9, 0, 10), 9);
    assert_eq!(row_target_count(6, 9, 10), 6);
    assert_eq!(row_target_count(0, 3, 0), 1);
}

#[test]
fn grid_rows_cover_every_stitch_once() {
    let grid = layout_grid(&vec![6, 0, 3, 8]).unwrap();
    assert_eq!(grid.stitches.len(), 17);
    assert_eq!(grid.rows.len(), 4);
    let flat: Vec<u32> = grid.rows.iter().flatten().copied().collect();
    assert_eq!(flat, (0..17).collect::<Vec<u32>>());
    assert_eq!(grid.rows[2], vec![6, 7, 8]);
    for (r, row) in grid.rows.iter().enumerate() {
        for &id in row {
            assert_eq!(grid.stitches[id as usize].id, id);
            assert_eq!(grid.stitches[id as usize].row as usize, r);
            assert_eq!(grid.stitches[id as usize].stitch_type, StitchType::SingleCrochet);
            assert!(grid.stitches[id as usize].connections.is_empty());
        }
    }
    assert!(layout_grid(&vec![]).unwrap().stitches.is_empty());
    assert!(layout_grid(&vec![u32::MAX, 1]).is_none());
    assert!(layout_grid(&vec![1, u32::MAX]).is_none());
}

#[test]
fn connections_link_along_the_row_and_up() {
    let mut grid = layout_grid(&vec![2, 4, 1]).unwrap();
    grid.stitches[0].connections.push(99);
    StitchConnectivity::new().build_connections(&mut grid);
    let connections: Vec<Vec<u32>> = grid.stitches.iter().map(|s| s.connections.clone()).collect();
    assert_eq!(
        connections,
        vec![
            vec![99, 1, 2],
            vec![4],
            vec![3, 6],
            vec![4, 6],
            vec![5, 6],
            vec![6],
            vec![],
        ]
    );
    assert_eq!(grid.rows, vec![vec![0, 1], vec![2, 3, 4, 5], vec![6]]);
}

#[test]
fn connections_skip_an_empty_next_row() {
    let mut grid = layout_grid(&vec![2, 0, 1]).unwrap();
    StitchConnectivity::new().build_connections(&mut grid);
    let connections: Vec<Vec<u32>> = grid.stitches.iter().map(|s| s.connections.clone()).collect();
    assert_eq!(connections, vec![vec![1], vec![], vec![]]);
}

#[test]
fn curvature_bands_pick_the_stitch_kind() {
    let classifier = StitchTypeClassifier::new();
    assert_eq!(classifier.kind_for(CurvatureBand::StronglyPositive), StitchType::Increase);
    assert_eq!(classifier.kind_for(CurvatureBand::StronglyNegative), StitchType::Decrease);
    assert_eq!(classifier.kind_for(CurvatureBand::Flat), StitchType::SingleCrochet);
    assert_eq!(classifier.kind_for(CurvatureBand::Mild), StitchType::HalfDoubleCrochet);
}

#[test]
fn time_and_yarn_estimates() {
    let optimizer = PatternOptimizer::new();
    assert_eq!(optimizer.estimate_time(0), "0m");
    assert_eq!(optimizer.estimate_time(1), "1m");
    assert_eq!(optimizer.estimate_time(14), "7m");
    assert_eq!(optimizer.estimate_time(118), "59m");
    assert_eq!(optimizer.estimate_time(119), "1h 0m");
    assert_eq!(optimizer.estimate_time(250), "2h 5m");
    assert_eq!(optimizer.estimate_yarn(0), "0 yards");
    assert_eq!(optimizer.estimate_yarn(5), "3 yards");
    assert_eq!(optimizer.estimate_yarn(14), "7 yards");
    assert_eq!(optimizer.estimate_yarn(usize::MAX), format!("{} yards", u32::MAX));
}

#[test]
fn optimizer_groups_the_stitches_of_each_row() {
    let mut grid = layout_grid(&vec![6, 8]).unwrap();
    grid.stitches[6].stitch_type = StitchType::Increase;
    grid.stitches[7].stitch_type = StitchType::Increase;
    grid.stitches[13].stitch_type = StitchType::Decrease;
    let pattern = PatternOptimizer::new().optimize(grid);
    assert_eq!(pattern.metadata.stitch_count, 14);
    assert_eq!(pattern.metadata.row_count, 2);
    assert_eq!(pattern.metadata.estimated_time, "7m");
    assert_eq!(pattern.metadata.yarn_estimate, "7 yards");
    assert!(pattern.diagram.is_none());
    assert_eq!(pattern.stitches.len(), 14);
    let rows = &pattern.instructions.rows;
    assert_eq!(rows.len(), 2);
    assert_eq!((rows[0].number, rows[0].total_stitches), (1, 6));
    assert_eq!((rows[1].number, rows[1].total_stitches), (2, 8));
    let texts: Vec<&str> = rows[0].stitches.iter().map(|g| g.instruction.as_str()).collect();
    assert_eq!(texts, vec!["6 sc"]);
    let groups: Vec<(usize, StitchType, &str)> = rows[1]
        .stitches
        .iter()
        .map(|g| (g.count, g.stitch_type, g.instruction.as_str()))
        .collect();
    assert_eq!(
        groups,
        vec![
            (2, StitchType::Increase, "2 inc"),
            (5, StitchType::SingleCrochet, "5 sc"),
            (1, StitchType::Decrease, "1 dec"),
        ]
    );
}

#[test]
fn text_rendering_lists_the_rows() {
    let pattern = PatternOptimizer::new().optimize(layout_grid(&vec![6, 8]).unwrap());
    let text = PatternFormatter::new().to_text(&pattern).unwrap();
    assert_eq!(
        text,
        "CROCHET PATTERN\n===============\n\nTotal stitches: 14\nTotal rows: 2\n\
         Estimated time: 7m\nYarn needed: 7 yards\n\nINSTRUCTIONS\n============\n\n\
         Row 1: 6 sc (6)\nRow 2: 8 sc (8)\n"
    );
    let mut grid = layout_grid(&vec![3, 0]).unwrap();
    grid.stitches[1].stitch_type = StitchType::ChainStitch;
    let text = PatternFormatter::new()
        .to_text(&PatternOptimizer::new().optimize(grid))
        .unwrap();
    assert!(text.ends_with("Row 1: 1 sc, 1 ch, 1 sc (3)\nRow 2:  (0)\n"));
}

#[test]
fn diagram_is_attached_and_read_back() {
    let formatter = PatternFormatter::new();
    let pattern = PatternOptimizer::new().optimize(layout_grid(&vec![6]).unwrap());
    match formatter.to_svg(&pattern) {
        Err(PatternError::InternalError(detail)) => assert_eq!(detail, "No diagram available"),
        other => panic!("unexpected result: {:?}", other),
    }
    let pattern = InstructionGenerator::new().attach_diagram(pattern, "<svg></svg>".to_string());
    assert_eq!(formatter.to_svg(&pattern).unwrap(), "<svg></svg>");
    assert_eq!(pattern.metadata.stitch_count, 6);
    assert_eq!(pattern.instructions.rows.len(), 1);
}

#[test]
fn diagram_colours_and_canvas() {
    let diagram = DiagramGenerator::new();
    assert_eq!(diagram.stitch_color(StitchType::SingleCrochet), "#4A90E2");
    assert_eq!(diagram.stitch_color(StitchType::HalfDoubleCrochet), "#7ED321");
    assert_eq!(diagram.stitch_color(StitchType::DoubleCrochet), "#F5A623");
    assert_eq!(diagram.stitch_color(StitchType::Increase), "#E94B3C");
    assert_eq!(diagram.stitch_color(StitchType::Decrease), "#9013FE");
    assert_eq!(diagram.stitch_color(StitchType::ChainStitch), "#8B572A");
    assert_eq!((CANVAS_WIDTH, CANVAS_HEIGHT, STITCH_RADIUS), (800, 600, 3));
}

#[test]
fn similar_rows_are_grouped_under_their_first_row() {
    let mut pattern = PatternOptimizer::new().optimize(layout_grid(&vec![6, 6, 6, 8, 6, 6]).unwrap());
    RowGrouper::new().group_rows(&mut pattern);
    let rows: Vec<(u32, usize, Vec<&str>)> = pattern
        .instructions
        .rows
        .iter()
        .map(|r| {
            (
                r.number,
                r.total_stitches,
                r.stitches.iter().map(|g| g.instruction.as_str()).collect(),
            )
        })
        .collect();
    assert_eq!(
        rows,
        vec![
            (1, 6, vec!["6 sc (repeat for rows 1-3)"]),
            (4, 8, vec!["8 sc"]),
            (5, 6, vec!["6 sc (repeat for rows 5-6)"]),
        ]
    );
    assert_eq!(pattern.metadata.row_count, 6);
    assert_eq!(pattern.stitches.len(), 38);
}

#[test]
fn grouping_leaves_short_patterns_alone() {
    let mut pattern = PatternOptimizer::new().optimize(layout_grid(&vec![6]).unwrap());
    RowGrouper::new().group_rows(&mut pattern);
    assert_eq!(pattern.instructions.rows.len(), 1);
    assert_eq!(pattern.instructions.rows[0].stitches[0].instruction, "6 sc");
    let mut pattern = PatternOptimizer::new().optimize(layout_grid(&vec![]).unwrap());
    RowGrouper::new().group_rows(&mut pattern);
    assert!(pattern.instructions.rows.is_empty());
}

#[test]
fn amigurumi_conversion_is_refused() {
    let pattern = PatternOptimizer::new().optimize(layout_grid(&vec![6]).unwrap());
    match AmigurumiGenerator::new().convert_to_amigurumi(&pattern) {
        Err(PatternError::InternalError(detail)) => {
            assert_eq!(detail, "Amigurumi conversion is not available")
        }
        other => panic!("unexpected result: {:?}", other.map(|p| p.metadata.stitch_count)),
    }
}

#[test]
fn kernel_taps_are_clamped_to_the_samples() {
    assert_eq!(clamped_index(0, -3, 10), 0);
    assert_eq!(clamped_index(2, -3, 10), 0);
    assert_eq!(clamped_index(5, -3, 10), 2);
    assert_eq!(clamped_index(5, 0, 10), 5);
    assert_eq!(clamped_index(8, 1, 10), 9);
    assert_eq!(clamped_index(8, 4, 10), 9);
    assert_eq!(clamped_index(0, 0, 1), 0);
    assert_eq!(clamped_index(3, i64::MIN, 10), 0);
    assert_eq!(clamped_index(3, i64::MAX, 10), 9);
}

#[test]
fn test_validate_empty_curve() {
    let segments: Vec<[(f64, f64); 4]> = vec![];
    let (start_radius, end_radius) = (2.0f64, 2.0f64);
    let facts = CurveFacts {
        segment_count: segments.len(),
        start_radius_negative: start_radius < 0.0,
        end_radius_negative: end_radius < 0.0,
        first_discontinuity: None,
    };

    assert!(validate_curve(&facts).is_err());
}

#[test]
fn test_validate_negative_config() {
    let total_height_cm = -1.0f64;
    let (gauge_stitches_per_cm, gauge_rows_per_cm, recommended_hook_size_mm) =
        (3.0f64, 3.0f64, 3.5f64);
    let facts = ConfigFacts {
        height_positive: total_height_cm > 0.0,
        stitch_gauge_positive: gauge_stitches_per_cm > 0.0,
        row_gauge_positive: gauge_rows_per_cm > 0.0,
        hook_size_positive: recommended_hook_size_mm > 0.0,
    };

    assert!(validate_config(&facts).is_err());
}

#[test]
fn connections_gather_over_every_place_of_a_stitch() {
    let mut grid = layout_grid(&vec![2, 2]).unwrap();
    grid.rows = vec![vec![0, 1, 0], vec![2, 3]];
    StitchConnectivity::new().build_connections(&mut grid);
    let connections: Vec<Vec<u32>> = grid.stitches.iter().map(|s| s.connections.clone()).collect();
    assert_eq!(connections, vec![vec![1, 2, 3], vec![0, 2], vec![3], vec![]]);
}

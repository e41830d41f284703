use crochet_core::pattern::row_grouping::RowGrouper;
use crochet_core::pattern::types::{RowInstruction, StitchGroup};
use crochet_core::stitch::StitchType;

#[test]
fn test_rows_are_similar() {
    let grouper = RowGrouper::new();

    let row1 = RowInstruction {
        number: 1,
        stitches: vec![StitchGroup {
            count: 10,
            stitch_type: StitchType::SingleCrochet,
            instruction: "10 sc".to_string(),
        }],
        total_stitches: 10,
    };

    let row2 = RowInstruction {
        number: 2,
        stitches: vec![StitchGroup {
            count: 10,
            stitch_type: StitchType::SingleCrochet,
            instruction: "10 sc".to_string(),
        }],
        total_stitches: 10,
    };

    assert!(grouper.rows_are_similar(&row1, &row2));
}

fn row(number: u32, groups: &[(usize, StitchType)], total: usize) -> RowInstruction {
    RowInstruction {
        number,
        stitches: groups
            .iter()
            .map(|&(count, stitch_type)| StitchGroup {
                count,
                stitch_type,
                instruction: format!("{} {}", count, stitch_type.abbreviation()),
            })
            .collect(),
        total_stitches: total,
    }
}

#[test]
fn rows_differ_by_total_group_count_kind_or_length() {
    let grouper = RowGrouper::new();
    let base = row(1, &[(4, StitchType::SingleCrochet), (2, StitchType::Increase)], 8);
    assert!(grouper.rows_are_similar(&base, &row(9, &[(4, StitchType::SingleCrochet), (2, StitchType::Increase)], 8)));
    assert!(!grouper.rows_are_similar(&base, &row(2, &[(4, StitchType::SingleCrochet), (2, StitchType::Increase)], 9)));
    assert!(!grouper.rows_are_similar(&base, &row(2, &[(5, StitchType::SingleCrochet), (2, StitchType::Increase)], 8)));
    assert!(!grouper.rows_are_similar(&base, &row(2, &[(4, StitchType::SingleCrochet), (2, StitchType::Decrease)], 8)));
    assert!(!grouper.rows_are_similar(&base, &row(2, &[(4, StitchType::SingleCrochet)], 8)));
}

use ogre::error::OgreError;
use ogre::modes::bench;
use ogre::modes::profile::{format_number, profile_source};

#[test]
fn test_profile_empty() {
    let report = profile_source("", 30000).unwrap();
    assert_eq!(report.total_instructions, 0);
}

#[test]
fn test_profile_simple_add() {
    let report = profile_source("+++", 30000).unwrap();
    assert_eq!(report.total_instructions, 1);
    assert_eq!(report.instruction_mix.add_sub, 1);
}

#[test]
fn test_profile_moves() {
    let report = profile_source(">>><<<", 30000).unwrap();
    let _ = report.instruction_mix.moves;
}

#[test]
fn test_profile_loop() {
    let report = profile_source("+++[-]", 30000).unwrap();
    assert!(report.total_instructions >= 1);
}

#[test]
fn test_profile_hot_cells() {
    let report = profile_source("+++>++>+", 30000).unwrap();
    assert!(!report.hot_cells.is_empty());
}

#[test]
fn test_profile_cells_tracked() {
    let report = profile_source(">>>>>+", 30000).unwrap();
    assert!(report.max_cell_used >= 5);
}

#[test]
fn profile_test_format_number() {
    assert_eq!(format_number(0), "0");
    assert_eq!(format_number(999), "999");
    assert_eq!(format_number(1000), "1,000");
    assert_eq!(format_number(1234567), "1,234,567");
}

#[test]
fn bench_test_format_number() {
    assert_eq!(bench::format_number(0), "0");
    assert_eq!(bench::format_number(123), "123");
    assert_eq!(bench::format_number(1234), "1,234");
    assert_eq!(bench::format_number(1234567), "1,234,567");
}

#[test]
fn format_numbers_above_a_billion() {
    assert_eq!(format_number(1234567890), "1234,567,890");
    assert_eq!(format_number(1002003), "1,002,003");
    assert_eq!(bench::format_number(1234567890), "1,234,567,890");
    assert_eq!(bench::format_number(100000), "100,000");
}

#[test]
fn profile_loop_statistics_and_mix() {
    let report = profile_source("++[>+.<-]", 30000).unwrap();
    assert_eq!(report.total_instructions, 14);
    assert_eq!(report.instruction_mix.add_sub, 5);
    assert_eq!(report.instruction_mix.moves, 4);
    assert_eq!(report.instruction_mix.io, 2);
    assert_eq!(report.instruction_mix.loops, 3);
    assert_eq!(report.instruction_mix.other, 0);
    assert_eq!(report.hot_cells, vec![(0, 8), (1, 6)]);
    assert_eq!(report.loop_stats.len(), 1);
    assert_eq!(report.loop_stats[0].op_index, 1);
    assert_eq!(report.loop_stats[0].total_iterations, 2);
    assert_eq!(report.loop_stats[0].entries, 1);
    assert_eq!(report.cells_accessed, 2);
    assert_eq!(report.max_cell_used, 1);
}

#[test]
fn profile_pointer_is_clamped_to_the_tape() {
    let report = profile_source(">>>>+", 3).unwrap();
    assert_eq!(report.max_cell_used, 2);
}

#[test]
fn profile_reports_a_pointer_off_the_tape() {
    match profile_source("+", 0) {
        Err(OgreError::TapeOverflow(_)) => {}
        other => panic!("unexpected: {:?}", other.is_ok()),
    }
    match profile_source("[", 100) {
        Err(OgreError::UnmatchedOpenBracket(_)) => {}
        other => panic!("unexpected: {:?}", other.is_ok()),
    }
}

#[test]
fn profile_hot_cells_keep_ten_largest() {
    let report = profile_source("+>+>+>+>+>+>+>+>+>+>+>++>+<<", 100).unwrap();
    assert_eq!(report.hot_cells.len(), 10);
    assert!(report.hot_cells.windows(2).all(|w| w[0].1 >= w[1].1));
}

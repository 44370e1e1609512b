use ogre::modes::analyse::strip_report_header;
use ogre::modes::analyse::analyse_source;

#[test]
fn test_no_errors_valid_brackets() {
    let report = analyse_source("[+]");
    assert!(report.bracket_errors.is_empty());
}

#[test]
fn analyse_test_unmatched_open_bracket() {
    let report = analyse_source("[+");
    assert!(!report.bracket_errors.is_empty());
    assert!(report.bracket_errors[0].contains('['));
}

#[test]
fn analyse_test_unmatched_close_bracket() {
    let report = analyse_source("+]");
    assert!(!report.bracket_errors.is_empty());
    assert!(report.bracket_errors[0].contains(']'));
}

#[test]
fn test_io_counting() {
    let report = analyse_source(",,..");
    assert_eq!(report.total_inputs, 2);
    assert_eq!(report.total_outputs, 2);
}

#[test]
fn test_ptr_tracking_no_loops() {
    let report = analyse_source(">>><");
    assert_eq!(report.ptr_end_offset, Some(2));
}

#[test]
fn test_ptr_indeterminate_with_loops() {
    let report = analyse_source("[>]");
    assert_eq!(report.ptr_end_offset, None);
}

#[test]
fn test_ptr_offset_zero() {
    let report = analyse_source("><");
    assert_eq!(report.ptr_end_offset, Some(0));
}

#[test]
fn test_empty_program() {
    let report = analyse_source("");
    assert!(report.bracket_errors.is_empty());
    assert_eq!(report.total_inputs, 0);
    assert_eq!(report.total_outputs, 0);
    assert_eq!(report.ptr_end_offset, Some(0));
}

#[test]
fn test_clear_idiom_detection() {
    let report = analyse_source("[-]");
    assert!(report.has_clear_idiom);
}

#[test]
fn test_cancellation_detection() {
    let report = analyse_source("+-");
    assert!(report.has_cancellation);
}

#[test]
fn analyse_test_unbalanced_pointer() {
    let report = analyse_source(">>>");
    assert!(report.unbalanced_pointer);
}

#[test]
fn test_clear_idiom_count() {
    let report = analyse_source("[-]+++[-]>>[-]");
    assert_eq!(report.clear_idiom_count, 3);
}

#[test]
fn test_cancellation_positions() {
    let report = analyse_source("+->+<>");
    assert!(report.has_cancellation);
    assert!(!report.cancellation_positions.is_empty());
    assert!(report.cancellation_positions.contains(&0));
    assert!(report.cancellation_positions.contains(&4));
}

#[test]
fn test_dead_code_after_infinite_loop() {
    let report = analyse_source("+[>+<]+++");
    assert!(report.has_dead_code);
    assert!(!report.dead_code_positions.is_empty());
}

#[test]
fn test_no_dead_code_normal_program() {
    let report = analyse_source("+++[>+<-]>.");
    assert!(!report.has_dead_code);
}

#[test]
fn test_no_false_positive_cancellation() {
    let report = analyse_source("+.->.<>");
    assert!(report.has_cancellation);
}

#[test]
fn test_no_cancellation_in_clean_code() {
    let report = analyse_source("+++>>>.---<<<");
    assert!(!report.has_cancellation);
}

#[test]
fn test_max_loop_depth() {
    let report = analyse_source("[[+]]");
    assert_eq!(report.max_loop_depth, 2);
}

#[test]
fn test_max_loop_depth_zero() {
    let report = analyse_source("+++");
    assert_eq!(report.max_loop_depth, 0);
}

#[test]
fn test_total_ops_count() {
    let report = analyse_source("+++>>.");
    assert_eq!(report.total_ops, 6);
}

#[test]
fn test_optimized_ops_fewer() {
    let report = analyse_source("+++---");
    assert!(report.optimized_ops <= report.total_ops);
}

#[test]
fn test_max_loop_depth_sequential() {
    let report = analyse_source("[+][+][+]");
    assert_eq!(report.max_loop_depth, 1);
}

#[test]
fn test_max_loop_depth_deep() {
    let report = analyse_source("[[[+]]]");
    assert_eq!(report.max_loop_depth, 3);
}

#[test]
fn analyse_reports_exact_counts_and_positions() {
    let report = analyse_source("+-[-]>><<[]x");
    assert_eq!(report.total_ops, 11);
    assert_eq!(report.clear_idiom_count, 1);
    assert!(report.has_cancellation);
    assert!(report.cancellation_positions.contains(&0));
    assert!(report.cancellation_positions.contains(&6));
    assert_eq!(report.ptr_end_offset, None);
    assert!(!report.unbalanced_pointer);
    assert_eq!(report.max_loop_depth, 1);
}

#[test]
fn analyse_bracket_error_messages() {
    let report = analyse_source("]][");
    assert_eq!(report.bracket_errors.len(), 1);
    assert!(report.bracket_errors[0].contains(']'));
}

#[test]
fn cancellation_needs_adjacent_commands() {
    assert_eq!(analyse_source("+.->.<>").cancellation_positions, vec![5]);
    assert_eq!(analyse_source("+ comment -").cancellation_positions, vec![0]);
    assert_eq!(analyse_source("+[-]").cancellation_positions, Vec::<usize>::new());
}

#[test]
fn report_header_is_stripped() {
    assert_eq!(strip_report_header("# a\n# b\n\n+++\r\n# kept\n."), "+++\n# kept\n.\n");
    assert_eq!(strip_report_header("# only\n\n"), "");
    assert_eq!(strip_report_header(""), "");
}

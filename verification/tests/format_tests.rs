use ogre::modes::format::format_source_checked;
use ogre::modes::format::{FormatOptions, format_bf_only, format_source, generate_diff};

#[test]
fn test_indent_loop() {
    let opts = FormatOptions { indent: 4, ..Default::default() };
    let result = format_source("[+]", &opts).unwrap();
    let lines: Vec<&str> = result.lines().collect();
    let inner = lines.iter().find(|l| l.contains('+')).unwrap();
    assert!(inner.starts_with("    "), "inner should be indented: {:?}", inner);
}

#[test]
fn test_comments_stripped_by_default() {
    let opts = FormatOptions::default();
    let result = format_source("+ this is a comment +", &opts).unwrap();
    assert!(!result.contains("this"));
    assert!(!result.contains("comment"));
}

#[test]
fn test_preserve_comments() {
    let opts = FormatOptions { preserve_comments: true, ..Default::default() };
    let result = format_source("+ comment +", &opts).unwrap();
    assert!(result.contains("comment"));
}

#[test]
fn test_grouping() {
    let opts = FormatOptions { grouping: 5, ..Default::default() };
    let result = format_source("++++++++++", &opts).unwrap();
    assert!(result.contains("+++++ +++++"), "got: {:?}", result);
}

#[test]
fn test_nested_loop_indent() {
    let opts = FormatOptions { indent: 2, linewidth: 80, ..Default::default() };
    let result = format_source("[[+]]", &opts).unwrap();
    let lines: Vec<&str> = result.lines().collect();
    let inner_plus = lines.iter().find(|l| l.contains('+')).unwrap();
    assert!(inner_plus.starts_with("    "), "got: {:?}", inner_plus);
}

#[test]
fn test_linewidth_wrap() {
    let opts = FormatOptions { indent: 0, linewidth: 10, grouping: 0, ..Default::default() };
    let result = format_source("+++++++++++++++", &opts).unwrap();
    let lines: Vec<&str> = result.lines().collect();
    assert!(lines.len() > 1, "should have wrapped");
}

#[test]
fn test_deep_nesting_still_formats() {
    let opts = FormatOptions { indent: 40, linewidth: 80, ..Default::default() };
    let result = format_source("[[+]]", &opts);
    assert!(result.is_ok());
    assert!(result.unwrap().contains('+'));
}

#[test]
fn test_grouping_zero_no_spaces() {
    let opts = FormatOptions { grouping: 0, ..Default::default() };
    let result = format_source("++++++++++", &opts).unwrap();
    assert!(!result.contains(' ') || result.trim().chars().all(|c| c == '+' || c == '\n'));
}

#[test]
fn test_directive_import_preserved() {
    let opts = FormatOptions::default();
    let src = "@import \"lib/io.bf\"\n+++";
    let out = format_source(src, &opts).unwrap();
    assert!(out.contains("@import \"lib/io.bf\""), "got: {:?}", out);
    assert!(out.contains("+++"));
}

#[test]
fn test_directive_call_preserved() {
    let opts = FormatOptions::default();
    let src = "@fn greet { +++.--- } @call greet";
    let out = format_source(src, &opts).unwrap();
    assert!(out.contains("@fn greet {"), "got: {:?}", out);
    assert!(out.contains("@call greet"), "got: {:?}", out);
    assert!(out.contains('}'));
}

#[test]
fn test_diff_identical_returns_empty() {
    let diff = generate_diff("+++\n", "+++\n", "test.bf");
    assert!(diff.is_empty(), "identical files should produce no diff");
}

#[test]
fn test_diff_different_returns_content() {
    let source = "+++---\n";
    let opts = FormatOptions::default();
    let formatted = format_source(source, &opts).unwrap();
    if source != formatted {
        let diff = generate_diff(source, &formatted, "test.bf");
        assert!(!diff.is_empty(), "different files should produce a diff");
        assert!(diff.contains("test.bf"), "diff should mention filename");
    }
}

#[test]
fn test_fn_body_formatted() {
    let opts = FormatOptions { indent: 4, grouping: 0, ..Default::default() };
    let out = format_source("@fn inc { [+] }", &opts).unwrap();
    assert!(out.contains("@fn inc {"), "got: {:?}", out);
    assert!(out.contains('}'));
    let lines: Vec<&str> = out.lines().collect();
    let plus_line = lines.iter().find(|l| l.contains('+'));
    assert!(plus_line.is_some(), "body should contain '+': {:?}", out);
}

#[test]
fn format_exact_layout() {
    let opts = FormatOptions::default();
    assert_eq!(format_source("+[->+<]>.", &opts).unwrap(), "+\n[\n    ->+<\n]\n>.\n");
    assert_eq!(format_source("", &opts).unwrap(), "\n");
    assert_eq!(format_bf_only("+++++++", &opts), "+++++ ++\n");
    let narrow = FormatOptions { linewidth: 3, grouping: 0, ..Default::default() };
    assert_eq!(format_source("++++++++", &narrow).unwrap(), "+++\n+++\n++\n");
}

#[test]
fn format_directive_pieces() {
    let opts = FormatOptions::default();
    let out = format_source("@import \"a.bf\" +++ @fn f { [-] } @call f @weird", &opts).unwrap();
    assert_eq!(out, "@import \"a.bf\"\n+++\n@fn f {\n    [\n        -\n    ]\n}\n@call f\n");
    assert!(format_source("@fn f { +", &opts).is_err());
}

#[test]
fn checked_formatting_refuses_only_overflowing_indentation() {
    let mut opts = FormatOptions::default();
    assert_eq!(format_source_checked("[+]", &opts).unwrap().unwrap(), format_source("[+]", &opts).unwrap());
    opts.indent = usize::MAX;
    assert!(format_source_checked("[[+]]", &opts).is_none());
    assert!(format_source_checked("+", &opts).is_some());
}

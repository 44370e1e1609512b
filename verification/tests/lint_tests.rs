use ogre::modes::lint::{LintWarning, Severity, format_warnings, format_warnings_with, lint_source, merge_warnings};

fn has_rule(warnings: &[LintWarning], rule: &str) -> bool {
    warnings.iter().any(|w| w.rule == rule)
}

#[test]
fn test_no_warnings_clean_code() {
    let warnings = lint_source("+++[>+<-]>.");
    assert!(!has_rule(&warnings, "suspicious-pattern"));
}

#[test]
fn test_deep_nesting() {
    let warnings = lint_source("[[[[[[+]]]]]]");
    assert!(has_rule(&warnings, "deep-nesting"));
}

#[test]
fn test_no_deep_nesting() {
    let warnings = lint_source("[[+]]");
    assert!(!has_rule(&warnings, "deep-nesting"));
}

#[test]
fn test_suspicious_pattern_move() {
    let warnings = lint_source("><");
    assert!(has_rule(&warnings, "suspicious-pattern"));
}

#[test]
fn test_suspicious_pattern_add_sub() {
    let warnings = lint_source("+-");
    assert!(has_rule(&warnings, "suspicious-pattern"));
}

#[test]
fn test_redundant_clear_at_start() {
    let warnings = lint_source("[-]+");
    assert!(has_rule(&warnings, "redundant-clear"));
}

#[test]
fn test_redundant_double_clear() {
    let warnings = lint_source("+++[-][-]");
    assert!(has_rule(&warnings, "redundant-clear"));
}

#[test]
fn lint_test_unbalanced_pointer() {
    let warnings = lint_source(">>>");
    assert!(has_rule(&warnings, "unbalanced-pointer"));
}

#[test]
fn test_balanced_pointer() {
    let warnings = lint_source(">>><<<");
    assert!(!has_rule(&warnings, "unbalanced-pointer"));
}

#[test]
fn test_missing_doc() {
    let warnings = lint_source("@fn my_func {\n+\n}\n");
    assert!(has_rule(&warnings, "missing-doc"));
}

#[test]
fn test_has_doc() {
    let warnings = lint_source("@doc Does something\n@fn my_func {\n+\n}\n");
    assert!(!has_rule(&warnings, "missing-doc"));
}

#[test]
fn test_unused_import() {
    let warnings = lint_source("@import \"std/io.bf\"\n+++\n");
    assert!(has_rule(&warnings, "unused-import"));
}

#[test]
fn test_import_with_call() {
    let warnings = lint_source("@import \"std/io.bf\"\n@call print_newline\n");
    assert!(!has_rule(&warnings, "unused-import"));
}

#[test]
fn test_severity_display() {
    assert_eq!(Severity::Warning.to_string(), "warning");
    assert_eq!(Severity::Error.to_string(), "error");
}

#[test]
fn test_format_warnings_empty() {
    let out = format_warnings("test.bf", &[]);
    assert!(out.contains("no lint warnings"));
}

#[test]
fn test_format_warnings_with_warning() {
    let warnings = vec![LintWarning {
        rule: "test-rule".to_string(),
        message: "test message".to_string(),
        line: Some(5),
        severity: Severity::Warning,
    }];
    let out = format_warnings("test.bf", &warnings);
    assert!(out.contains("test-rule"));
    assert!(out.contains("test message"));
    assert!(out.contains("1 warning(s)"));
}

#[test]
fn lint_exact_messages_and_lines() {
    let warnings = lint_source("+\n[[[[[[-]]]]]]\n>>\n");
    let nest: Vec<&LintWarning> = warnings.iter().filter(|w| w.rule == "deep-nesting").collect();
    assert_eq!(nest.len(), 1);
    assert_eq!(nest[0].message, "loop nesting depth 6 exceeds maximum of 5");
    assert_eq!(nest[0].line, Some(2));
    let ptr: Vec<&LintWarning> = warnings.iter().filter(|w| w.rule == "unbalanced-pointer").collect();
    assert_eq!(ptr.len(), 1);
    assert_eq!(ptr[0].message, "data pointer ends at offset 2 from start (outside loops)");
    assert_eq!(ptr[0].line, None);
}

#[test]
fn lint_negative_offset_and_pattern_line() {
    let warnings = lint_source("<\n>\n<<");
    let pat: Vec<&LintWarning> = warnings.iter().filter(|w| w.rule == "suspicious-pattern").collect();
    assert_eq!(pat.len(), 2);
    assert_eq!(pat[0].message, "adjacent <> is a no-op");
    assert_eq!(pat[0].line, Some(1));
    assert_eq!(pat[1].message, "adjacent >< is a no-op");
    assert_eq!(pat[1].line, Some(2));
    let ptr: Vec<&LintWarning> = warnings.iter().filter(|w| w.rule == "unbalanced-pointer").collect();
    assert_eq!(ptr[0].message, "data pointer ends at offset -2 from start (outside loops)");
}

#[test]
fn lint_clear_line_and_double_clear() {
    let warnings = lint_source("\n\n [-][-]");
    let clears: Vec<&LintWarning> = warnings.iter().filter(|w| w.rule == "redundant-clear").collect();
    assert_eq!(clears.len(), 2);
    assert_eq!(clears[0].message, "clear on cell that starts at zero");
    assert_eq!(clears[0].line, Some(3));
    assert_eq!(clears[1].message, "consecutive clear operations; second clear is redundant");
    assert_eq!(clears[1].line, None);
}

#[test]
fn lint_missing_doc_names_function_and_blank_lines_skip() {
    let warnings = lint_source("@doc ok\n\n@fn documented {\n}\n@fn   bare  {\n}\n");
    let docs: Vec<&LintWarning> = warnings.iter().filter(|w| w.rule == "missing-doc").collect();
    assert_eq!(docs.len(), 1);
    assert_eq!(docs[0].message, "function 'bare' has no @doc comment");
    assert_eq!(docs[0].line, Some(5));
}

#[test]
fn lint_long_function_counts_body() {
    let body = "+".repeat(501);
    let source = format!("@doc long\n@fn big {{\n{}\n}}\n", body);
    let warnings = lint_source(&source);
    let long: Vec<&LintWarning> = warnings.iter().filter(|w| w.rule == "long-function").collect();
    assert_eq!(long.len(), 1);
    assert_eq!(long[0].message, "function 'big' has 501 BF instructions (max 500)");
    assert_eq!(long[0].line, Some(2));
    let short = format!("@doc ok\n@fn small {{\n{}\n}}\n", "+".repeat(500));
    assert!(!has_rule(&lint_source(&short), "long-function"));
}

#[test]
fn lint_unused_import_path_and_line() {
    let warnings = lint_source("+\n  @import \"\"lib.bf\"\"  \n@import \"\"\n");
    let imports: Vec<&LintWarning> = warnings.iter().filter(|w| w.rule == "unused-import").collect();
    assert_eq!(imports.len(), 1);
    assert_eq!(imports[0].message, "imported 'lib.bf' but no @call directives found");
    assert_eq!(imports[0].line, Some(2));
}

#[test]
fn lint_report_layout() {
    let warnings = vec![
        LintWarning {
            rule: "r1".to_string(),
            message: "m1".to_string(),
            line: Some(3),
            severity: Severity::Warning,
        },
        LintWarning { rule: "r2".to_string(), message: "m2".to_string(), line: None, severity: Severity::Error },
    ];
    let out = format_warnings_with("a.bf", &warnings, "clean", "W", "E");
    assert_eq!(out, "a.bf:3: W [r1] m1\na.bf: E [r2] m2\n\n2 warning(s) in a.bf\n");
    assert_eq!(format_warnings_with("a.bf", &[], "clean", "W", "E"), "a.bf: clean\n");
}

#[test]
fn lint_merge_skips_same_rule_and_message() {
    let mut base = lint_source(">>>");
    let extra = lint_source(">>>\n+-");
    merge_warnings(&mut base, extra);
    assert_eq!(base.len(), 2);
    assert_eq!(base[0].rule, "unbalanced-pointer");
    assert_eq!(base[1].rule, "suspicious-pattern");
}

use ogre::error::OgreError;
use ogre::modes::interpreter::Interpreter;
use ogre::modes::test_runner::{TestCase, conflicting, judge_case, select_cases, suite_report, xml_escape};
use ogre::verbosity::Verbosity;

fn run_inline_case(source: &str, input: &str, expected_output: &str) -> Result<bool, OgreError> {
    let mut interp = Interpreter::with_input(source, input)?;
    interp.run()?;
    Ok(interp.output_as_string() == expected_output)
}

fn case(name: &str, input: &str, output: &str, regex: Option<&str>, timeout: Option<u64>) -> TestCase {
    TestCase {
        name: name.to_string(),
        brainfuck: "prog.bf".to_string(),
        input: input.to_string(),
        output: output.to_string(),
        output_regex: regex.map(|r| r.to_string()),
        timeout,
    }
}

#[test]
fn test_inline_case_pass() {
    let hw = "++++++++[>++++[>++>+++>+++>+<<<<-]>+>+>->>+[<]<-]>>.>---.+++++++..+++.>>.<-.<.+++.------.--------.>>+.>++.";
    let result = run_inline_case(hw, "", "Hello World!\n").unwrap();
    assert!(result);
}

#[test]
fn test_inline_case_fail() {
    let result = run_inline_case("+.", "", "wrong output").unwrap();
    assert!(!result);
}

#[test]
fn test_inline_case_with_input() {
    let result = run_inline_case(",[.,]", "abc", "abc").unwrap();
    assert!(result);
}

#[test]
fn test_inline_case_invalid_bf_errors() {
    let result = run_inline_case("[unclosed", "", "");
    assert!(result.is_err());
}

#[test]
fn test_instruction_limit() {
    let mut interp = Interpreter::with_input("+[+]", "").unwrap();
    let completed = interp.run_with_limit(100).unwrap();
    assert!(!completed);
}

#[test]
fn test_output_and_regex_conflict() {
    let case = TestCase {
        name: "conflict".to_string(),
        brainfuck: "dummy.bf".to_string(),
        input: "".to_string(),
        output: "something".to_string(),
        output_regex: Some("pattern".to_string()),
        timeout: None,
    };
    assert!(case.output_regex.is_some() && !case.output.is_empty());
    assert!(conflicting(&case));
}

#[test]
fn judge_case_verdicts() {
    let echo = ",[.,]".to_string();
    let pass = judge_case(&case("echo", "hi", "hi", None, None), Ok(echo.clone()));
    assert!(pass.passed);
    assert_eq!(pass.name, "echo");
    assert_eq!(pass.detail, None);

    let fail = judge_case(&case("echo", "hi", "ho", None, None), Ok(echo.clone()));
    assert!(!fail.passed);
    assert_eq!(fail.detail.unwrap(), "expected: \"ho\"\n      actual:   \"hi\"");

    let re_ok = judge_case(&case("re", "hello", "", Some("^h.*o$"), None), Ok(echo.clone()));
    assert!(re_ok.passed);
    let re_no = judge_case(&case("re", "hey", "", Some("^h.*o$"), None), Ok(echo.clone()));
    assert_eq!(re_no.detail.unwrap(), "output \"hey\" does not match regex /^h.*o$/");
    let re_bad = judge_case(&case("re", "hey", "", Some("("), None), Ok(echo.clone()));
    assert!(re_bad.detail.unwrap().starts_with("invalid regex '(': "));

    let timeout = judge_case(&case("loop", "", "", None, Some(50)), Ok("+[]".to_string()));
    assert_eq!(timeout.detail.unwrap(), "timeout: exceeded 50 instruction limit");

    let parse = judge_case(&case("bad", "", "", None, None), Ok("[".to_string()));
    assert!(parse.detail.unwrap().starts_with("parse error: "));

    let pre = judge_case(&case("pre", "", "", None, None), Err(OgreError::FileNotFound("a.bf".to_string())));
    assert_eq!(pre.detail.unwrap(), "preprocess error: file not found: a.bf");

    let both = judge_case(&case("both", "", "x", Some("x"), None), Ok(echo));
    assert_eq!(both.detail.unwrap(), "test case specifies both 'output' and 'output_regex' — use only one");
}

#[test]
fn select_and_escape() {
    let cases = vec![
        case("alpha", "", "", None, None),
        case("beta", "", "", None, None),
        case("alphabet", "", "", None, None),
    ];
    let kept = select_cases(cases, &Some("alpha".to_string()));
    let names: Vec<&str> = kept.iter().map(|c| c.name.as_str()).collect();
    assert_eq!(names, vec!["alpha", "alphabet"]);
    assert_eq!(xml_escape("a<b & \"c\" 'd'>"), "a&lt;b &amp; &quot;c&quot; &apos;d&apos;&gt;");
}

#[test]
fn test_regex_matching() {
    let re = regex::Regex::new(r"Hello.*!").unwrap();
    assert!(re.is_match("Hello World!"));
    assert!(!re.is_match("Goodbye"));
}

#[test]
fn test_regex_mismatch_reports_correctly() {
    let re = regex::Regex::new(r"^Hello$").unwrap();
    assert!(!re.is_match("Goodbye World"));
    assert!(!re.is_match("Hello World!"));
    assert!(re.is_match("Hello"));
}

#[test]
fn suite_report_counts_and_marks() {
    let outcomes = vec![
        judge_case(&case("a", "", "\u{1}", None, None), Ok("+.".to_string())),
        judge_case(&case("b", "", "x", None, None), Ok("+.".to_string())),
        judge_case(&case("c", "", "", None, Some(10)), Ok("+[]".to_string())),
    ];
    assert!(outcomes[2].timed_out);
    let r = suite_report(Some("Suite"), &outcomes, Verbosity::Normal, false);
    let text: String = r.pieces.iter().map(|(s, _)| s.as_str()).collect();
    assert_eq!(r.passed, 1);
    assert_eq!(r.failed, 2);
    assert!(text.starts_with("=== Suite ===\n.FT\n\nFailures:\n  FAIL b\n      expected: \"x\"\n      actual:   \"\\u{1}\"\n"));
    assert!(text.ends_with("  FAIL c\n      timeout: exceeded 10 instruction limit\n\n1/3 tests passed\n"));
    let r = suite_report(None, &outcomes, Verbosity::Quiet, true);
    let text: String = r.pieces.iter().map(|(s, _)| s.as_str()).collect();
    assert!(text.starts_with("\nFailures:\n"));
    let r = suite_report(None, &outcomes, Verbosity::Verbose, false);
    let text: String = r.pieces.iter().map(|(s, _)| s.as_str()).collect();
    assert!(text.starts_with("  PASS a\n  FAIL b\n  TIMEOUT c\n"));
}

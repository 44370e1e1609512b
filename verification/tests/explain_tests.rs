use ogre::modes::explain::explain_source;

fn percent(pre: usize, post: usize) -> String {
    format!("{:.0}", (1.0 - post as f64 / pre as f64) * 100.0)
}

fn explain(source: &str) -> String {
    explain_source(source, percent)
}

#[test]
fn test_explain_empty() {
    let result = explain("");
    assert!(result.contains("0 BF instructions"));
    assert!(result.contains("empty"));
}

#[test]
fn test_explain_cat() {
    let result = explain(",[.,]");
    assert!(result.contains("cat"));
}

#[test]
fn test_explain_hello_world() {
    let hw = "++++++++[>++++[>++>+++>+++>+<<<<-]>+>+>->>+[<]<-]>>.>---.+++++++..+++.>>.<-.<.+++.------.--------.>>+.>++.";
    let result = explain(hw);
    assert!(result.contains("output"));
    assert!(result.contains("Hello World!"));
}

#[test]
fn test_explain_clear_idiom() {
    let result = explain("+++[-]");
    assert!(result.contains("clear idiom"));
}

#[test]
fn test_explain_io() {
    let result = explain(",.");
    assert!(result.contains("I/O program"));
}

#[test]
fn test_explain_no_io() {
    let result = explain("+++");
    assert!(result.contains("no I/O"));
}

#[test]
fn test_explain_move_pattern() {
    let result = explain("+++[->+<]");
    assert!(result.contains("move pattern"));
}

#[test]
fn test_explain_optimization() {
    let result = explain("+++--->><<");
    assert!(result.contains("Optimization") || result.contains("reduction"));
}

#[test]
fn explain_exact_text_for_small_program() {
    let result = explain("+++[-]>.");
    let lines: Vec<&str> = result.split('\n').collect();
    assert_eq!(lines.len(), 6);
    assert_eq!(lines[0], "Program has 8 BF instructions.");
    assert_eq!(lines[1], "This is an output-only program (no input reading).");
    assert_eq!(lines[2], "Uses 1 clear idiom(s) ([-]) to zero cells.");
    assert!(lines[3].starts_with("Optimization reduces 6 IR ops to "));
    assert_eq!(lines[4], "Estimated memory: ~2 cell(s), 1 loop(s), 0 input(s), 1 output(s).");
    assert_eq!(lines[5], "Output: \"\\0\"");
}

#[test]
fn explain_parse_error() {
    let result = explain("[");
    assert!(result.starts_with("Error parsing program: "));
}

#[test]
fn explain_counts_moves_and_scans() {
    let result = explain(",[->+<][-<+>][>][<]");
    assert!(result.contains("Uses 2 move pattern(s) to transfer cell values."));
    assert!(result.contains("Uses scan-right ([>]) to find a zero cell."));
    assert!(result.contains("Uses scan-left ([<]) to find a zero cell."));
    assert!(result.contains("This program reads input but produces no output."));
    assert!(!result.contains("Output:"));
}

use ogre::error::OgreError;
use ogre::modes::check::{check_preprocessed, check_source};
use ogre::modes::minify::minify_source;
use ogre::modes::preprocess::Preprocessor;

#[test]
fn test_minify_strips_comments() {
    assert_eq!(minify_source("+ this is a comment +"), "++");
}

#[test]
fn test_minify_preserves_bf() {
    assert_eq!(minify_source("+-<>.,[]"), "+-<>.,[]");
}

#[test]
fn test_minify_empty() {
    assert_eq!(minify_source("hello world"), "");
}

#[test]
fn test_minify_strips_whitespace() {
    assert_eq!(minify_source("+ + + \n > > <"), "+++>><");
}

#[test]
fn test_minify_preserves_complex_program() {
    let src = "++++++++[>++++[>++>+++>+++>+<<<<-]>+>+>->>+[<]<-]>>.";
    assert_eq!(minify_source(src), src);
}

#[test]
fn test_minify_strips_at_directives() {
    assert_eq!(minify_source("@fn foo { + } @call foo"), "+");
}

#[test]
fn test_check_valid_source() {
    let result = check_source("[+]");
    assert!(result.brackets_ok);
    assert!(result.errors.is_empty());
}

#[test]
fn test_check_unmatched_open() {
    let result = check_source("[+");
    assert!(!result.brackets_ok);
    assert!(!result.errors.is_empty());
}

#[test]
fn test_check_unmatched_close() {
    let result = check_source("+]");
    assert!(!result.brackets_ok);
    assert!(!result.errors.is_empty());
}

#[test]
fn test_check_empty_source() {
    let result = check_source("");
    assert!(result.brackets_ok);
    assert!(result.errors.is_empty());
}

#[test]
fn test_check_nested_brackets_valid() {
    let result = check_source("[[[]]]");
    assert!(result.brackets_ok);
}

#[test]
fn test_check_file_hello_world() {
    let hello = "++++++++[>++++[>++>+++>+++>+<<<<-]>+>+>->>+[<]<-]>>.>---.+++++++..+++.>>.<-.<.+++.------.--------.>>+.>++.";
    let expanded = Preprocessor::process_source(hello, ".", &[]);
    let result = check_preprocessed(expanded);
    assert!(result.brackets_ok);
    assert!(result.preprocess_ok);
    assert!(result.errors.is_empty());
}

#[test]
fn check_messages() {
    let result = check_source("+]");
    assert_eq!(result.errors, vec!["brackets: unmatched `]`".to_string()]);
    let failed = check_preprocessed(Err(OgreError::FileNotFound("x.bf".to_string())));
    assert!(failed.brackets_ok);
    assert!(!failed.preprocess_ok);
    assert_eq!(failed.errors, vec!["preprocess: file not found: x.bf".to_string()]);
}

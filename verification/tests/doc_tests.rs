use ogre::modes::doc::{generate_docs_from_source, generate_stdlib_docs};

#[test]
fn test_generate_stdlib_docs() {
    let docs = generate_stdlib_docs().unwrap();
    assert!(docs.contains("std/io"));
    assert!(docs.contains("std/math"));
    assert!(docs.contains("print_newline"));
    assert!(docs.contains("zero"));
}

#[test]
fn test_generate_docs_empty_file() {
    let docs = generate_docs_from_source("empty.bf", "+++", ".", &[]).unwrap();
    assert!(docs.contains("empty.bf"));
    assert!(docs.contains("No functions defined"));
}

#[test]
fn test_generate_docs_with_functions() {
    let docs = generate_docs_from_source("test.bf", "@fn hello { +++ }\n@fn world { --- }", ".", &[]).unwrap();
    assert!(docs.contains("@fn hello"));
    assert!(docs.contains("@fn world"));
    assert!(docs.contains("+++"));
    assert!(docs.contains("---"));
}

#[test]
fn test_generate_docs_with_doc_comments() {
    let docs =
        generate_docs_from_source("documented.bf", "@doc Adds three to the current cell.\n@fn add3 { +++ }", ".", &[])
            .unwrap();
    assert!(docs.contains("@fn add3"));
    assert!(docs.contains("Adds three to the current cell."));
}

#[test]
fn test_generate_docs_multi_line_doc() {
    let docs =
        generate_docs_from_source("multi_doc.bf", "@doc First line.\n@doc Second line.\n@fn multi { + }", ".", &[])
            .unwrap();
    assert!(docs.contains("First line."));
    assert!(docs.contains("Second line."));
}

#[test]
fn test_docs_sorted_alphabetically() {
    let docs = generate_docs_from_source("sorted.bf", "@fn zebra { + }\n@fn alpha { - }", ".", &[]).unwrap();
    let alpha_pos = docs.find("@fn alpha").unwrap();
    let zebra_pos = docs.find("@fn zebra").unwrap();
    assert!(alpha_pos < zebra_pos);
}

#[test]
fn doc_exact_layout() {
    let docs = generate_docs_from_source("a.bf", "@fn b {}\n@doc Says hi.\n@fn a { + }", ".", &[]).unwrap();
    assert_eq!(
        docs,
        "# a.bf\n\n2 function(s) defined:\n\n## `@fn a`\n\nSays hi.\n\n```brainfuck\n+\n```\n\n## `@fn b`\n\n*(empty body)*\n\n"
    );
}

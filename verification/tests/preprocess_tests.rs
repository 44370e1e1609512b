use ogre::error::OgreError;
use ogre::modes::preprocess::{FnTable, Preprocessor, SourceFile, get_stdlib_module, stdlib_modules};

fn process(src: &str) -> Result<String, OgreError> {
    Preprocessor::process_source(src, ".", &[])
}

#[test]
fn test_plain_bf_unchanged() {
    let out = process("++[>+<-]>.").unwrap();
    assert_eq!(out, "++[>+<-]>.");
}

#[test]
fn test_fn_call_inline() {
    let src = "@fn inc { + } @call inc @call inc";
    let out = process(src).unwrap();
    assert!(out.contains('+'));
    assert!(!out.contains("@call"));
    assert!(!out.contains("@fn"));
}

#[test]
fn test_fn_call_twice() {
    let out = process("@fn add2 { ++ } @call add2 @call add2").unwrap();
    assert_eq!(out.trim().replace(' ', ""), "++++");
}

#[test]
fn test_fn_can_call_another_fn() {
    let src = "@fn inner { + } @fn outer { @call inner @call inner } @call outer";
    let out = process(src).unwrap();
    assert_eq!(out.trim().replace(' ', ""), "++");
}

#[test]
fn test_cycle_detection_direct() {
    let src = "@fn a { @call b } @fn b { @call a } @call a";
    assert!(process(src).is_err());
    let err = process(src).unwrap_err().message();
    assert!(err.contains("cycle"));
}

#[test]
fn test_cycle_detection_self() {
    let src = "@fn a { @call a } @call a";
    assert!(process(src).is_err());
}

#[test]
fn test_unknown_call_errors() {
    let src = "@call nonexistent";
    assert!(process(src).is_err());
    let err = process(src).unwrap_err().message();
    assert!(err.contains("nonexistent"));
}

#[test]
fn test_fn_not_in_output() {
    let src = "@fn noop { } +++";
    let out = process(src).unwrap();
    assert!(!out.contains("@fn"));
    assert!(!out.contains("noop"));
    assert!(out.contains("+++"));
}

#[test]
fn test_bf_around_calls() {
    let src = "@fn bump { + } >[->+<] @call bump <";
    let out = process(src).unwrap();
    assert!(out.contains('>'));
    assert!(out.contains('<'));
    assert!(out.contains('+'));
    assert!(!out.contains("@call"));
}

#[test]
fn test_empty_fn_body() {
    let out = process("@fn noop {} @call noop +++").unwrap();
    let trimmed = out.replace(' ', "").replace('\n', "");
    assert_eq!(trimmed, "+++");
}

#[test]
fn test_unknown_directive_errors() {
    assert!(process("@unknown hello").is_err());
}

#[test]
fn test_fn_missing_brace_errors() {
    assert!(process("@fn foo +").is_err());
}

#[test]
fn test_import_nonexistent_file_errors() {
    assert!(process("@import \"nonexistent_xyz.bf\"").is_err());
}

#[test]
fn test_stdlib_import_io() {
    let out = process("@import \"std/io.bf\" @call print_newline").unwrap();
    assert!(!out.contains("@call"));
    assert!(!out.contains("@fn"));
    assert!(!out.contains("@import"));
    assert!(out.contains('.'));
}

#[test]
fn test_stdlib_import_math() {
    let out = process("@import \"std/math.bf\" @call zero").unwrap();
    assert!(!out.contains("@call"));
    assert!(out.contains("[-]"));
}

#[test]
fn test_stdlib_unknown_module_errors() {
    assert!(process("@import \"std/nonexistent.bf\"").is_err());
}

#[test]
fn test_stdlib_duplicate_import_ok() {
    let out = process("@import \"std/io.bf\" @import \"std/io.bf\" @call print_newline").unwrap();
    assert!(!out.contains("@call"));
}

#[test]
fn test_const_use_basic() {
    let out = process("@const X 5\n@use X").unwrap();
    assert_eq!(out.replace(|c: char| !c.is_ascii() && c != '+', "").matches('+').count(), 5);
}

#[test]
fn test_const_use_zero() {
    let out = process("@const Z 0\n@use Z").unwrap();
    let plus_count = out.chars().filter(|c| *c == '+').count();
    assert_eq!(plus_count, 0);
}

#[test]
fn test_const_use_large() {
    let out = process("@const BIG 255\n@use BIG").unwrap();
    let plus_count = out.chars().filter(|c| *c == '+').count();
    assert_eq!(plus_count, 255);
}

#[test]
fn test_const_use_in_fn_body() {
    let src = "@const N 3\n@fn add_n { @use N }\n@call add_n";
    let out = process(src).unwrap();
    let plus_count = out.chars().filter(|c| *c == '+').count();
    assert_eq!(plus_count, 3);
}

#[test]
fn test_const_undefined_use_errors() {
    assert!(process("@use UNDEFINED").is_err());
    let err = process("@use UNDEFINED").unwrap_err().message();
    assert!(err.contains("UNDEFINED"));
}

#[test]
fn test_const_missing_value_errors() {
    assert!(process("@const X").is_err());
}

#[test]
fn test_const_multiple() {
    let src = "@const A 2\n@const B 3\n@use A @use B";
    let out = process(src).unwrap();
    let plus_count = out.chars().filter(|c| *c == '+').count();
    assert_eq!(plus_count, 5);
}

#[test]
fn test_doc_directive_ignored_in_output() {
    let src = "@doc This is a doc comment\n@fn foo { + }\n@call foo";
    let out = process(src).unwrap();
    assert!(!out.contains("@doc"));
    assert!(!out.contains("This is a doc"));
    assert!(out.contains('+'));
}

#[test]
fn test_doc_attaches_to_fn() {
    let src = "@doc My docs\n@fn bar { + }";
    let (_, _, fn_docs) = Preprocessor::process_source_with_docs(src, ".", &[]).unwrap();
    assert_eq!(fn_docs.get("bar").map(|s| s.as_str()), Some("My docs"));
}

#[test]
fn test_doc_multi_line() {
    let src = "@doc Line one\n@doc Line two\n@fn baz { + }";
    let (_, _, fn_docs) = Preprocessor::process_source_with_docs(src, ".", &[]).unwrap();
    let doc = fn_docs.get("baz").unwrap();
    assert!(doc.contains("Line one"));
    assert!(doc.contains("Line two"));
}

#[test]
fn test_doc_without_fn_is_discarded() {
    let src = "@doc Orphaned doc\n+++";
    let out = process(src).unwrap();
    assert!(!out.contains("doc"));
    assert!(out.contains("+++"));
}

#[test]
fn test_collect_functions_from_source() {
    let src = "@fn hello { +++ }\n@fn world { --- }";
    let fns = Preprocessor::collect_functions_from_source(src, ".", &[]).unwrap();
    assert_eq!(fns.len(), 2);
    assert!(fns.contains_key("hello"));
    assert!(fns.contains_key("world"));
    assert!(fns.get("hello").unwrap().contains("+++"));
    assert!(fns.get("world").unwrap().contains("---"));
}

#[test]
fn test_expand_with_functions() {
    let mut fns = FnTable::new();
    fns.insert("greet".to_string(), "+++.".to_string());
    let result = Preprocessor::expand_with_functions("@call greet", &fns, &[]).unwrap();
    assert!(result.contains("+++."));
}

#[test]
fn test_expand_with_functions_unknown_call_errors() {
    let fns = FnTable::new();
    let result = Preprocessor::expand_with_functions("@call unknown", &fns, &[]);
    assert!(result.is_err());
}

#[test]
fn test_collect_functions_includes_stdlib() {
    let src = "@import \"std/io\"\n@fn myfn { + }";
    let fns = Preprocessor::collect_functions_from_source(src, ".", &[]).unwrap();
    assert!(fns.contains_key("myfn"));
    assert!(fns.contains_key("print_newline"));
}

#[test]
fn test_stdlib_memory_import() {
    let src = "@import \"std/memory\"\n@fn test { @call copy_right }";
    let out = process(src).unwrap();
    assert!(!out.contains("@call"));
}

#[test]
fn test_stdlib_ascii_import() {
    let src = "@import \"std/ascii\"\n@call print_A";
    let out = process(src).unwrap();
    assert!(out.contains('+'));
    assert!(out.contains('.'));
}

#[test]
fn test_mixing_std_and_file_imports() {
    let files = vec![SourceFile::new(
        "./mylib.bf".to_string(),
        "./mylib.bf".to_string(),
        "@fn myfunc { +++ }".to_string(),
    )];
    let src = "@import \"std/io\"\n@import \"mylib.bf\"\n@call print_newline\n@call myfunc";
    let out = Preprocessor::process_source(src, ".", &files).unwrap();
    assert!(out.contains("+++"));
    assert!(!out.contains("@call"));
}

#[test]
fn test_source_map_plain_bf() {
    let src = "+>.";
    let (expanded, map) = Preprocessor::process_source_with_map(src, ".", "test.bf", &[]).unwrap();
    assert_eq!(expanded, "+>.");
    assert_eq!(map.len(), 3);
    let loc0 = map.lookup(0).unwrap();
    assert_eq!(loc0.file, "test.bf");
    assert_eq!(loc0.line, 1);
    assert_eq!(loc0.column, 1);
    assert!(loc0.function.is_none());
    let loc2 = map.lookup(2).unwrap();
    assert_eq!(loc2.column, 3);
}

#[test]
fn test_source_map_with_fn_call() {
    let src = "@fn add { +++ }\n@call add";
    let (expanded, map) = Preprocessor::process_source_with_map(src, ".", "main.bf", &[]).unwrap();
    assert!(expanded.contains("+++"));
    let mut found_fn = false;
    let mut idx = 0;
    while let Some(loc) = map.lookup(idx) {
        if loc.function.as_deref() == Some("add") {
            found_fn = true;
            break;
        }
        idx += 1;
    }
    assert!(found_fn, "source map should contain entries for @fn add");
}

#[test]
fn test_source_map_multiline() {
    let src = "+\n+\n+";
    let (expanded, map) = Preprocessor::process_source_with_map(src, ".", "test.bf", &[]).unwrap();
    assert_eq!(expanded, "+\n+\n+");
    let loc0 = map.lookup(0).unwrap();
    assert_eq!(loc0.line, 1);
    assert_eq!(loc0.column, 1);
    let loc2 = map.lookup(2).unwrap();
    assert_eq!(loc2.line, 2);
    assert_eq!(loc2.column, 1);
    let loc4 = map.lookup(4).unwrap();
    assert_eq!(loc4.line, 3);
    assert_eq!(loc4.column, 1);
}

#[test]
fn test_source_map_preserves_output() {
    let src = "@fn inc { + }\n@fn dec { - }\n@call inc @call dec";
    let without_map = Preprocessor::process_source(src, ".", &[]).unwrap();
    let (with_map, _) = Preprocessor::process_source_with_map(src, ".", "test.bf", &[]).unwrap();
    assert_eq!(without_map, with_map);
}

#[test]
fn test_source_map_empty_produces_empty_map() {
    let (expanded, map) = Preprocessor::process_source_with_map("", ".", "empty.bf", &[]).unwrap();
    assert_eq!(expanded, "");
    assert!(map.is_empty());
}

#[test]
fn test_source_map_with_const_use() {
    let src = "@const N 3\n@use N";
    let (expanded, map) = Preprocessor::process_source_with_map(src, ".", "test.bf", &[]).unwrap();
    let plus_count = expanded.chars().filter(|c| *c == '+').count();
    assert_eq!(plus_count, 3);
    assert!(map.len() >= 3);
}

// ---- from the integration suite ----

#[test]
fn test_inline_fn_call_expansion() {
    let src = "@fn double { ++ } @call double @call double";
    let out = Preprocessor::process_source(src, ".", &[]).unwrap();
    assert_eq!(out.chars().filter(|&c| c == '+').count(), 4);
    assert!(!out.contains("@call"));
    assert!(!out.contains("@fn"));
}

#[test]
fn test_cycle_detection_gives_error() {
    let src = "@fn a { @call b } @fn b { @call a } @call a";
    let result = Preprocessor::process_source(src, ".", &[]);
    assert!(result.is_err());
    let msg = result.unwrap_err().message();
    assert!(msg.contains("cycle"), "expected 'cycle' in: {}", msg);
}

#[test]
fn test_self_cycle_detection() {
    let src = "@fn recurse { @call recurse } @call recurse";
    let result = Preprocessor::process_source(src, ".", &[]);
    assert!(result.is_err());
}

#[test]
fn test_unknown_call_is_error() {
    let src = "@call undefined_fn";
    let result = Preprocessor::process_source(src, ".", &[]);
    assert!(result.is_err());
    let msg = result.unwrap_err().message();
    assert!(msg.contains("undefined_fn"));
}

#[test]
fn test_fn_not_emitted_without_call() {
    let src = "@fn unused { +++ }";
    let out = Preprocessor::process_source(src, ".", &[]).unwrap();
    assert!(!out.contains('+'), "got: {:?}", out);
}

#[test]
fn test_nested_calls_expand_correctly() {
    let src = "@fn inner { + } @fn outer { @call inner @call inner @call inner } @call outer";
    let out = Preprocessor::process_source(src, ".", &[]).unwrap();
    assert_eq!(out.chars().filter(|&c| c == '+').count(), 3);
}

#[test]
fn test_import_nonexistent_file_is_error() {
    let src = "@import \"definitely_does_not_exist_xyzzy.bf\"";
    let result = Preprocessor::process_source(src, ".", &[]);
    assert!(result.is_err());
}

#[test]
fn test_process_source_empty() {
    let out = Preprocessor::process_source("", ".", &[]).unwrap();
    assert_eq!(out, "");
}

// ---- further cases ----

#[test]
fn cycle_message_lists_the_chain() {
    let err = process("@fn a { @call b } @fn b { @call a } @call a").unwrap_err();
    assert_eq!(err.message(), "cycle detected: a → b → a");
}

#[test]
fn unknown_function_suggests_close_name_and_module() {
    let err = process("@fn print_newlin { + } @call print_newline").unwrap_err();
    let msg = err.message();
    assert!(msg.contains("Did you mean 'print_newlin'?"), "{}", msg);
    assert!(msg.contains("hint: 'print_newline' is defined in std/io.bf"), "{}", msg);
}

#[test]
fn unknown_module_suggests_close_name() {
    let err = process("@import \"std/mathh.bf\"").unwrap_err();
    let msg = err.message();
    assert!(msg.contains("Did you mean 'math'?"), "{}", msg);
    assert!(msg.contains("available modules: ascii, debug, io, logic, math, memory, string"), "{}", msg);
}

#[test]
fn missing_file_names_the_joined_path() {
    match process("@import \"lib.bf\"").unwrap_err() {
        OgreError::FileNotFound(p) => assert_eq!(p, "./lib.bf"),
        other => panic!("unexpected {:?}", other),
    }
}

#[test]
fn importing_a_file_twice_is_a_cycle() {
    let files = vec![SourceFile::new("./a.bf".to_string(), "/x/a.bf".to_string(), "@fn f { + }".to_string())];
    let err = Preprocessor::process_source("@import \"a.bf\" @import \"a.bf\"", ".", &files).unwrap_err();
    assert!(err.message().starts_with("import cycle detected: "));
}

#[test]
fn imported_top_level_code_is_dropped() {
    let files = vec![SourceFile::new("./a.bf".to_string(), "./a.bf".to_string(), "+++ @fn f { - }".to_string())];
    let out = Preprocessor::process_source("@import \"a.bf\"@call f", ".", &files).unwrap();
    assert_eq!(out, " - ");
}

#[test]
fn const_too_large_is_rejected() {
    let err = process("@const X 99999999999999999999999").unwrap_err();
    assert!(err.message().contains("invalid value"));
}

#[test]
fn deps_are_callable() {
    let mut deps = FnTable::new();
    deps.insert("dep_inc".to_string(), "+".to_string());
    let out = Preprocessor::process_source_with_deps("@call dep_inc", ".", &[], &deps).unwrap();
    assert_eq!(out, "+");
}

#[test]
fn stdlib_lookup() {
    assert_eq!(
        stdlib_modules(),
        vec!["ascii", "cli", "convert", "debug", "io", "logic", "math", "memory", "string"]
    );
    assert!(get_stdlib_module("io").unwrap().contains("@fn print_newline {"));
    assert!(get_stdlib_module("nope").is_none());
}

#[test]
fn map_locations_of_a_call_are_inside_the_function() {
    let (out, map) = Preprocessor::process_source_with_map("@fn f {\n+\n}@call f", ".", "m.bf", &[]).unwrap();
    assert_eq!(out, "\n+\n");
    let loc = map.lookup(1).unwrap();
    assert_eq!(loc.file, "m.bf");
    assert_eq!((loc.line, loc.column), (2, 1));
    assert_eq!(loc.function.as_deref(), Some("f"));
}

fn run_std(code: &str, input: &str) -> (String, Vec<u8>) {
    let bf = Preprocessor::process_source(code, ".", &[]).unwrap();
    let mut it = ogre::modes::interpreter::Interpreter::with_input(&bf, input).unwrap();
    it.run().unwrap();
    (it.output_as_string(), it.tape()[..8].to_vec())
}

#[test]
fn std_convert_prints_numbers() {
    let imp = "@import \"std/convert.bf\"\n";
    assert_eq!(run_std(&format!("{}{}@call print_decimal", imp, "+".repeat(205)), "").0, "205");
    assert_eq!(run_std(&format!("{}@call print_decimal", imp), "").0, "0");
    assert_eq!(run_std(&format!("{}{}@call print_hex_digit", imp, "+".repeat(11)), "").0, "b");
    assert_eq!(run_std(&format!("{}{}@call print_binary_8", imp, "+".repeat(5)), "").0, "00000101");
    assert_eq!(run_std(&format!("{}, @call atoi_single @call itoa_single .", imp), "7").0, "7");
}

#[test]
fn std_cli_reads_flags_and_words() {
    let imp = "@import \"std/cli.bf\"\n";
    assert_eq!(run_std(&format!("{}@call read_flag_char .", imp), "--u").0, "u");
    assert_eq!(run_std(&format!("{}@call read_arg", imp), "ab c").1[..3], [b'a', b'b', 0]);
    assert_eq!(run_std(&format!("{}@call print_error_prefix", imp), "").0, "error: ");
    assert_eq!(run_std(&format!("{}+++>+++<@call match_char", imp), "").1[..2], [1, 3]);
}

#[test]
fn plain_source_comes_back_unchanged() {
    let src = "+[->+<] comments, kept\n.";
    assert_eq!(Preprocessor::process_source(src, ".", &[]).unwrap(), src);
}

#[test]
fn plain_source_maps_each_character_to_itself() {
    let src = "+-\n.[\n]";
    let (expanded, map) = Preprocessor::process_source_with_map(src, ".", "p.bf", &[]).unwrap();
    assert_eq!(expanded, src);
    assert_eq!(map.len(), src.chars().count());
    let want = [(1, 1), (1, 2), (1, 3), (2, 1), (2, 2), (2, 3), (3, 1)];
    for (k, (l, c)) in want.iter().enumerate() {
        let loc = map.lookup(k).unwrap();
        assert_eq!((loc.line, loc.column, loc.file.as_str()), (*l, *c, "p.bf"));
    }
}

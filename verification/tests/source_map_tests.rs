use ogre::modes::directive_parser::{skip_spaces, skip_whitespace, take_brace_body, take_identifier, take_quoted_string};
use ogre::modes::source_map::{SourceLocation, SourceMap, build_op_to_char_map, line_col_map};

#[test]
fn test_source_location_display_short() {
    let loc = SourceLocation::new("src/main.bf".to_string(), 5, 12);
    assert_eq!(loc.display_short(), "src/main.bf:5:12");
}

#[test]
fn test_source_location_display_with_function() {
    let loc = SourceLocation::with_function("src/greet.bf".to_string(), 3, 5, "greet".to_string());
    assert_eq!(loc.display_short(), "src/greet.bf:3:5 (@fn greet)");
}

#[test]
fn test_source_map_lookup() {
    let mut map = SourceMap::new();
    map.push(SourceLocation::new("a.bf".to_string(), 1, 1));
    map.push(SourceLocation::new("a.bf".to_string(), 1, 2));
    map.push(SourceLocation::new("b.bf".to_string(), 3, 1));
    assert_eq!(map.lookup(0).unwrap().file, "a.bf");
    assert_eq!(map.lookup(1).unwrap().column, 2);
    assert_eq!(map.lookup(2).unwrap().file, "b.bf");
    assert!(map.lookup(3).is_none());
}

#[test]
fn test_source_map_empty() {
    let map = SourceMap::new();
    assert!(map.is_empty());
    assert_eq!(map.len(), 0);
    assert!(map.lookup(0).is_none());
}

#[test]
fn test_build_op_to_char_map_simple() {
    let map = build_op_to_char_map("+>.");
    assert_eq!(map, vec![0, 1, 2]);
}

#[test]
fn test_build_op_to_char_map_collapsed() {
    let map = build_op_to_char_map("+++");
    assert_eq!(map, vec![0]);
}

#[test]
fn test_build_op_to_char_map_mixed() {
    let map = build_op_to_char_map("+++>>");
    assert_eq!(map, vec![0, 3]);
}

#[test]
fn test_build_op_to_char_map_with_comments() {
    let map = build_op_to_char_map("+ comment +");
    assert_eq!(map, vec![0, 10]);
}

#[test]
fn test_build_op_to_char_map_brackets() {
    let map = build_op_to_char_map("[+]");
    assert_eq!(map, vec![0, 1, 2]);
}

#[test]
fn test_lookup_op() {
    let mut source_map = SourceMap::new();
    source_map.push(SourceLocation::new("a.bf".to_string(), 1, 1));
    source_map.push(SourceLocation::new("a.bf".to_string(), 1, 2));
    source_map.push(SourceLocation::new("a.bf".to_string(), 1, 3));
    let op_to_char = build_op_to_char_map("++>");
    assert_eq!(op_to_char, vec![0, 2]);
    let loc = source_map.lookup_op(0, &op_to_char).unwrap();
    assert_eq!(loc.line, 1);
    assert_eq!(loc.column, 1);
    let loc = source_map.lookup_op(1, &op_to_char).unwrap();
    assert_eq!(loc.line, 1);
    assert_eq!(loc.column, 3);
}

#[test]
fn test_line_col_map() {
    let map = line_col_map("ab\ncd");
    assert_eq!(map[0], (1, 1));
    assert_eq!(map[1], (1, 2));
    assert_eq!(map[2], (1, 3));
    assert_eq!(map[3], (2, 1));
    assert_eq!(map[4], (2, 2));
}

#[test]
fn test_line_col_map_empty() {
    let map = line_col_map("");
    assert!(map.is_empty());
}

#[test]
fn lookup_op_out_of_range_is_none() {
    let map = SourceMap::new();
    assert!(map.lookup_op(0, &[5]).is_none());
    assert!(map.lookup_op(3, &[]).is_none());
}

#[test]
fn directive_parser_reads_pieces() {
    let chars: Vec<char> = "foo_1 \t bar".chars().collect();
    let mut i = 0;
    assert_eq!(take_identifier(&chars, &mut i), "foo_1");
    assert_eq!(i, 5);
    skip_spaces(&chars, &mut i);
    assert_eq!(i, 8);
    let chars: Vec<char> = " \n\t{a{b}c} x".chars().collect();
    let mut i = 0;
    skip_whitespace(&chars, &mut i);
    assert_eq!(i, 3);
    i += 1;
    assert_eq!(take_brace_body(&chars, &mut i).unwrap(), "a{b}c");
    assert_eq!(i, 10);
}

#[test]
fn directive_parser_errors() {
    let chars: Vec<char> = "\"abc".chars().collect();
    let mut i = 0;
    assert_eq!(take_quoted_string(&chars, &mut i).unwrap_err().message(), "unterminated string literal");
    let chars: Vec<char> = "x".chars().collect();
    let mut i = 0;
    assert_eq!(take_quoted_string(&chars, &mut i).unwrap_err().message(), "expected '\"', found Some('x')");
    let mut i = 1;
    assert_eq!(take_quoted_string(&chars, &mut i).unwrap_err().message(), "expected '\"', found None");
    let chars: Vec<char> = "\"p\" rest".chars().collect();
    let mut i = 0;
    assert_eq!(take_quoted_string(&chars, &mut i).unwrap(), "p");
    assert_eq!(i, 3);
    let chars: Vec<char> = "{a".chars().collect();
    let mut i = 0;
    assert_eq!(take_brace_body(&chars, &mut i).unwrap_err().message(), "unclosed '{'");
}

#[test]
fn op_map_points_at_the_start_of_each_op() {
    assert_eq!(build_op_to_char_map("++>[-]<<."), vec![0, 2, 3, 4, 5, 6, 8]);
}

use ogre::modes::dialect::{Dialect, convert, convert_bf_to, convert_to_bf, list_dialects};
use ogre::modes::generate::{generate_hello_world, generate_loop, generate_string};
use ogre::modes::interpreter::Interpreter;

#[test]
fn test_generate_hello_world_runs_correctly() {
    let code = generate_hello_world();
    let mut interp = Interpreter::new(&code).unwrap();
    interp.run().unwrap();
    assert_eq!(interp.output_as_string(), "Hello World!\n");
}

#[test]
fn generate_test_generate_string_hi() {
    let code = generate_string("Hi!").unwrap();
    let mut interp = Interpreter::new(&code).unwrap();
    interp.run().unwrap();
    assert_eq!(interp.output_as_string(), "Hi!");
}

#[test]
fn generate_test_generate_string_empty() {
    let code = generate_string("").unwrap();
    assert!(code.is_empty() || !code.contains('.'));
}

#[test]
fn generate_test_generate_string_single_char() {
    let code = generate_string("A").unwrap();
    let mut interp = Interpreter::new(&code).unwrap();
    interp.run().unwrap();
    assert_eq!(interp.output_as_string(), "A");
}

#[test]
fn test_generate_string_non_ascii_errors() {
    assert!(generate_string("hello 🌍").is_err());
}

#[test]
fn generate_test_generate_loop_zero() {
    let code = generate_loop(0);
    let mut interp = Interpreter::new(&code).unwrap();
    interp.run().unwrap();
    assert_eq!(interp.tape_value(1), 0);
}

#[test]
fn test_generate_loop_three() {
    let code = generate_loop(3);
    let mut interp = Interpreter::new(&code).unwrap();
    interp.run().unwrap();
    assert_eq!(interp.tape_value(1), 3);
}

#[test]
fn test_generate_loop_ten() {
    let code = generate_loop(10);
    let mut interp = Interpreter::new(&code).unwrap();
    interp.run().unwrap();
    assert_eq!(interp.tape_value(1), 10);
}

#[test]
fn test_generate_hello_world() {
    let code = generate_hello_world();
    let mut interp = Interpreter::new(&code).unwrap();
    interp.run().unwrap();
    assert_eq!(interp.output_as_string(), "Hello World!\n");
}

#[test]
fn generate_integration_test_generate_string_hi() {
    let code = generate_string("Hi!").unwrap();
    let mut interp = Interpreter::new(&code).unwrap();
    interp.run().unwrap();
    assert_eq!(interp.output_as_string(), "Hi!");
}

#[test]
fn generate_integration_test_generate_string_empty() {
    let code = generate_string("").unwrap();
    assert!(!code.contains('.'));
}

#[test]
fn generate_integration_test_generate_string_single_char() {
    let code = generate_string("Z").unwrap();
    let mut interp = Interpreter::new(&code).unwrap();
    interp.run().unwrap();
    assert_eq!(interp.output_as_string(), "Z");
}

#[test]
fn test_generate_string_decreasing_ascii() {
    let code = generate_string("CA").unwrap();
    let mut interp = Interpreter::new(&code).unwrap();
    interp.run().unwrap();
    assert_eq!(interp.output_as_string(), "CA");
}

#[test]
fn test_generate_loop_counter_reaches_zero() {
    let code = generate_loop(5);
    let mut interp = Interpreter::new(&code).unwrap();
    interp.run().unwrap();
    assert_eq!(interp.tape()[0], 0);
    assert_eq!(interp.tape()[1], 5);
}

#[test]
fn generate_integration_test_generate_loop_zero() {
    let code = generate_loop(0);
    let mut interp = Interpreter::new(&code).unwrap();
    interp.run().unwrap();
    assert_eq!(interp.tape()[0], 0);
    assert_eq!(interp.tape()[1], 0);
}

#[test]
fn test_generate_loop_one() {
    let code = generate_loop(1);
    let mut interp = Interpreter::new(&code).unwrap();
    interp.run().unwrap();
    assert_eq!(interp.tape()[1], 1);
}

#[test]
fn test_generate_string_newline() {
    let code = generate_string("\n").unwrap();
    let mut interp = Interpreter::new(&code).unwrap();
    interp.run().unwrap();
    assert_eq!(interp.output_as_string(), "\n");
}

#[test]
fn generate_string_exact_code() {
    assert_eq!(generate_string("BA").unwrap(), format!("{}.-.", "+".repeat(66)));
}

#[test]
fn generate_loop_large_uses_factors() {
    assert_eq!(generate_loop(300), format!("{}[>{}[>>+<<-]<-]", "+".repeat(15), "+".repeat(20)));
    assert_eq!(generate_loop(257), format!("{}[>+<-]", "+".repeat(255)));
}

#[test]
fn test_bf_to_ook() {
    let result = convert_bf_to("+", "ook").unwrap();
    assert_eq!(result, "Ook. Ook. ");
}

#[test]
fn test_bf_to_ook_all_ops() {
    let result = convert_bf_to("+-<>.,[]", "ook").unwrap();
    assert!(result.contains("Ook. Ook. "));
    assert!(result.contains("Ook! Ook! "));
    assert!(result.contains("Ook. Ook? "));
    assert!(result.contains("Ook? Ook. "));
    assert!(result.contains("Ook! Ook. "));
    assert!(result.contains("Ook. Ook! "));
    assert!(result.contains("Ook! Ook? "));
    assert!(result.contains("Ook? Ook! "));
}

#[test]
fn test_ook_to_bf() {
    let result = convert_to_bf("Ook. Ook. Ook! Ook! ", "ook").unwrap();
    assert_eq!(result, "+-");
}

#[test]
fn test_bf_to_trollscript() {
    let result = convert_bf_to("+-", "trollscript").unwrap();
    assert_eq!(result, "oooool");
}

#[test]
fn test_roundtrip_bf_ook_bf() {
    let original = "+++[>+<-]>.";
    let ook = convert_bf_to(original, "ook").unwrap();
    let back = convert_to_bf(&ook, "ook").unwrap();
    assert_eq!(back, original);
}

#[test]
fn test_roundtrip_bf_troll_bf() {
    let original = "+++[>+<-]>.";
    let troll = convert_bf_to(original, "trollscript").unwrap();
    let back = convert_to_bf(&troll, "trollscript").unwrap();
    assert_eq!(back, original);
}

#[test]
fn test_custom_dialect() {
    let d = Dialect::custom("test", "abcdefgh").unwrap();
    assert_eq!(d.tokens.len(), 8);
    assert_eq!(d.tokens[0], "a");
    assert_eq!(d.tokens[7], "h");
}

#[test]
fn test_custom_dialect_wrong_length() {
    assert!(Dialect::custom("bad", "abc").is_err());
}

#[test]
fn test_unknown_dialect() {
    assert!(Dialect::by_name("nonexistent").is_err());
}

#[test]
fn test_known_dialects() {
    assert!(Dialect::by_name("brainfuck").is_ok());
    assert!(Dialect::by_name("bf").is_ok());
    assert!(Dialect::by_name("ook").is_ok());
    assert!(Dialect::by_name("trollscript").is_ok());
}

#[test]
fn test_strips_non_bf() {
    let result = convert_bf_to("+ hello +", "ook").unwrap();
    assert_eq!(result, "Ook. Ook. Ook. Ook. ");
}

#[test]
fn test_empty_input() {
    let result = convert_bf_to("", "ook").unwrap();
    assert_eq!(result, "");
}

#[test]
fn test_list_dialects() {
    let dialects = list_dialects();
    assert!(dialects.contains(&"brainfuck"));
    assert!(dialects.contains(&"ook"));
    assert!(dialects.contains(&"trollscript"));
}

#[test]
fn test_hello_world_roundtrip() {
    let hello = "++++++++[>++++[>++>+++>+++>+<<<<-]>+>+>->>+[<]<-]>>.>---.+++++++..+++.>>.<-.<.+++.------.--------.>>+.>++.";
    let ook = convert_bf_to(hello, "ook").unwrap();
    let back = convert_to_bf(&ook, "ook").unwrap();
    assert_eq!(back, hello);
}

#[test]
fn dialect_errors_have_messages() {
    assert_eq!(
        Dialect::by_name("Klingon").unwrap_err().message(),
        "unknown dialect 'klingon'. Available: brainfuck, ook, trollscript"
    );
    assert_eq!(
        Dialect::custom("x", "abc").unwrap_err().message(),
        "custom mapping must have exactly 8 characters (got 3). Order: + - < > . , [ ]"
    );
    assert!(Dialect::by_name("OOK").is_ok());
}

#[test]
fn custom_dialect_converts_both_ways() {
    let d = Dialect::custom("letters", "abcdefgh").unwrap();
    let bf = Dialect::brainfuck();
    assert_eq!(convert("+[-]", &bf, &d), "agbh");
    assert_eq!(convert("ag xbh", &d, &bf), "+[-]");
}

#[test]
fn roundtrip_through_each_dialect_keeps_only_the_commands() {
    let original = "read , then +[->+<] and print . done";
    for name in ["brainfuck", "BF", "Ook!", "troll"] {
        let written = convert_bf_to(original, name).unwrap();
        let back = convert_to_bf(&written, name).unwrap();
        assert_eq!(back, ",+[->+<].");
    }
}

#[test]
fn generated_code_prints_its_text_with_any_input_and_small_tape() {
    let text = "~ Zz 09 !";
    let code = generate_string(text).unwrap();
    let mut interp = Interpreter::with_input_and_tape_size(&code, "ignored", 1).unwrap();
    interp.run().unwrap();
    assert_eq!(interp.output_as_string(), text);
}

#[test]
fn small_loop_moves_its_count_to_the_next_cell() {
    for n in [1usize, 200, 255] {
        let code = generate_loop(n);
        let mut interp = Interpreter::with_tape_size(&code, 2).unwrap();
        interp.run().unwrap();
        assert_eq!(interp.tape(), &[0u8, n as u8][..]);
    }
}

#[test]
fn loop_without_small_factors_runs_its_count() {
    // 257 and 65027 have no factorisation into two counts up to 255.
    for n in [257usize, 263, 300, 1000, 65025, 65027, 130051] {
        let code = generate_loop(n);
        let mut interp = Interpreter::with_tape_size(&code, 4).unwrap();
        interp.run().unwrap();
        assert_eq!(interp.tape(), &[0u8, 0, 0, (n % 256) as u8][..]);
    }
}

#[test]
fn known_dialects_read_back_the_minified_program() {
    let s = "copy: [->+<] then print. done";
    let bf = Dialect::brainfuck();
    for d in [Dialect::brainfuck(), Dialect::ook(), Dialect::trollscript()] {
        let back = convert(&convert(s, &bf, &d), &d, &bf);
        assert_eq!(back, ogre::modes::minify::minify_source(s));
    }
}

#[test]
fn generated_code_has_one_dot_per_byte() {
    let code = generate_string("Hey!").unwrap();
    assert!(code.chars().all(|c| "+-.".contains(c)));
    assert_eq!(code.matches('.').count(), 4);
}

use ogre::modes::interpreter::Interpreter;
#[test]
fn test_increment() {
    let mut interp = Interpreter::new("+").unwrap();
    interp.run().unwrap();
    assert_eq!(interp.tape_value(0), 1);
}

#[test]
fn test_decrement() {
    let mut interp = Interpreter::new("+-").unwrap();
    interp.run().unwrap();
    assert_eq!(interp.tape_value(0), 0);
}

#[test]
fn test_move_right() {
    let mut interp = Interpreter::new(">+").unwrap();
    interp.run().unwrap();
    assert_eq!(interp.data_pointer(), 1);
    assert_eq!(interp.tape_value(1), 1);
}

#[test]
fn test_move_left() {
    let mut interp = Interpreter::new(">+<").unwrap();
    interp.run().unwrap();
    assert_eq!(interp.data_pointer(), 0);
    assert_eq!(interp.tape_value(1), 1);
}

#[test]
fn test_output() {
    let mut interp = Interpreter::new(
        "++++++++++++++++++++++++++++++++++++++++++++++++++++++++++++++++++++++++.",
    )
    .unwrap();
    interp.run().unwrap();
    assert_eq!(interp.output(), vec![72]); // 'H' = 72
}

#[test]
fn test_input() {
    let mut interp = Interpreter::with_input(",.", "A").unwrap();
    interp.run().unwrap();
    assert_eq!(interp.output_as_string(), "A");
}

#[test]
fn test_input_eof_gives_zero() {
    let mut interp = Interpreter::with_input(",", "").unwrap();
    interp.run().unwrap();
    assert_eq!(interp.tape_value(0), 0);
}

#[test]
fn test_loop_skip_when_zero() {
    let mut interp = Interpreter::new("[+]").unwrap();
    interp.run().unwrap();
    assert_eq!(interp.tape_value(0), 0); // loop body never executed
}

#[test]
fn test_loop_execute_when_nonzero() {
    // +++ loop decrements until 0: tape[0]=0, tape[1]=3
    let mut interp = Interpreter::new("+++[>+<-]").unwrap();
    interp.run().unwrap();
    assert_eq!(interp.tape_value(0), 0);
    assert_eq!(interp.tape_value(1), 3);
}

#[test]
fn test_wrapping_add() {
    // 0 - 1 wraps to 255, then + 1 wraps back to 0
    let mut interp = Interpreter::new("-+").unwrap();
    interp.run().unwrap();
    assert_eq!(interp.tape_value(0), 0);
}

#[test]
fn test_wrapping_sub() {
    // 0 - 1 wraps to 255
    let mut interp = Interpreter::new("-").unwrap();
    interp.run().unwrap();
    assert_eq!(interp.tape_value(0), 255);
}

#[test]
fn interpreter_test_unmatched_open_bracket() {
    assert!(Interpreter::new("[+").is_err());
}

#[test]
fn interpreter_test_unmatched_close_bracket() {
    assert!(Interpreter::new("+]").is_err());
}

#[test]
fn test_comments_ignored() {
    let mut interp = Interpreter::new("+ this is a comment +").unwrap();
    interp.run().unwrap();
    assert_eq!(interp.tape_value(0), 2);
}

#[test]
fn test_step_returns_false_when_done() {
    let mut interp = Interpreter::new("+").unwrap();
    let more = interp.step().unwrap();
    assert!(!more); // only one instruction, now done
}

#[test]
fn test_step_returns_true_when_more() {
    // Use two different ops so they aren't collapsed into one
    let mut interp = Interpreter::new("+>").unwrap();
    let more = interp.step().unwrap();
    assert!(more);
}

#[test]
fn test_peek_window() {
    let mut interp = Interpreter::new(">>+++").unwrap();
    interp.run().unwrap();
    let window = interp.peek_window(2, 2);
    assert_eq!(window.len(), 5); // cells 0..=4
    assert_eq!(window[2], (2, 3, true)); // dp=2, val=3, is_ptr=true
    assert_eq!(window[0], (0, 0, false));
}

#[test]
fn test_hello_world() {
    // Classic hello world BF
    let hw = "++++++++[>++++[>++>+++>+++>+<<<<-]>+>+>->>+[<]<-]>>.>---.+++++++..+++.>>.<-.<.+++.------.--------.>>+.>++.";
    let mut interp = Interpreter::new(hw).unwrap();
    interp.run().unwrap();
    assert_eq!(interp.output_as_string(), "Hello World!\n");
}

#[test]
fn interpreter_test_cat_program() {
    let mut interp = Interpreter::with_input(",[.,]", "Hello").unwrap();
    interp.run().unwrap();
    assert_eq!(interp.output_as_string(), "Hello");
}

#[test]
fn test_instruction_count() {
    let mut interp = Interpreter::new("+++").unwrap();
    interp.run().unwrap();
    // +++ is compiled to Add(3), which is 1 instruction
    assert_eq!(interp.instruction_count, 1);
}

#[test]
fn test_run_with_limit() {
    let mut interp = Interpreter::new("+>+>+>+").unwrap();
    // 4 ops: Add(1), Right(1), Add(1), Right(1), Add(1), Right(1), Add(1)
    let completed = interp.run_with_limit(3).unwrap();
    assert!(!completed); // should not complete in 3 instructions
}

#[test]
fn test_cells_touched() {
    let mut interp = Interpreter::new("+>++>+++").unwrap();
    interp.run().unwrap();
    assert!(interp.cells_touched_count() >= 3);
}

#[test]
fn test_custom_tape_size() {
    let mut interp = Interpreter::with_tape_size("+", 100).unwrap();
    interp.run().unwrap();
    assert_eq!(interp.tape().len(), 100);
    assert_eq!(interp.tape_value(0), 1);
}

#[test]
fn empty_tape_is_accepted_until_a_cell_is_needed() {
    let it = Interpreter::with_tape_size("+", 0).unwrap();
    assert!(it.tape().is_empty());
    assert_eq!(it.data_pointer(), 0);
    assert_eq!(it.code_pointer(), 0);
    assert!(it.output().is_empty());
    assert_eq!(it.instruction_count, 0);
    assert_eq!(it.cells_touched_count(), 0);
    assert!(Interpreter::with_tape_size("]", 0).is_err());
}

#[test]
fn optimized_program_without_loops_prints_the_same_in_fewer_steps() {
    let src = "+++>++<-+-.>>-<.,.";
    let mut plain = Interpreter::with_input(src, "x").unwrap();
    plain.run().unwrap();
    let mut opt = Interpreter::new_optimized_with_input(src, "x").unwrap();
    opt.run().unwrap();
    assert_eq!(opt.output(), plain.output());
    assert_eq!(opt.tape(), plain.tape());
    assert!(opt.instruction_count <= plain.instruction_count);
}

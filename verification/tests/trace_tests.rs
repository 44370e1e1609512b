use ogre::modes::interpreter::Interpreter;
use ogre::modes::trace::{format_trace_line, trace_line, trace_step};

#[test]
fn test_format_trace_line() {
    let line = format_trace_line(1, "Add(3)", 0, 3);
    assert!(line.contains("step=1"));
    assert!(line.contains("Add(3)"));
    assert!(line.contains("dp=0"));
    assert!(line.contains("cell[0]=3"));
}

#[test]
fn trace_line_exact_layout() {
    let line = format_trace_line(12, "Right(1)", 3, 200);
    assert_eq!(line, "step=12     op=Right(1)             dp=3     cell[3]=200");
    let tape = [1u8, 2, 3, 4, 5, 6, 7];
    let full = trace_line(7, "Output", 5, 6, &tape);
    assert_eq!(full, "step=7      op=Output               dp=5     cell[5]=6   | [2 3 4 5 *6 7]");
}

#[test]
fn trace_step_every_second_step() {
    let mut interp = Interpreter::with_tape_size("+++", 10).unwrap();
    let mut lines = Vec::new();
    let mut steps: u64 = 0;
    while !interp.is_done() {
        if let Some(line) = trace_step(&mut interp, steps, 2).unwrap() {
            lines.push(line);
        }
        steps += 1;
    }
    assert_eq!(steps, 1);
    assert!(lines.is_empty());
    let mut interp = Interpreter::with_tape_size("+>+", 10).unwrap();
    let first = trace_step(&mut interp, 0, 0).unwrap().unwrap();
    assert!(first.starts_with("step=1 "));
    assert!(first.ends_with("| [*1 0 0 0 0]"));
}

use ogre::console::Tone;
use ogre::modes::debug::{parse_command, BreakCondition, DebugCommand, Debugger, Pending, Reply};

fn text(r: &Reply) -> String {
    r.pieces.iter().map(|(s, _)| s.as_str()).collect()
}

fn dbg(src: &str) -> Debugger {
    Debugger::new_live(src).unwrap()
}

#[test]
fn debug_parse_commands() {
    assert_eq!(parse_command("step"), DebugCommand::Step(1));
    assert_eq!(parse_command("step 5"), DebugCommand::Step(5));
    assert_eq!(parse_command("step x"), DebugCommand::Step(1));
    assert_eq!(parse_command("  c "), DebugCommand::Continue);
    assert_eq!(parse_command("breakpoint 7"), DebugCommand::Break(7));
    assert_eq!(parse_command("breakpoint list"), DebugCommand::BreakList);
    assert_eq!(parse_command("breakpoint delete 3"), DebugCommand::BreakDelete(3));
    assert_eq!(parse_command("breakpoint delete x"), DebugCommand::BreakDelete(usize::MAX));
    assert_eq!(parse_command("jump zz"), DebugCommand::Jump(0));
    assert_eq!(parse_command("peek"), DebugCommand::Peek(None));
    assert_eq!(parse_command("peek 9"), DebugCommand::Peek(Some(9)));
    assert_eq!(parse_command("show instruction"), DebugCommand::ShowInstruction(None));
    assert_eq!(parse_command("cbreak 1 2 gt 200"), DebugCommand::CondBreak(1, 2, BreakCondition::GreaterThan(200)));
    assert_eq!(parse_command("cbreak x 2 gt 200"), DebugCommand::BadOpIndex);
    assert_eq!(parse_command("cbreak 1 y gt 200"), DebugCommand::BadCellIndex);
    assert_eq!(parse_command("cbreak 1 2 gt 256"), DebugCommand::BadValue);
    assert_eq!(parse_command("cbreak 1 2 ge 2"), DebugCommand::BadCondition);
    assert_eq!(parse_command("breakpoint 99999999999999999999999"), DebugCommand::TooLarge);
    assert_eq!(parse_command("breakpoint +3"), DebugCommand::Unknown);
    assert_eq!(parse_command(""), DebugCommand::Nothing);
    assert_eq!(parse_command("q"), DebugCommand::Quit);
}

#[test]
fn debug_step_shows_status() {
    let mut d = dbg("+>+");
    let r = d.handle_line("step");
    assert_eq!(text(&r), "  ip=1  op=Right(1)  dp=0  val=1\n  tape: [ >0:1<  1:0  2:0  3:0 ]\n");
    assert!(!r.quit && !r.needs_input && r.error.is_none());
    assert_eq!(r.pieces[1], ("Right(1)".to_string(), Tone::YellowBold));
}

#[test]
fn debug_step_past_end() {
    let mut d = dbg("+");
    let r = d.handle_line("step 3");
    assert_eq!(text(&r), "Program has ended.\nProgram finished.\n");
}

#[test]
fn debug_breakpoint_and_continue() {
    let mut d = dbg("+>+");
    let r = d.handle_line("breakpoint 2");
    assert_eq!(text(&r), "Breakpoint set at op 2 (Add(1))\n");
    let r = d.handle_line("continue");
    assert_eq!(text(&r), "Hit breakpoint at 2.\n  ip=2  op=Add(1)  dp=1  val=0\n  tape: [ 0:1  >1:0<  2:0  3:0  4:0 ]\n");
    let r = d.handle_line("c");
    assert_eq!(text(&r), "Hit breakpoint at 2.\n  ip=2  op=Add(1)  dp=1  val=0\n  tape: [ 0:1  >1:0<  2:0  3:0  4:0 ]\n");
    d.handle_line("breakpoint delete 2");
    let r = d.handle_line("c");
    assert_eq!(text(&r), "Program finished.\n");
}

#[test]
fn debug_breakpoints_listed_in_order() {
    let mut d = dbg("+>+");
    d.handle_line("breakpoint 5");
    d.handle_line("breakpoint 1");
    d.handle_line("breakpoint 3");
    d.handle_line("breakpoint 1");
    let r = d.handle_line("breakpoint list");
    assert_eq!(
        text(&r),
        "  breakpoint 1 → Right(1)\n  breakpoint 3 → END\n  breakpoint 5 → END\n"
    );
    let r = d.handle_line("breakpoint delete 3");
    assert_eq!(text(&r), "Breakpoint 3 removed.\n");
    let r = d.handle_line("breakpoint delete 3");
    assert_eq!(text(&r), "No breakpoint at 3.\n");
    d.handle_line("breakpoint delete 1");
    d.handle_line("breakpoint delete 5");
    let r = d.handle_line("breakpoint list");
    assert_eq!(text(&r), "No breakpoints set.\n");
}

#[test]
fn debug_jump() {
    let mut d = dbg("+>+");
    let r = d.handle_line("jump 10");
    assert_eq!(text(&r), "Index 10 out of range (max 3).\n");
    let r = d.handle_line("jump 2");
    assert_eq!(text(&r), "Jumped to op 2.\n  ip=2  op=Add(1)  dp=0  val=0\n  tape: [ >0:0<  1:0  2:0  3:0 ]\n");
    assert_eq!(d.interpreter().code_pointer(), 2);
}

#[test]
fn debug_show_instruction() {
    let mut d = dbg("+>+");
    let r = d.handle_line("show instruction 1");
    assert_eq!(text(&r), "  op 1: Right(1) (context: Add(1) [Right(1)] Add(1))\n");
    let r = d.handle_line("show instruction 9");
    assert_eq!(text(&r), "Index 9 out of range.\n");
    assert_eq!(r.pieces[0].1, Tone::Red);
}

#[test]
fn debug_peek_and_memory() {
    let mut d = dbg("+");
    let r = d.handle_line("peek 10");
    assert_eq!(text(&r), "  tape: [ 5:0  6:0  7:0  8:0  9:0  10:0  11:0  12:0  13:0  14:0  15:0 ]\n");
    let r = d.handle_line("show memory");
    assert!(text(&r).starts_with("  tape: [ >0:0<  1:0"));
    assert!(text(&r).ends_with("  10:0 ]\n"));
}

#[test]
fn debug_unknown_and_help() {
    let mut d = dbg("+");
    let r = d.handle_line("  foo bar \n");
    assert_eq!(text(&r), "Unknown command: 'foo bar'. Type 'help' for commands.\n");
    let r = d.handle_line("help");
    assert!(text(&r).starts_with("Commands:\n  step [n]"));
    assert!(text(&r).contains("  exit / quit / q              Quit debugger\n"));
    let r = d.handle_line("where");
    assert_eq!(text(&r), "  ip=0 (no source map)\n");
    let r = d.handle_line("quit");
    assert!(r.quit);
    assert_eq!(text(&r), "Exiting debugger.\n");
}

#[test]
fn debug_conditional_breakpoint() {
    let mut d = dbg("+>+");
    let r = d.handle_line("cbreak 2 0 eq 1");
    assert_eq!(text(&r), "Conditional breakpoint #0 set at op 2 when cell[0] == 1\n");
    let r = d.handle_line("cbreak list");
    assert_eq!(text(&r), "  #0: op 2 when cell[0] == 1\n");
    let r = d.handle_line("continue");
    assert!(text(&r).starts_with("Hit conditional breakpoint at op 2 (cell[0]=1 == 1)\n  ip=2"));
    let r = d.handle_line("cbreak x 0 eq 1");
    assert_eq!(text(&r), "Invalid op index.\n");
    let r = d.handle_line("cbreak 1 0 foo 1");
    assert_eq!(text(&r), "Unknown condition. Use: eq, ne, gt, lt\n");
    let r = d.handle_line("cbreak delete 4");
    assert_eq!(text(&r), "No conditional breakpoint #4.\n");
    let r = d.handle_line("cbreak delete 0");
    assert_eq!(text(&r), "Conditional breakpoint #0 removed.\n");
    let r = d.handle_line("cbreak list");
    assert_eq!(text(&r), "No conditional breakpoints set.\n");
}

#[test]
fn debug_watchpoint() {
    let mut d = dbg("+>+");
    let r = d.handle_line("watch 1");
    assert_eq!(text(&r), "Watchpoint #0 on cell[1] (current value: 0)\n");
    let r = d.handle_line("continue");
    assert_eq!(
        text(&r),
        "Watchpoint triggered cell[1] changed: 0 → 1\n  ip=3  op=END  dp=1  val=1\n  tape: [ 0:1  >1:1<  2:0  3:0  4:0 ]\n"
    );
    let r = d.handle_line("watch list");
    assert_eq!(text(&r), "  #0: cell[1] last=1 current=1\n");
    let r = d.handle_line("watch delete 0");
    assert_eq!(text(&r), "Watchpoint #0 removed.\n");
    let r = d.handle_line("watch list");
    assert_eq!(text(&r), "No watchpoints set.\n");
}

#[test]
fn debug_waits_for_input() {
    let mut d = dbg(",.");
    let r = d.handle_line("step 2");
    assert!(r.needs_input);
    assert_eq!(d.pending(), Pending::Steps(2));
    let r = d.supply_input(b'A');
    assert!(!r.needs_input);
    assert_eq!(text(&r), "AProgram finished.\n");
    assert_eq!(d.pending(), Pending::Idle);
}

#[test]
fn debug_refuses_what_it_cannot_do() {
    let d = dbg("+");
    assert!(d.refuses("breakpoint 99999999999999999999999"));
    assert!(d.refuses("watch 30000"));
    assert!(d.refuses("cbreak 0 30000 eq 1"));
    assert!(!d.refuses("watch 29999"));
    assert!(!d.refuses("step"));
}

#[test]
fn debug_error_stops() {
    let mut d = dbg("<");
    let r = d.handle_line("step");
    assert!(r.error.is_some());
}

#[test]
fn debug_banner() {
    let d = dbg("+");
    let b: String = d.banner().iter().map(|(s, _)| s.as_str()).collect();
    assert_eq!(b, "ogre debugger — type 'help' for commands\n  ip=0  op=Add(1)  dp=0  val=0\n  tape: [ >0:0<  1:0  2:0  3:0 ]\n");
}

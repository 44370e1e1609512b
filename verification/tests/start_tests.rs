use ogre::console::Tone;
use ogre::modes::preprocess::FnTable;
use ogre::modes::start::{missing_file_pieces, ReplRequest, StartRepl};

fn text(p: &[(String, Tone)]) -> String {
    p.iter().map(|(s, _)| s.as_str()).collect()
}

#[test]
fn repl_runs_code_and_keeps_tape() {
    let mut r = StartRepl::new().unwrap();
    let a = r.handle_line("+++", &[]);
    assert_eq!(text(&a.pieces), "  tape: [ >0:3<  1:0  2:0  3:0 ]\n");
    let a = r.handle_line(">++\n", &[]);
    assert_eq!(text(&a.pieces), "  tape: [ 0:3  >1:2<  2:0  3:0  4:0 ]\n");
    assert!(matches!(a.request, ReplRequest::Nothing));
}

#[test]
fn repl_prints_output() {
    let mut r = StartRepl::new().unwrap();
    let a = r.handle_line("++++++++[>++++++++<-]>+.", &[]);
    assert_eq!(text(&a.pieces), "A  tape: [ 0:0  >1:65<  2:0  3:0  4:0 ]\n");
}

#[test]
fn repl_reset_and_dump() {
    let mut r = StartRepl::with_tape_size(5).unwrap();
    r.handle_line("+>++", &[]);
    let a = r.handle_line(":dump", &[]);
    assert_eq!(text(&a.pieces), " 1 [2] 0 0 0\n");
    let a = r.handle_line(":dump 2", &[]);
    assert_eq!(text(&a.pieces), " 1 [2]\n");
    let a = r.handle_line("reset", &[]);
    assert_eq!(text(&a.pieces), "Tape reset.\n");
    let a = r.handle_line(":dump 3", &[]);
    assert_eq!(text(&a.pieces), " [0] 0 0\n");
    assert_eq!(a.pieces[1], ("[0]".to_string(), Tone::CyanBold));
}

#[test]
fn repl_errors() {
    let mut r = StartRepl::new().unwrap();
    let a = r.handle_line(":bogus", &[]);
    assert_eq!(text(&a.pieces), "Error: unknown command. Type :help for help.\n");
    let a = r.handle_line("<", &[]);
    assert!(text(&a.pieces).starts_with("Runtime error: "));
    let a = r.handle_line("@call nothing_here", &[]);
    assert!(text(&a.pieces).starts_with("Preprocess error: "));
}

#[test]
fn repl_unmatched_bracket_is_a_parse_error() {
    let mut r = StartRepl::new().unwrap();
    let a = r.handle_line("[", &[]);
    assert!(text(&a.pieces).starts_with("Parse error: "));
    assert_eq!(a.pieces.len(), 2);
}

#[test]
fn repl_quit_and_help() {
    let mut r = StartRepl::new().unwrap();
    let a = r.handle_line(":help", &[]);
    assert!(text(&a.pieces).starts_with("ogre REPL commands:\n  :reset      — Reset the tape and interpreter\n"));
    let a = r.handle_line("  quit  ", &[]);
    assert_eq!(text(&a.pieces), "Goodbye.\n");
    assert!(matches!(a.request, ReplRequest::Quit));
}

#[test]
fn repl_save_and_load_requests() {
    let mut r = StartRepl::with_tape_size(10).unwrap();
    r.handle_line("+>>++", &[]);
    let a = r.handle_line(":save  state.txt ", &[]);
    match a.request {
        ReplRequest::Save(p, t) => {
            assert_eq!(p, "state.txt");
            assert_eq!(t, "# ogre REPL tape state\ndata_pointer: 2\ntape_size: 10\ncells_used: 3\ntape: [1, 0, 2]\n");
        }
        _ => panic!("expected a save request"),
    }
    let a = r.handle_line(":load prog.bf", &[]);
    assert!(matches!(a.request, ReplRequest::Load(ref p) if p == "prog.bf"));
}

#[test]
fn repl_load_outcome_adds_functions() {
    let mut r = StartRepl::with_tape_size(10).unwrap();
    let mut fns = FnTable::new();
    fns.insert("add3".to_string(), " +++ ".to_string());
    let p = r.load(Ok(("++".to_string(), Some(fns))));
    assert_eq!(
        text(&p),
        "Loaded 1 function(s).\nLoaded and executed.\n  tape: [ >0:2<  1:0  2:0  3:0 ]\n"
    );
    let a = r.handle_line(":functions", &[]);
    assert_eq!(text(&a.pieces), "1 function(s) available:\n  add3 — +++\n");
    let a = r.handle_line("@call add3", &[]);
    assert_eq!(text(&a.pieces), "  tape: [ >0:5<  1:0  2:0  3:0 ]\n");
    let b: String = r.banner().iter().map(|(s, _)| s.as_str()).collect();
    assert!(b.contains("1 @fn definition(s) loaded"));
}

#[test]
fn repl_missing_file_message() {
    assert_eq!(text(&missing_file_pieces("x.bf")), "Error: file not found: x.bf\n");
}

#[test]
fn repl_can_be_made_with_an_empty_tape() {
    assert!(StartRepl::with_tape_size(0).is_ok());
}

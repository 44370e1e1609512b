use ogre::modes::ir::{Op, Program};
#[test]
fn test_empty_source() {
    let prog = Program::from_source("").unwrap();
    assert!(prog.ops.is_empty());
}

#[test]
fn test_comments_stripped() {
    let prog = Program::from_source("hello world this is not bf").unwrap();
    assert!(prog.ops.is_empty());
}

#[test]
fn test_run_length_collapsing() {
    let prog = Program::from_source("+++").unwrap();
    assert_eq!(prog.ops, vec![Op::Add(3)]);
}

#[test]
fn test_move_collapsing() {
    let prog = Program::from_source(">>>").unwrap();
    assert_eq!(prog.ops, vec![Op::Right(3)]);

    let prog = Program::from_source("<<<").unwrap();
    assert_eq!(prog.ops, vec![Op::Left(3)]);
}

#[test]
fn test_mixed_ops_no_collapse() {
    let prog = Program::from_source("+-").unwrap();
    assert_eq!(prog.ops, vec![Op::Add(1), Op::Sub(1)]);
}

#[test]
fn test_bracket_pairing() {
    let prog = Program::from_source("[+]").unwrap();
    assert_eq!(
        prog.ops,
        vec![Op::JumpIfZero(2), Op::Add(1), Op::JumpIfNonZero(0)]
    );
}

#[test]
fn test_nested_brackets() {
    let prog = Program::from_source("[[+]]").unwrap();
    assert_eq!(
        prog.ops,
        vec![
            Op::JumpIfZero(4), // outer [ -> outer ]
            Op::JumpIfZero(3), // inner [ -> inner ]
            Op::Add(1),
            Op::JumpIfNonZero(1), // inner ] -> inner [
            Op::JumpIfNonZero(0), // outer ] -> outer [
        ]
    );
}

#[test]
fn test_unmatched_open() {
    assert!(Program::from_source("[+").is_err());
}

#[test]
fn test_unmatched_close() {
    assert!(Program::from_source("+]").is_err());
}

#[test]
fn test_clear_idiom() {
    let mut prog = Program::from_source("[-]").unwrap();
    prog.optimize();
    assert_eq!(prog.ops, vec![Op::Assign(0)]);
}

#[test]
fn test_cancellation_add_sub() {
    let mut prog = Program::from_source("+++--").unwrap();
    prog.optimize();
    assert_eq!(prog.ops, vec![Op::Add(1)]);
}

#[test]
fn test_cancellation_partial() {
    let mut prog = Program::from_source("++---").unwrap();
    prog.optimize();
    assert_eq!(prog.ops, vec![Op::Sub(1)]);
}

#[test]
fn test_cancellation_moves() {
    let mut prog = Program::from_source(">>><<").unwrap();
    prog.optimize();
    assert_eq!(prog.ops, vec![Op::Right(1)]);
}

#[test]
fn test_clear_then_add() {
    let mut prog = Program::from_source("[-]+++").unwrap();
    prog.optimize();
    // Clear + Add(3) -> Set(3)
    assert_eq!(prog.ops, vec![Op::Assign(3)]);
}

#[test]
fn test_to_bf_string() {
    let prog = Program::from_source("+++>>.<[-]").unwrap();
    let bf = prog.to_bf_string();
    assert_eq!(bf, "+++>>.<[-]");
}

#[test]
fn test_to_bf_string_roundtrip() {
    let original = "+++++[>++++<-]>.";
    let prog = Program::from_source(original).unwrap();
    let bf = prog.to_bf_string();
    assert_eq!(bf, original);
}

#[test]
fn test_optimize_preserves_semantics() {
    // After optimization, converting back should produce valid BF that does the same thing.
    let mut prog = Program::from_source("+++-->><<<").unwrap();
    prog.optimize();
    // +++ -- → Add(1), >>> << → Left(1) after cancellation
    // Actually: Add(3), Sub(2) → Add(1); Right(2), Left(3) → Left(1)
    // Wait: ">>>" is Right(3), "<<" is Left(2) — they're separate tokens after parsing
    // Actually the source "+++-->><<<" parses as Add(3), Sub(2), Right(2), Left(3)
    assert_eq!(prog.ops, vec![Op::Add(1), Op::Left(1)]);
}

#[test]
fn test_nested_bracket_jump_indices_after_optimize() {
    let mut prog = Program::from_source("[[-]]").unwrap();
    prog.optimize();
    // [-] becomes Set(0), so we get [Set(0)]
    assert_eq!(
        prog.ops,
        vec![Op::JumpIfZero(2), Op::Assign(0), Op::JumpIfNonZero(0)]
    );
}

#[test]
fn test_sub_collapsing() {
    let prog = Program::from_source("---").unwrap();
    assert_eq!(prog.ops, vec![Op::Sub(3)]);
}

#[test]
fn test_io_ops() {
    let prog = Program::from_source(",.").unwrap();
    assert_eq!(prog.ops, vec![Op::Input, Op::Output]);
}

#[test]
fn test_wrapping_add_256() {
    // 256 +'s should wrap to Add(0) with u8
    let src: String = std::iter::repeat('+').take(256).collect();
    let prog = Program::from_source(&src).unwrap();
    assert_eq!(prog.ops, vec![Op::Add(0)]);
}

#[test]
fn test_move_add_forward() {
    // [->+<] should optimize to MoveAdd(1)
    let mut prog = Program::from_source("[->+<]").unwrap();
    prog.optimize();
    assert_eq!(prog.ops, vec![Op::MoveAdd(1)]);
}

#[test]
fn test_move_add_forward_2() {
    // [->>+<<] should optimize to MoveAdd(2)
    let mut prog = Program::from_source("[->>+<<]").unwrap();
    prog.optimize();
    assert_eq!(prog.ops, vec![Op::MoveAdd(2)]);
}

#[test]
fn test_move_add_backward() {
    // [-<+>] should optimize to MoveAdd(-1)
    let mut prog = Program::from_source("[-<+>]").unwrap();
    prog.optimize();
    assert_eq!(prog.ops, vec![Op::MoveAdd(-1)]);
}

#[test]
fn test_move_sub_forward() {
    // [->-<] should optimize to MoveSub(1)
    let mut prog = Program::from_source("[->-<]").unwrap();
    prog.optimize();
    assert_eq!(prog.ops, vec![Op::MoveSub(1)]);
}

#[test]
fn test_move_add_to_bf_string() {
    let prog = Program {
        ops: vec![Op::MoveAdd(1)],
    };
    assert_eq!(prog.to_bf_string(), "[->+<]");
}

#[test]
fn test_move_add_backward_to_bf_string() {
    let prog = Program {
        ops: vec![Op::MoveAdd(-2)],
    };
    assert_eq!(prog.to_bf_string(), "[-<<+>>]");
}

#[test]
fn test_move_preserves_semantics() {
    // [->+<] with cell 0 = 5 should: cell 1 += 5, cell 0 = 0
    let src = "+++++[->+<]";
    let mut prog_opt = Program::from_source(src).unwrap();
    prog_opt.optimize();
    assert!(prog_opt.ops.contains(&Op::MoveAdd(1)));
}

// ---- Set optimization tests ----

#[test]
fn test_set_idiom() {
    let mut prog = Program::from_source("[-]+++++").unwrap();
    prog.optimize();
    assert_eq!(prog.ops, vec![Op::Assign(5)]);
}

#[test]
fn test_set_zero() {
    let mut prog = Program::from_source("[-]").unwrap();
    prog.optimize();
    assert_eq!(prog.ops, vec![Op::Assign(0)]);
}

// ---- Scan optimization tests ----

#[test]
fn test_scan_right() {
    let mut prog = Program::from_source("[>]").unwrap();
    prog.optimize();
    assert_eq!(prog.ops, vec![Op::ScanRight]);
}

#[test]
fn test_scan_left() {
    let mut prog = Program::from_source("[<]").unwrap();
    prog.optimize();
    assert_eq!(prog.ops, vec![Op::ScanLeft]);
}

#[test]
fn test_scan_right_to_bf() {
    let prog = Program {
        ops: vec![Op::ScanRight],
    };
    assert_eq!(prog.to_bf_string(), "[>]");
}

#[test]
fn test_scan_left_to_bf() {
    let prog = Program {
        ops: vec![Op::ScanLeft],
    };
    assert_eq!(prog.to_bf_string(), "[<]");
}

// ---- MultiplyMove tests ----

#[test]
fn test_multiply_move_double() {
    // [->++>+++<<] should be detected as MultiplyMove
    let mut prog = Program::from_source("[->++>+++<<]").unwrap();
    prog.optimize();
    assert!(prog.ops.iter().any(|op| matches!(op, Op::MultiplyMove(_))));
}

#[test]
fn test_set_to_bf() {
    let prog = Program {
        ops: vec![Op::Assign(3)],
    };
    assert_eq!(prog.to_bf_string(), "[-]+++");
}

#[test]
fn test_set_zero_to_bf() {
    let prog = Program {
        ops: vec![Op::Assign(0)],
    };
    assert_eq!(prog.to_bf_string(), "[-]");
}

#[test]
fn parse_merges_runs_and_keeps_one_open_per_bracket() {
    let p = Program::from_source("++>>[-[<<]]--").unwrap();
    for w in p.ops.windows(2) {
        let same = matches!((&w[0], &w[1]), (Op::Add(_), Op::Add(_)) | (Op::Sub(_), Op::Sub(_)) | (Op::Right(_), Op::Right(_)) | (Op::Left(_), Op::Left(_)));
        assert!(!same);
    }
    assert_eq!(p.ops.iter().filter(|o| matches!(o, Op::JumpIfZero(_))).count(), 2);
}

use vstd::prelude::*;

use super::ir::{Instr, Op, Program, offset_abs};
use crate::text::{chars_to_string, decimal, push_repeat, push_str, push_u64, push_usize, repeat_char};

verus! {

/// Two spaces per indentation level.
pub open spec fn w_indent(level: usize) -> Seq<char> {
    repeat_char(' ', 2 * level as nat)
}

/// `tape[dp] = (tape[dp] op n) & 0xFF`
#[verifier::opaque]
pub open spec fn cell_lines(ind: Seq<char>, op: Seq<char>, n: u8) -> Seq<char> {
    ind + "(i32.store8\n"@ + (ind + "  (global.get $dp)\n"@) + (ind + "  (i32.and (i32."@ + op
        + " (i32.load8_u (global.get $dp)) (i32.const "@ + decimal(n as nat) + ")) (i32.const 255)))\n"@)
}

/// `dp = dp op n`
#[verifier::opaque]
pub open spec fn dp_line(ind: Seq<char>, op: Seq<char>, n: usize) -> Seq<char> {
    ind + "(global.set $dp (i32."@ + op + " (global.get $dp) (i32.const "@ + decimal(n as nat) + ")))\n"@
}

/// Point the I/O vector at the current cell.
#[verifier::opaque]
pub open spec fn iov_ptr_line(ind: Seq<char>, iov: usize) -> Seq<char> {
    ind + "(i32.store (i32.const "@ + decimal(iov as nat) + ") (global.get $dp))\n"@
}

/// Give the I/O vector a length of one.
#[verifier::opaque]
pub open spec fn iov_len_line(ind: Seq<char>, iov: usize) -> Seq<char> {
    ind + "(i32.store (i32.const "@ + decimal(iov as nat + 4) + ") (i32.const 1))\n"@
}

/// Call `func` on descriptor `fd` with the I/O vector.
#[verifier::opaque]
pub open spec fn io_call_line(ind: Seq<char>, func: Seq<char>, fd: Seq<char>, iov: usize) -> Seq<char> {
    ind + "(drop (call $"@ + func + " (i32.const "@ + fd + ") (i32.const "@ + decimal(iov as nat)
        + ") (i32.const 1) (i32.const "@ + decimal(iov as nat + 8) + ")))\n"@
}

/// Set up the I/O vector for the current cell and call `func` on descriptor `fd`.
pub open spec fn io_lines(ind: Seq<char>, func: Seq<char>, fd: Seq<char>, iov: usize) -> Seq<char> {
    iov_ptr_line(ind, iov) + iov_len_line(ind, iov) + io_call_line(ind, func, fd, iov)
}

/// Store `v` in the current cell.
#[verifier::opaque]
pub open spec fn store_line(ind: Seq<char>, v: Seq<char>) -> Seq<char> {
    ind + "(i32.store8 (global.get $dp) (i32.const "@ + v + "))\n"@
}

/// The address of the cell at offset `o`.
#[verifier::opaque]
pub open spec fn w_target(o: isize) -> Seq<char> {
    if o >= 0 {
        "(i32.add (global.get $dp) (i32.const "@ + decimal(o as nat) + "))"@
    } else {
        "(i32.sub (global.get $dp) (i32.const "@ + decimal(offset_abs(o)) + "))"@
    }
}

/// `tape[dp + o] = (tape[dp + o] op value) & 0xFF`, where `value` is an expression.
#[verifier::opaque]
pub open spec fn target_lines(ind: Seq<char>, o: isize, op: Seq<char>, value: Seq<char>) -> Seq<char> {
    ind + "(i32.store8\n"@ + (ind + "  "@ + w_target(o) + "\n"@) + (ind + "  (i32.and (i32."@ + op + " (i32.load8_u "@
        + w_target(o) + ") "@ + value + ") (i32.const 255)))\n"@)
}

/// The value of the current cell, as an expression.
pub open spec fn cell_value() -> Seq<char> {
    "(i32.load8_u (global.get $dp))"@
}

/// The value of the current cell times `f`, as an expression.
pub open spec fn scaled_value(f: u8) -> Seq<char> {
    "(i32.mul (i32.load8_u (global.get $dp)) (i32.const "@ + decimal(f as nat) + "))"@
}

/// A scan: move the pointer (`op` is `add` or `sub`) while the cell is nonzero.
#[verifier::opaque]
pub open spec fn scan_lines(ind: Seq<char>, op: Seq<char>) -> Seq<char> {
    ind + "(block $S\n"@ + (ind + "  (loop $SL\n"@) + (ind + "    (br_if $S (i32.eqz (i32.load8_u (global.get $dp))))\n"@)
        + (ind + "    (global.set $dp (i32."@ + op + " (global.get $dp) (i32.const 1)))\n"@) + (ind
        + "    (br $SL)\n"@) + (ind + "  )\n"@) + (ind + ")\n"@)
}

/// Open a loop at `level`: a block, a loop in it, and the exit test.
#[verifier::opaque]
pub open spec fn open_loop(level: usize) -> Seq<char> {
    w_indent(level) + "(block $B\n"@ + (w_indent(level.saturating_add(1)) + "(loop $L\n"@) + (w_indent(
        level.saturating_add(1).saturating_add(1),
    ) + "(br_if $B (i32.eqz (i32.load8_u (global.get $dp))))\n"@)
}

/// The level after closing one construct (not below two).
pub open spec fn w_out(level: usize) -> usize {
    if level > 2 { (level - 1) as usize } else { level }
}

/// Close a loop at `level`: the branch back, then the loop and the block.
#[verifier::opaque]
pub open spec fn close_loop(level: usize) -> Seq<char> {
    w_indent(level) + "(br_if $L (i32.load8_u (global.get $dp)))\n"@ + (w_indent(w_out(level)) + ")\n"@) + (w_indent(
        w_out(w_out(level)),
    ) + ")\n"@)
}

/// The statements for the targets of a multiply-move.
pub open spec fn w_targets(ts: Seq<(isize, u8)>, ind: Seq<char>) -> Seq<char>
    decreases ts.len(),
{
    if ts.len() == 0 {
        Seq::empty()
    } else {
        w_targets(ts.drop_last(), ind) + target_lines(ind, ts.last().0, "add"@, scaled_value(ts.last().1))
    }
}

/// The WAT text of one instruction at an indentation level.
pub open spec fn w_op_text(op: Instr, level: usize, iov: usize) -> Seq<char> {
    let ind = w_indent(level);
    match op {
        Instr::Add(n) => cell_lines(ind, "add"@, n),
        Instr::Sub(n) => cell_lines(ind, "sub"@, n),
        Instr::Right(n) => dp_line(ind, "add"@, n),
        Instr::Left(n) => dp_line(ind, "sub"@, n),
        Instr::Output => io_lines(ind, "fd_write"@, "1"@, iov),
        Instr::Input => io_lines(ind, "fd_read"@, "0"@, iov),
        Instr::JumpIfZero(_) => open_loop(level),
        Instr::JumpIfNonZero(_) => close_loop(level),
        Instr::Clear => store_line(ind, "0"@),
        Instr::MoveAdd(o) => target_lines(ind, o, "add"@, cell_value()) + store_line(ind, "0"@),
        Instr::MoveSub(o) => target_lines(ind, o, "sub"@, cell_value()) + store_line(ind, "0"@),
        Instr::Assign(n) => store_line(ind, decimal(n as nat)),
        Instr::ScanRight => scan_lines(ind, "add"@),
        Instr::ScanLeft => scan_lines(ind, "sub"@),
        Instr::MultiplyMove(ts) => w_targets(ts, ind) + store_line(ind, "0"@),
    }
}

/// The indentation level after an instruction.
pub open spec fn w_next_level(op: Instr, level: usize) -> usize {
    match op {
        Instr::JumpIfZero(_) => level.saturating_add(1).saturating_add(1),
        Instr::JumpIfNonZero(_) => w_out(w_out(level)),
        _ => level,
    }
}

/// The WAT statements of a sequence of instructions, and the final level.
pub open spec fn w_run(ops: Seq<Instr>, iov: usize) -> (Seq<char>, usize)
    decreases ops.len(),
{
    if ops.len() == 0 {
        (Seq::empty(), 2)
    } else {
        let (t, l) = w_run(ops.drop_last(), iov);
        (t + w_op_text(ops.last(), l, iov), w_next_level(ops.last(), l))
    }
}

/// The number of 64 KiB memory pages for a tape and the I/O scratch space.
pub open spec fn memory_pages(tape_size: usize) -> nat {
    let total = tape_size + 16;
    let p = total / 65536 + if total % 65536 != 0 { 1nat } else { 0nat };
    if p < 1 { 1 } else { p as nat }
}

/// The module before the memory size.
pub open spec fn w_prelude() -> Seq<char> {
    "(module\n  (import \"wasi_snapshot_preview1\" \"fd_write\"\n    (func $fd_write (param i32 i32 i32 i32) (result i32)))\n  (import \"wasi_snapshot_preview1\" \"fd_read\"\n    (func $fd_read (param i32 i32 i32 i32) (result i32)))\n  (memory (export \"memory\") "@
}

/// The module after the memory size, before the code.
pub open spec fn w_main_head() -> Seq<char> {
    ")\n  (global $dp (mut i32) (i32.const 0))\n  (func $main (export \"_start\")\n"@
}

/// The whole WAT module for a sequence of instructions.
pub open spec fn w_module(ops: Seq<Instr>, tape_size: usize) -> Seq<char> {
    w_prelude() + decimal(memory_pages(tape_size)) + w_main_head() + w_run(ops, tape_size).0 + "  )\n)\n"@
}

fn push_windent(out: &mut Vec<char>, level: usize)
    ensures
        final(out)@ == old(out)@ + w_indent(level),
{
    let ghost start = out@;
    let mut k: usize = 0;
    while k < level
        invariant
            k <= level,
            out@ == start + repeat_char(' ', 2 * k as nat),
        decreases level - k,
    {
        push_repeat(out, ' ', 2);
        k += 1;
        assert(out@ =~= start + repeat_char(' ', 2 * k as nat));
    }
}

fn push_cell_lines(out: &mut Vec<char>, level: usize, op: &str, n: u8)
    ensures
        final(out)@ == old(out)@ + cell_lines(w_indent(level), op@, n),
{
    proof {
        reveal(cell_lines);
    }
    let ghost ind = w_indent(level);
    push_windent(out, level);
    push_str(out, "(i32.store8\n");
    let ghost m1 = out@;
    push_windent(out, level);
    push_str(out, "  (global.get $dp)\n");
    let ghost m2 = out@;
    push_windent(out, level);
    push_str(out, "  (i32.and (i32.");
    push_str(out, op);
    push_str(out, " (i32.load8_u (global.get $dp)) (i32.const ");
    push_u64(out, n as u64);
    push_str(out, ")) (i32.const 255)))\n");
    assert(out@ =~= m2 + (ind + "  (i32.and (i32."@ + op@ + " (i32.load8_u (global.get $dp)) (i32.const "@ + decimal(
        n as nat,
    ) + ")) (i32.const 255)))\n"@));
    assert(m2 =~= m1 + (ind + "  (global.get $dp)\n"@));
    assert(out@ =~= old(out)@ + cell_lines(w_indent(level), op@, n));
}

fn push_dp_line(out: &mut Vec<char>, level: usize, op: &str, n: usize)
    ensures
        final(out)@ == old(out)@ + dp_line(w_indent(level), op@, n),
{
    proof {
        reveal(dp_line);
    }
    push_windent(out, level);
    push_str(out, "(global.set $dp (i32.");
    push_str(out, op);
    push_str(out, " (global.get $dp) (i32.const ");
    push_usize(out, n);
    push_str(out, ")))\n");
    assert(out@ =~= old(out)@ + dp_line(w_indent(level), op@, n));
}

fn push_iov_ptr_line(out: &mut Vec<char>, level: usize, iov: usize)
    ensures
        final(out)@ == old(out)@ + iov_ptr_line(w_indent(level), iov),
{
    proof {
        reveal(iov_ptr_line);
    }
    push_windent(out, level);
    push_str(out, "(i32.store (i32.const ");
    push_usize(out, iov);
    push_str(out, ") (global.get $dp))\n");
    assert(out@ =~= old(out)@ + iov_ptr_line(w_indent(level), iov));
}

fn push_iov_len_line(out: &mut Vec<char>, level: usize, iov: usize)
    requires
        iov + 8 <= usize::MAX,
    ensures
        final(out)@ == old(out)@ + iov_len_line(w_indent(level), iov),
{
    proof {
        reveal(iov_len_line);
    }
    push_windent(out, level);
    push_str(out, "(i32.store (i32.const ");
    push_usize(out, iov + 4);
    push_str(out, ") (i32.const 1))\n");
    assert(out@ =~= old(out)@ + iov_len_line(w_indent(level), iov));
}

fn push_io_call_line(out: &mut Vec<char>, level: usize, func: &str, fd: &str, iov: usize)
    requires
        iov + 8 <= usize::MAX,
    ensures
        final(out)@ == old(out)@ + io_call_line(w_indent(level), func@, fd@, iov),
{
    proof {
        reveal(io_call_line);
    }
    push_windent(out, level);
    push_str(out, "(drop (call $");
    push_str(out, func);
    push_str(out, " (i32.const ");
    push_str(out, fd);
    push_str(out, ") (i32.const ");
    push_usize(out, iov);
    push_str(out, ") (i32.const 1) (i32.const ");
    push_usize(out, iov + 8);
    push_str(out, ")))\n");
    assert(out@ =~= old(out)@ + io_call_line(w_indent(level), func@, fd@, iov));
}

fn push_io_lines(out: &mut Vec<char>, level: usize, func: &str, fd: &str, iov: usize)
    requires
        iov + 8 <= usize::MAX,
    ensures
        final(out)@ == old(out)@ + io_lines(w_indent(level), func@, fd@, iov),
{
    push_iov_ptr_line(out, level, iov);
    push_iov_len_line(out, level, iov);
    push_io_call_line(out, level, func, fd, iov);
    assert(out@ =~= old(out)@ + io_lines(w_indent(level), func@, fd@, iov));
}

fn push_store_line_num(out: &mut Vec<char>, level: usize, v: u8)
    ensures
        final(out)@ == old(out)@ + store_line(w_indent(level), decimal(v as nat)),
{
    proof {
        reveal(store_line);
    }
    push_windent(out, level);
    push_str(out, "(i32.store8 (global.get $dp) (i32.const ");
    push_u64(out, v as u64);
    push_str(out, "))\n");
    assert(out@ =~= old(out)@ + store_line(w_indent(level), decimal(v as nat)));
}

fn push_store_zero(out: &mut Vec<char>, level: usize)
    ensures
        final(out)@ == old(out)@ + store_line(w_indent(level), "0"@),
{
    proof {
        reveal(store_line);
    }
    push_windent(out, level);
    push_str(out, "(i32.store8 (global.get $dp) (i32.const ");
    push_str(out, "0");
    push_str(out, "))\n");
    assert(out@ =~= old(out)@ + store_line(w_indent(level), "0"@));
}

fn push_w_target(out: &mut Vec<char>, o: isize)
    ensures
        final(out)@ == old(out)@ + w_target(o),
{
    proof {
        reveal(w_target);
    }
    if o >= 0 {
        push_str(out, "(i32.add (global.get $dp) (i32.const ");
        push_usize(out, o as usize);
        push_str(out, "))");
    } else {
        push_str(out, "(i32.sub (global.get $dp) (i32.const ");
        let a: usize = if o == isize::MIN { (isize::MAX as usize) + 1 } else { (-o) as usize };
        push_usize(out, a);
        push_str(out, "))");
    }
    assert(out@ =~= old(out)@ + w_target(o));
}

/// `target_lines` with the value of the current cell (`scaled` false) or the
/// value times `f` (`scaled` true).
fn push_target_lines(out: &mut Vec<char>, level: usize, o: isize, op: &str, scaled: bool, f: u8)
    ensures
        final(out)@ == old(out)@ + target_lines(w_indent(level), o, op@, if scaled { scaled_value(f) } else { cell_value() }),
{
    proof {
        reveal(target_lines);
    }
    let ghost ind = w_indent(level);
    let ghost value = if scaled { scaled_value(f) } else { cell_value() };
    push_windent(out, level);
    push_str(out, "(i32.store8\n");
    let ghost m1 = out@;
    push_windent(out, level);
    push_str(out, "  ");
    push_w_target(out, o);
    push_str(out, "\n");
    let ghost m2 = out@;
    assert(m2 =~= m1 + (ind + "  "@ + w_target(o) + "\n"@));
    push_windent(out, level);
    push_str(out, "  (i32.and (i32.");
    push_str(out, op);
    push_str(out, " (i32.load8_u ");
    push_w_target(out, o);
    push_str(out, ") ");
    let ghost m3 = out@;
    if scaled {
        push_str(out, "(i32.mul (i32.load8_u (global.get $dp)) (i32.const ");
        push_u64(out, f as u64);
        push_str(out, "))");
    } else {
        push_str(out, "(i32.load8_u (global.get $dp))");
    }
    assert(out@ =~= m3 + value);
    push_str(out, ") (i32.const 255)))\n");
    assert(out@ =~= m2 + (ind + "  (i32.and (i32."@ + op@ + " (i32.load8_u "@ + w_target(o) + ") "@ + value
        + ") (i32.const 255)))\n"@));
    assert(out@ =~= old(out)@ + target_lines(ind, o, op@, value));
}

fn push_scan_lines(out: &mut Vec<char>, level: usize, op: &str)
    ensures
        final(out)@ == old(out)@ + scan_lines(w_indent(level), op@),
{
    proof {
        reveal(scan_lines);
    }
    let ghost ind = w_indent(level);
    push_windent(out, level);
    push_str(out, "(block $S\n");
    let ghost m1 = out@;
    push_windent(out, level);
    push_str(out, "  (loop $SL\n");
    let ghost m2 = out@;
    push_windent(out, level);
    push_str(out, "    (br_if $S (i32.eqz (i32.load8_u (global.get $dp))))\n");
    let ghost m3 = out@;
    push_windent(out, level);
    push_str(out, "    (global.set $dp (i32.");
    push_str(out, op);
    push_str(out, " (global.get $dp) (i32.const 1)))\n");
    let ghost m4 = out@;
    assert(m4 =~= m3 + (ind + "    (global.set $dp (i32."@ + op@ + " (global.get $dp) (i32.const 1)))\n"@));
    push_windent(out, level);
    push_str(out, "    (br $SL)\n");
    let ghost m5 = out@;
    push_windent(out, level);
    push_str(out, "  )\n");
    let ghost m6 = out@;
    push_windent(out, level);
    push_str(out, ")\n");
    assert(m2 =~= m1 + (ind + "  (loop $SL\n"@));
    assert(m3 =~= m2 + (ind + "    (br_if $S (i32.eqz (i32.load8_u (global.get $dp))))\n"@));
    assert(m5 =~= m4 + (ind + "    (br $SL)\n"@));
    assert(m6 =~= m5 + (ind + "  )\n"@));
    assert(out@ =~= m6 + (ind + ")\n"@));
    assert(out@ =~= old(out)@ + scan_lines(ind, op@));
}

fn push_open_loop(out: &mut Vec<char>, level: usize)
    ensures
        final(out)@ == old(out)@ + open_loop(level),
{
    proof {
        reveal(open_loop);
    }
    push_windent(out, level);
    push_str(out, "(block $B\n");
    let ghost m1 = out@;
    push_windent(out, level.saturating_add(1));
    push_str(out, "(loop $L\n");
    let ghost m2 = out@;
    assert(m2 =~= m1 + (w_indent(level.saturating_add(1)) + "(loop $L\n"@));
    push_windent(out, level.saturating_add(1).saturating_add(1));
    push_str(out, "(br_if $B (i32.eqz (i32.load8_u (global.get $dp))))\n");
    assert(out@ =~= m2 + (w_indent(level.saturating_add(1).saturating_add(1))
        + "(br_if $B (i32.eqz (i32.load8_u (global.get $dp))))\n"@));
    assert(out@ =~= old(out)@ + open_loop(level));
}

fn push_close_loop(out: &mut Vec<char>, level: usize)
    ensures
        final(out)@ == old(out)@ + close_loop(level),
{
    proof {
        reveal(close_loop);
    }
    let l1 = if level > 2 { level - 1 } else { level };
    let l2 = if l1 > 2 { l1 - 1 } else { l1 };
    push_windent(out, level);
    push_str(out, "(br_if $L (i32.load8_u (global.get $dp)))\n");
    let ghost m1 = out@;
    push_windent(out, l1);
    push_str(out, ")\n");
    let ghost m2 = out@;
    assert(m2 =~= m1 + (w_indent(w_out(level)) + ")\n"@));
    push_windent(out, l2);
    push_str(out, ")\n");
    assert(out@ =~= m2 + (w_indent(w_out(w_out(level))) + ")\n"@));
    assert(out@ =~= old(out)@ + close_loop(level));
}

/// Append the WAT text of one op; returns the level after it.
#[verifier::rlimit(40)]
fn push_w_op(out: &mut Vec<char>, op: &Op, level: usize, iov: usize) -> (next: usize)
    requires
        iov + 8 <= usize::MAX,
    ensures
        final(out)@ == old(out)@ + w_op_text(op@, level, iov),
        next == w_next_level(op@, level),
{
    match op {
        Op::Add(n) => {
            push_cell_lines(out, level, "add", *n);
            level
        },
        Op::Sub(n) => {
            push_cell_lines(out, level, "sub", *n);
            level
        },
        Op::Right(n) => {
            push_dp_line(out, level, "add", *n);
            level
        },
        Op::Left(n) => {
            push_dp_line(out, level, "sub", *n);
            level
        },
        Op::Output => {
            push_io_lines(out, level, "fd_write", "1", iov);
            level
        },
        Op::Input => {
            push_io_lines(out, level, "fd_read", "0", iov);
            level
        },
        Op::JumpIfZero(_) => {
            push_open_loop(out, level);
            level.saturating_add(1).saturating_add(1)
        },
        Op::JumpIfNonZero(_) => {
            push_close_loop(out, level);
            let l1 = if level > 2 { level - 1 } else { level };
            if l1 > 2 { l1 - 1 } else { l1 }
        },
        Op::Clear => {
            push_store_zero(out, level);
            level
        },
        Op::MoveAdd(o) => {
            push_target_lines(out, level, *o, "add", false, 0);
            push_store_zero(out, level);
            level
        },
        Op::MoveSub(o) => {
            push_target_lines(out, level, *o, "sub", false, 0);
            push_store_zero(out, level);
            level
        },
        Op::Assign(n) => {
            push_store_line_num(out, level, *n);
            level
        },
        Op::ScanRight => {
            push_scan_lines(out, level, "add");
            level
        },
        Op::ScanLeft => {
            push_scan_lines(out, level, "sub");
            level
        },
        Op::MultiplyMove(ts) => {
            let ghost ind = w_indent(level);
            let ghost start = out@;
            let mut k: usize = 0;
            while k < ts.len()
                invariant
                    k <= ts@.len(),
                    out@ == start + w_targets(ts@.take(k as int), ind),
                    ind == w_indent(level),
                decreases ts@.len() - k,
            {
                let (o, f) = ts[k];
                push_target_lines(out, level, o, "add", true, f);
                proof {
                    assert(ts@.take(k + 1).drop_last() =~= ts@.take(k as int));
                    assert(ts@.take(k + 1).last() == (o, f));
                }
                k += 1;
                assert(out@ =~= start + w_targets(ts@.take(k as int), ind));
            }
            proof {
                assert(ts@.take(k as int) =~= ts@);
            }
            push_store_zero(out, level);
            level
        },
    }
}

/// Generate WAT (WebAssembly Text Format) from a brainfuck IR Program.
///
/// The generated WAT module uses WASI for I/O:
/// - `fd_write` for output (`.` operator)
/// - `fd_read` for input (`,` operator)
/// - Linear memory for the BF tape
pub fn generate_wat(program: &Program, tape_size: usize) -> (s: String)
    requires
        tape_size + 16 <= usize::MAX,
    ensures
        s@ == w_module(program@, tape_size),
{
    let mut out: Vec<char> = Vec::new();
    push_str(&mut out, "(module\n  (import \"wasi_snapshot_preview1\" \"fd_write\"\n    (func $fd_write (param i32 i32 i32 i32) (result i32)))\n  (import \"wasi_snapshot_preview1\" \"fd_read\"\n    (func $fd_read (param i32 i32 i32 i32) (result i32)))\n  (memory (export \"memory\") ");
    let total = tape_size + 16;
    let p = total / 65536 + if total % 65536 != 0 { 1 } else { 0 };
    let pages = if p < 1 { 1 } else { p };
    push_usize(&mut out, pages);
    push_str(&mut out, ")\n  (global $dp (mut i32) (i32.const 0))\n  (func $main (export \"_start\")\n");
    let ghost head = out@;
    let ghost ops = program@;
    let mut level: usize = 2;
    let mut k: usize = 0;
    while k < program.ops.len()
        invariant
            ops == program@,
            ops.len() == program.ops@.len(),
            tape_size + 16 <= usize::MAX,
            k <= ops.len(),
            out@ == head + w_run(ops.take(k as int), tape_size).0,
            level == w_run(ops.take(k as int), tape_size).1,
        decreases ops.len() - k,
    {
        proof {
            assert(ops.take(k + 1).drop_last() =~= ops.take(k as int));
            assert(ops[k as int] == program.ops@[k as int]@);
        }
        level = push_w_op(&mut out, &program.ops[k], level, tape_size);
        k += 1;
    }
    push_str(&mut out, "  )\n)\n");
    proof {
        assert(ops.take(k as int) =~= ops);
        assert(out@ =~= w_module(program@, tape_size));
    }
    chars_to_string(&out)
}

// ---------------------------------------------------------------------------
// Lowering mirrors raising
// ---------------------------------------------------------------------------

/// Law: the WebAssembly text of `Sub(n)`, `Left(n)` and `MoveSub(o)` is that of
/// `Add(n)`, `Right(n)` and `MoveAdd(o)` with the one arithmetic operation on
/// the cell, the pointer or the target turned from `i32.add` into `i32.sub`,
/// everything else (the operands and the amount) staying as it is.
pub proof fn law_w_lowering_mirrors_raising(n: u8, k: usize, o: isize, level: usize, iov: usize)
    ensures
        exists|p: Seq<char>, q: Seq<char>|
            #![trigger p + "add"@ + q]
            w_op_text(Instr::Add(n), level, iov) == p + "add"@ + q && w_op_text(Instr::Sub(n), level, iov) == p + "sub"@
                + q && p.len() >= 5 && p.subrange(p.len() - 5, p.len() as int) == "(i32."@,
        exists|p: Seq<char>, q: Seq<char>|
            #![trigger p + "add"@ + q]
            w_op_text(Instr::Right(k), level, iov) == p + "add"@ + q && w_op_text(Instr::Left(k), level, iov) == p
                + "sub"@ + q && p.len() >= 5 && p.subrange(p.len() - 5, p.len() as int) == "(i32."@,
        exists|p: Seq<char>, q: Seq<char>|
            #![trigger p + "add"@ + q]
            w_op_text(Instr::MoveAdd(o), level, iov) == p + "add"@ + q && w_op_text(Instr::MoveSub(o), level, iov) == p
                + "sub"@ + q && p.len() >= 5 && p.subrange(p.len() - 5, p.len() as int) == "(i32."@,
{
    reveal(cell_lines);
    reveal(dp_line);
    reveal(target_lines);
    reveal_strlit("  (i32.and (i32.");
    reveal_strlit("(global.set $dp (i32.");
    reveal_strlit("(i32.");
    let ind = w_indent(level);
    let p1 = ind + "(i32.store8\n"@ + (ind + "  (global.get $dp)\n"@) + (ind + "  (i32.and (i32."@);
    let q1 = " (i32.load8_u (global.get $dp)) (i32.const "@ + decimal(n as nat) + ")) (i32.const 255)))\n"@;
    assert(w_op_text(Instr::Add(n), level, iov) =~= p1 + "add"@ + q1);
    assert(w_op_text(Instr::Sub(n), level, iov) =~= p1 + "sub"@ + q1);
    assert(p1.subrange(p1.len() - 5, p1.len() as int) =~= "(i32."@);
    let p2 = ind + "(global.set $dp (i32."@;
    let q2 = " (global.get $dp) (i32.const "@ + decimal(k as nat) + ")))\n"@;
    assert(w_op_text(Instr::Right(k), level, iov) =~= p2 + "add"@ + q2);
    assert(w_op_text(Instr::Left(k), level, iov) =~= p2 + "sub"@ + q2);
    assert(p2.subrange(p2.len() - 5, p2.len() as int) =~= "(i32."@);
    let p3 = ind + "(i32.store8\n"@ + (ind + "  "@ + w_target(o) + "\n"@) + (ind + "  (i32.and (i32."@);
    let q3 = " (i32.load8_u "@ + w_target(o) + ") "@ + cell_value() + ") (i32.const 255)))\n"@ + store_line(ind, "0"@);
    assert(w_op_text(Instr::MoveAdd(o), level, iov) =~= p3 + "add"@ + q3);
    assert(w_op_text(Instr::MoveSub(o), level, iov) =~= p3 + "sub"@ + q3);
    assert(p3.subrange(p3.len() - 5, p3.len() as int) =~= "(i32."@);
}


/// The pointer step inside a scan at `ind` is the step of a move by one two
/// levels deeper.
proof fn lemma_scan_step_line(level: usize, op: Seq<char>)
    requires
        level + 2 <= usize::MAX,
    ensures
        w_indent(level) + "    (global.set $dp (i32."@ + op + " (global.get $dp) (i32.const 1)))\n"@ == dp_line(
            w_indent((level + 2) as usize),
            op,
            1,
        ),
{
    reveal(dp_line);
    let ind = w_indent(level);
    let deep = w_indent((level + 2) as usize);
    let a = "    (global.set $dp (i32."@;
    let b = "(global.set $dp (i32."@;
    let c = " (global.get $dp) (i32.const 1)))\n"@;
    let d = " (global.get $dp) (i32.const "@;
    let e = ")))\n"@;
    assert(ind + a =~= deep + b) by {
        reveal_strlit("    (global.set $dp (i32.");
        reveal_strlit("(global.set $dp (i32.");
    }
    assert(c =~= d + decimal(1) + e) by {
        reveal_strlit(" (global.get $dp) (i32.const 1)))\n");
        reveal_strlit(" (global.get $dp) (i32.const ");
        reveal_strlit(")))\n");
        assert(decimal(1) =~= seq!['1']);
    }
    vstd::seq_lib::lemma_concat_associative(ind, a, op);
    vstd::seq_lib::lemma_concat_associative(deep + b, op, c);
    vstd::seq_lib::lemma_concat_associative(deep + b + op, d + decimal(1), e);
    vstd::seq_lib::lemma_concat_associative(deep + b + op, d, decimal(1));
}

/// Seven texts joined in a row are the first three, the fourth and the last three.
proof fn lemma_regroup7(a: Seq<char>, b: Seq<char>, c: Seq<char>, d: Seq<char>, e: Seq<char>, f: Seq<char>, g: Seq<char>)
    ensures
        a + b + c + d + e + f + g == (a + b + c) + d + (e + f + g),
{
    assert(a + b + c + d + e + f + g =~= (a + b + c) + d + (e + f + g));
}

/// Law: the loop of `ScanRight` at a level steps the pointer with exactly the
/// text of `Right(1)` two levels deeper, and that of `ScanLeft` with exactly the
/// text of `Left(1)`: the scans walk one cell right, or one cell left, per
/// round. `Assign(0)` stores just as `Clear` does.
pub proof fn law_w_scans_step_as_moves(level: usize, iov: usize)
    requires
        level + 2 <= usize::MAX,
    ensures
        exists|h: Seq<char>, tl: Seq<char>|
            #![trigger h + tl]
            w_op_text(Instr::ScanRight, level, iov) == h + w_op_text(Instr::Right(1), (level + 2) as usize, iov) + tl,
        exists|h: Seq<char>, tl: Seq<char>|
            #![trigger h + tl]
            w_op_text(Instr::ScanLeft, level, iov) == h + w_op_text(Instr::Left(1), (level + 2) as usize, iov) + tl,
        w_op_text(Instr::Assign(0), level, iov) == w_op_text(Instr::Clear, level, iov),
{
    let ind = w_indent(level);
    let a = ind + "(block $S\n"@;
    let b = ind + "  (loop $SL\n"@;
    let c = ind + "    (br_if $S (i32.eqz (i32.load8_u (global.get $dp))))\n"@;
    let e = ind + "    (br $SL)\n"@;
    let f = ind + "  )\n"@;
    let g = ind + ")\n"@;
    let rl = ind + "    (global.set $dp (i32."@ + "add"@ + " (global.get $dp) (i32.const 1)))\n"@;
    let ll = ind + "    (global.set $dp (i32."@ + "sub"@ + " (global.get $dp) (i32.const 1)))\n"@;
    assert(w_op_text(Instr::ScanRight, level, iov) == a + b + c + rl + e + f + g) by {
        reveal(scan_lines);
    }
    assert(w_op_text(Instr::ScanLeft, level, iov) == a + b + c + ll + e + f + g) by {
        reveal(scan_lines);
    }
    lemma_regroup7(a, b, c, rl, e, f, g);
    lemma_regroup7(a, b, c, ll, e, f, g);
    lemma_scan_step_line(level, "add"@);
    lemma_scan_step_line(level, "sub"@);
    assert(w_op_text(Instr::Right(1), (level + 2) as usize, iov) == rl);
    assert(w_op_text(Instr::Left(1), (level + 2) as usize, iov) == ll);
    assert((a + b + c) + (e + f + g) == (a + b + c) + (e + f + g));
    assert(w_op_text(Instr::Assign(0), level, iov) == w_op_text(Instr::Clear, level, iov)) by {
        assert(decimal(0) =~= "0"@) by {
            reveal_strlit("0");
        }
    }
}

} // verus!

use vstd::prelude::*;

use super::ir::{Instr, Op, Program};
use crate::text::{chars_to_string, decimal, push_isize, push_str, push_u64, push_usize, signed_decimal};

verus! {

/// Optimization level for LLVM compilation.
#[derive(Debug, Clone, Copy, PartialEq, Eq, Structural)]
pub enum OptLevel {
    O0,
    O1,
    O2,
    O3,
}

impl OptLevel {
    /// The compiler flag for this level.
    pub fn as_flag(&self) -> (s: &'static str)
        ensures
            s@ == match self {
                OptLevel::O0 => "-O0"@,
                OptLevel::O1 => "-O1"@,
                OptLevel::O2 => "-O2"@,
                OptLevel::O3 => "-O3"@,
            },
    {
        match self {
            OptLevel::O0 => "-O0",
            OptLevel::O1 => "-O1",
            OptLevel::O2 => "-O2",
            OptLevel::O3 => "-O3",
        }
    }

    /// The level a command-line argument names: `0` to `3`.
    pub fn parse_level(s: &str) -> (r: Option<OptLevel>)
        ensures
            r == if s@ == "0"@ {
                Some(OptLevel::O0)
            } else if s@ == "1"@ {
                Some(OptLevel::O1)
            } else if s@ == "2"@ {
                Some(OptLevel::O2)
            } else if s@ == "3"@ {
                Some(OptLevel::O3)
            } else {
                None::<OptLevel>
            },
    {
        let t = String::from_str(s);
        if t == String::from_str("0") {
            Some(OptLevel::O0)
        } else if t == String::from_str("1") {
            Some(OptLevel::O1)
        } else if t == String::from_str("2") {
            Some(OptLevel::O2)
        } else if t == String::from_str("3") {
            Some(OptLevel::O3)
        } else {
            None
        }
    }
}

/// The code generator's state: the next register, the open loops, the next label.
pub struct LlState {
    pub reg: usize,
    pub loops: Seq<usize>,
    pub counter: usize,
}

/// The register after `r`.
pub open spec fn nx(r: usize) -> usize {
    r.saturating_add(1)
}

/// The name of register `r`.
#[verifier::opaque]
pub open spec fn t(r: usize) -> Seq<char> {
    "%t"@ + decimal(r as nat)
}

/// `%tr = load ptr, ptr %ptr`
#[verifier::opaque]
pub open spec fn ld_ptr(r: usize) -> Seq<char> {
    "  "@ + t(r) + " = load ptr, ptr %ptr\n"@
}

/// `%tr = load i8, ptr %tp`
#[verifier::opaque]
pub open spec fn ld_i8(r: usize, p: usize) -> Seq<char> {
    "  "@ + t(r) + " = load i8, ptr "@ + t(p) + "\n"@
}

/// `store i8 v, ptr %tp`
#[verifier::opaque]
pub open spec fn st_i8(v: Seq<char>, p: usize) -> Seq<char> {
    "  store i8 "@ + v + ", ptr "@ + t(p) + "\n"@
}

/// `%tr = getelementptr i8, ptr %tp, i64 off`
#[verifier::opaque]
pub open spec fn gep(r: usize, p: usize, off: Seq<char>) -> Seq<char> {
    "  "@ + t(r) + " = getelementptr i8, ptr "@ + t(p) + ", i64 "@ + off + "\n"@
}

/// `store ptr %tr, ptr %ptr`
#[verifier::opaque]
pub open spec fn st_ptr(r: usize) -> Seq<char> {
    "  store ptr "@ + t(r) + ", ptr %ptr\n"@
}

/// `%tr = op i8 %ta, b`
#[verifier::opaque]
pub open spec fn binop(r: usize, op: Seq<char>, a: usize, b: Seq<char>) -> Seq<char> {
    "  "@ + t(r) + " = "@ + op + " i8 "@ + t(a) + ", "@ + b + "\n"@
}

/// The jump to the condition block of a loop labelled `kind`, and its label.
#[verifier::opaque]
pub open spec fn cond_label(kind: Seq<char>, id: usize) -> Seq<char> {
    let n = decimal(id as nat);
    "  br label %"@ + kind + "_cond_"@ + n + "\n"@ + (kind + "_cond_"@ + n + ":\n"@)
}

/// Load the current cell and compare it with zero.
#[verifier::opaque]
pub open spec fn cmp_lines(r0: usize) -> Seq<char> {
    let r1 = nx(r0);
    let r2 = nx(r1);
    ld_ptr(r0) + ld_i8(r1, r0) + ("  "@ + t(r2) + " = icmp ne i8 "@ + t(r1) + ", 0\n"@)
}

/// The conditional branch into the body or past the end of a loop.
#[verifier::opaque]
pub open spec fn branch_line(kind: Seq<char>, id: usize, r: usize) -> Seq<char> {
    let n = decimal(id as nat);
    "  br i1 "@ + t(r) + (", label %"@ + kind + "_body_"@ + n) + (", label %"@ + kind + "_end_"@ + n + "\n"@)
}

/// The label of a loop body.
#[verifier::opaque]
pub open spec fn body_label(kind: Seq<char>, id: usize) -> Seq<char> {
    kind + "_body_"@ + decimal(id as nat) + ":\n"@
}

/// The test at the head of a loop labelled `kind`, with the branch into its body.
#[verifier::opaque]
pub open spec fn loop_head(kind: Seq<char>, id: usize, r0: usize) -> Seq<char> {
    cond_label(kind, id) + cmp_lines(r0) + branch_line(kind, id, nx(nx(r0))) + body_label(kind, id)
}

/// The branch back to the head of a loop, and the label after it.
#[verifier::opaque]
pub open spec fn loop_tail(kind: Seq<char>, id: usize) -> Seq<char> {
    let n = decimal(id as nat);
    "  br label %"@ + kind + "_cond_"@ + n + "\n"@ + kind + "_end_"@ + n + ":\n"@
}

/// A scan loop: move the pointer by `step` while the cell is nonzero.
#[verifier::opaque]
pub open spec fn scan_text(kind: Seq<char>, id: usize, r0: usize, step: Seq<char>) -> Seq<char> {
    let r3 = nx(nx(nx(r0)));
    let r4 = nx(r3);
    loop_head(kind, id, r0) + shift_text(step, r3) + loop_tail(kind, id)
}

/// Move the pointer by `step`, with the registers `r0` and the one after.
#[verifier::opaque]
pub open spec fn shift_text(step: Seq<char>, r0: usize) -> Seq<char> {
    ld_ptr(r0) + gep(nx(r0), r0, step) + st_ptr(nx(r0))
}

/// `op` the current cell with `n`.
#[verifier::opaque]
pub open spec fn arith_text(op: Seq<char>, n: u8, r0: usize) -> Seq<char> {
    let r1 = nx(r0);
    let r2 = nx(r1);
    let r3 = nx(r2);
    ld_ptr(r0) + ld_i8(r1, r0) + binop(r2, op, r1, decimal(n as nat)) + ld_ptr(r3) + st_i8(t(r2), r3)
}

/// Print the current cell.
#[verifier::opaque]
pub open spec fn output_text(r0: usize) -> Seq<char> {
    let r1 = nx(r0);
    let r2 = nx(r1);
    let r3 = nx(r2);
    ld_ptr(r0) + ld_i8(r1, r0) + ("  "@ + t(r2) + " = zext i8 "@ + t(r1) + " to i32\n"@) + ("  "@ + t(r3)
        + " = call i32 @putchar(i32 "@ + t(r2) + ")\n"@)
}

/// Read a byte into the current cell.
#[verifier::opaque]
pub open spec fn input_text(r0: usize) -> Seq<char> {
    let r1 = nx(r0);
    let r2 = nx(r1);
    ("  "@ + t(r0) + " = call i32 @getchar()\n"@) + ("  "@ + t(r1) + " = trunc i32 "@ + t(r0) + " to i8\n"@)
        + ld_ptr(r2) + st_i8(t(r1), r2)
}

/// Store `v` in the current cell.
#[verifier::opaque]
pub open spec fn store_text(v: Seq<char>, r0: usize) -> Seq<char> {
    ld_ptr(r0) + st_i8(v, r0)
}

/// The statements for one target of a multiply-move, with its registers from `rd` on.
#[verifier::opaque]
pub open spec fn target_text(o: isize, f: u8, rs: usize, rv: usize, rd: usize) -> Seq<char> {
    let rdv = nx(rd);
    let head = gep(rd, rs, signed_decimal(o as int)) + ld_i8(rdv, rd);
    if f == 1 {
        let rsum = nx(rdv);
        head + binop(rsum, "add"@, rdv, t(rv)) + st_i8(t(rsum), rd)
    } else {
        let rmul = nx(rdv);
        let rsum = nx(rmul);
        head + binop(rmul, "mul"@, rv, decimal(f as nat)) + binop(rsum, "add"@, rdv, t(rmul)) + st_i8(t(rsum), rd)
    }
}

/// The register after the registers of one target.
pub open spec fn target_next(f: u8, rd: usize) -> usize {
    if f == 1 { nx(nx(nx(rd))) } else { nx(nx(nx(nx(rd)))) }
}

/// The statements for the targets of a multiply-move, from register `reg` on;
/// `rs` holds the pointer and `rv` the value of the current cell.
pub open spec fn ll_targets(ts: Seq<(isize, u8)>, rs: usize, rv: usize, reg: usize) -> (Seq<char>, usize)
    decreases ts.len(),
{
    if ts.len() == 0 {
        (Seq::empty(), reg)
    } else {
        let (t0, r) = ll_targets(ts.drop_last(), rs, rv, reg);
        let (o, f) = ts.last();
        (t0 + target_text(o, f, rs, rv, r), target_next(f, r))
    }
}

/// A move-add or move-sub to the cell at `o`.
#[verifier::opaque]
pub open spec fn move_text(op: Seq<char>, o: isize, reg: usize) -> Seq<char> {
    let rs = reg;
    let rv = nx(rs);
    let rd = nx(rv);
    let rdv = nx(rd);
    let rsum = nx(rdv);
    ld_ptr(rs) + ld_i8(rv, rs) + gep(rd, rs, signed_decimal(o as int)) + ld_i8(rdv, rd) + binop(rsum, op, rdv, t(rv))
        + st_i8(t(rsum), rd) + st_i8("0"@, rs)
}

/// The LLVM text of one instruction, and the state after it.
pub open spec fn ll_op(op: Instr, s: LlState) -> (Seq<char>, LlState) {
    let r0 = s.reg;
    let r1 = nx(r0);
    let r2 = nx(r1);
    let r3 = nx(r2);
    let r5 = nx(nx(nx(nx(nx(r0)))));
    match op {
        Instr::Add(n) => (arith_text("add"@, n, r0), LlState { reg: nx(r3), ..s }),
        Instr::Sub(n) => (arith_text("sub"@, n, r0), LlState { reg: nx(r3), ..s }),
        Instr::Right(n) => (shift_text(decimal(n as nat), r0), LlState { reg: r2, ..s }),
        Instr::Left(n) => (shift_text("-"@ + decimal(n as nat), r0), LlState { reg: r2, ..s }),
        Instr::Output => (output_text(r0), LlState { reg: nx(r3), ..s }),
        Instr::Input => (input_text(r0), LlState { reg: r3, ..s }),
        Instr::JumpIfZero(_) => (loop_head("loop"@, s.counter, r0), LlState {
            reg: r3,
            loops: s.loops.push(s.counter),
            counter: nx(s.counter),
        }),
        Instr::JumpIfNonZero(_) => if s.loops.len() > 0 {
            (loop_tail("loop"@, s.loops.last()), LlState { loops: s.loops.drop_last(), ..s })
        } else {
            (Seq::empty(), s)
        },
        Instr::Clear => (store_text("0"@, r0), LlState { reg: r1, ..s }),
        Instr::Assign(n) => (store_text(decimal(n as nat), r0), LlState { reg: r1, ..s }),
        Instr::MoveAdd(o) => (move_text("add"@, o, r0), LlState { reg: r5, ..s }),
        Instr::MoveSub(o) => (move_text("sub"@, o, r0), LlState { reg: r5, ..s }),
        Instr::ScanRight => (scan_text("scan"@, s.counter, r0, "1"@), LlState { reg: r5, counter: nx(s.counter), ..s }),
        Instr::ScanLeft => (scan_text("scanl"@, s.counter, r0, "-1"@), LlState { reg: r5, counter: nx(s.counter), ..s }),
        Instr::MultiplyMove(ts) => {
            let (body, r) = ll_targets(ts, r0, r1, r2);
            (ld_ptr(r0) + ld_i8(r1, r0) + body + store_text("0"@, r), LlState { reg: nx(r), ..s })
        },
    }
}

/// The LLVM text of a sequence of instructions, and the state after them.
pub open spec fn ll_run(ops: Seq<Instr>) -> (Seq<char>, LlState)
    decreases ops.len(),
{
    if ops.len() == 0 {
        (Seq::empty(), LlState { reg: 0, loops: Seq::empty(), counter: 0 })
    } else {
        let (t0, s) = ll_run(ops.drop_last());
        let (t1, s1) = ll_op(ops.last(), s);
        (t0 + t1, s1)
    }
}

/// The module text before the tape size.
pub open spec fn ll_prelude() -> Seq<char> {
    "; ModuleID = 'brainfuck'\nsource_filename = \"brainfuck\"\n\n@tape = global ["@
}

/// The module text after the tape size, before the code.
pub open spec fn ll_main_head() -> Seq<char> {
    " x i8] zeroinitializer\n\ndeclare i32 @putchar(i32)\ndeclare i32 @getchar()\ndeclare ptr @memset(ptr, i32, i64)\n\ndefine i32 @main() {\nentry:\n  %ptr = alloca ptr\n  store ptr @tape, ptr %ptr\n"@
}

/// The whole LLVM module for a sequence of instructions.
pub open spec fn ll_module(ops: Seq<Instr>, tape_size: usize) -> Seq<char> {
    ll_prelude() + decimal(tape_size as nat) + ll_main_head() + ll_run(ops).0 + "  ret i32 0\n}\n"@
}

fn push_t(out: &mut Vec<char>, r: usize)
    ensures
        final(out)@ == old(out)@ + t(r),
{
    push_str(out, "%t");
    push_usize(out, r);
    reveal(t);
    assert(out@ =~= old(out)@ + t(r));
}

fn push_ld_ptr(out: &mut Vec<char>, r: usize)
    ensures
        final(out)@ == old(out)@ + ld_ptr(r),
{
    proof {
        reveal(ld_ptr);
    }
    push_str(out, "  ");
    push_t(out, r);
    push_str(out, " = load ptr, ptr %ptr\n");
    assert(out@ =~= old(out)@ + ld_ptr(r));
}

fn push_ld_i8(out: &mut Vec<char>, r: usize, p: usize)
    ensures
        final(out)@ == old(out)@ + ld_i8(r, p),
{
    proof {
        reveal(ld_i8);
    }
    push_str(out, "  ");
    push_t(out, r);
    push_str(out, " = load i8, ptr ");
    push_t(out, p);
    push_str(out, "\n");
    assert(out@ =~= old(out)@ + ld_i8(r, p));
}

fn push_st_i8_reg(out: &mut Vec<char>, v: usize, p: usize)
    ensures
        final(out)@ == old(out)@ + st_i8(t(v), p),
{
    proof {
        reveal(st_i8);
    }
    push_str(out, "  store i8 ");
    push_t(out, v);
    push_str(out, ", ptr ");
    push_t(out, p);
    push_str(out, "\n");
    assert(out@ =~= old(out)@ + st_i8(t(v), p));
}

fn push_st_i8_num(out: &mut Vec<char>, v: u8, p: usize)
    ensures
        final(out)@ == old(out)@ + st_i8(decimal(v as nat), p),
{
    proof {
        reveal(st_i8);
    }
    push_str(out, "  store i8 ");
    push_u64(out, v as u64);
    push_str(out, ", ptr ");
    push_t(out, p);
    push_str(out, "\n");
    assert(out@ =~= old(out)@ + st_i8(decimal(v as nat), p));
}

fn push_st_zero(out: &mut Vec<char>, p: usize)
    ensures
        final(out)@ == old(out)@ + st_i8("0"@, p),
{
    proof {
        reveal(st_i8);
    }
    push_str(out, "  store i8 ");
    push_str(out, "0");
    push_str(out, ", ptr ");
    push_t(out, p);
    push_str(out, "\n");
    assert(out@ =~= old(out)@ + st_i8("0"@, p));
}

fn push_st_ptr(out: &mut Vec<char>, r: usize)
    ensures
        final(out)@ == old(out)@ + st_ptr(r),
{
    proof {
        reveal(st_ptr);
    }
    push_str(out, "  store ptr ");
    push_t(out, r);
    push_str(out, ", ptr %ptr\n");
    assert(out@ =~= old(out)@ + st_ptr(r));
}

/// `gep` with a signed offset.
fn push_gep_signed(out: &mut Vec<char>, r: usize, p: usize, off: isize)
    ensures
        final(out)@ == old(out)@ + gep(r, p, signed_decimal(off as int)),
{
    proof {
        reveal(gep);
    }
    push_str(out, "  ");
    push_t(out, r);
    push_str(out, " = getelementptr i8, ptr ");
    push_t(out, p);
    push_str(out, ", i64 ");
    push_isize(out, off);
    push_str(out, "\n");
    assert(out@ =~= old(out)@ + gep(r, p, signed_decimal(off as int)));
}

/// `gep` with an offset of `n` (negated when `neg`).
fn push_gep_count(out: &mut Vec<char>, r: usize, p: usize, n: usize, neg: bool)
    ensures
        final(out)@ == old(out)@ + gep(r, p, if neg { "-"@ + decimal(n as nat) } else { decimal(n as nat) }),
{
    proof {
        reveal(gep);
    }
    push_str(out, "  ");
    push_t(out, r);
    push_str(out, " = getelementptr i8, ptr ");
    push_t(out, p);
    push_str(out, ", i64 ");
    if neg {
        push_str(out, "-");
    }
    push_usize(out, n);
    push_str(out, "\n");
    assert(out@ =~= old(out)@ + gep(r, p, if neg { "-"@ + decimal(n as nat) } else { decimal(n as nat) }));
}

/// `binop` with a register as second operand.
fn push_binop_reg(out: &mut Vec<char>, r: usize, op: &str, a: usize, b: usize)
    ensures
        final(out)@ == old(out)@ + binop(r, op@, a, t(b)),
{
    proof {
        reveal(binop);
    }
    push_str(out, "  ");
    push_t(out, r);
    push_str(out, " = ");
    push_str(out, op);
    push_str(out, " i8 ");
    push_t(out, a);
    push_str(out, ", ");
    push_t(out, b);
    push_str(out, "\n");
    assert(out@ =~= old(out)@ + binop(r, op@, a, t(b)));
}

/// `binop` with a number as second operand.
fn push_binop_num(out: &mut Vec<char>, r: usize, op: &str, a: usize, b: u8)
    ensures
        final(out)@ == old(out)@ + binop(r, op@, a, decimal(b as nat)),
{
    proof {
        reveal(binop);
    }
    push_str(out, "  ");
    push_t(out, r);
    push_str(out, " = ");
    push_str(out, op);
    push_str(out, " i8 ");
    push_t(out, a);
    push_str(out, ", ");
    push_u64(out, b as u64);
    push_str(out, "\n");
    assert(out@ =~= old(out)@ + binop(r, op@, a, decimal(b as nat)));
}

fn push_cond_label(out: &mut Vec<char>, kind: &str, id: usize)
    ensures
        final(out)@ == old(out)@ + cond_label(kind@, id),
{
    proof {
        reveal(cond_label);
    }
    push_str(out, "  br label %");
    push_str(out, kind);
    push_str(out, "_cond_");
    push_usize(out, id);
    push_str(out, "\n");
    let ghost mid = out@;
    push_str(out, kind);
    push_str(out, "_cond_");
    push_usize(out, id);
    push_str(out, ":\n");
    assert(out@ =~= mid + (kind@ + "_cond_"@ + decimal(id as nat) + ":\n"@));
    assert(out@ =~= old(out)@ + cond_label(kind@, id));
}

fn push_cmp_lines(out: &mut Vec<char>, r0: usize)
    ensures
        final(out)@ == old(out)@ + cmp_lines(r0),
{
    proof {
        reveal(cmp_lines);
    }
    let r1 = r0.saturating_add(1);
    let r2 = r1.saturating_add(1);
    push_ld_ptr(out, r0);
    push_ld_i8(out, r1, r0);
    let ghost mid = out@;
    push_str(out, "  ");
    push_t(out, r2);
    push_str(out, " = icmp ne i8 ");
    push_t(out, r1);
    push_str(out, ", 0\n");
    assert(out@ =~= mid + ("  "@ + t(r2) + " = icmp ne i8 "@ + t(r1) + ", 0\n"@));
    assert(out@ =~= old(out)@ + cmp_lines(r0));
}

fn push_branch_line(out: &mut Vec<char>, kind: &str, id: usize, r: usize)
    ensures
        final(out)@ == old(out)@ + branch_line(kind@, id, r),
{
    proof {
        reveal(branch_line);
    }
    push_str(out, "  br i1 ");
    push_t(out, r);
    let ghost m1 = out@;
    push_str(out, ", label %");
    push_str(out, kind);
    push_str(out, "_body_");
    push_usize(out, id);
    let ghost m2 = out@;
    assert(m2 =~= m1 + (", label %"@ + kind@ + "_body_"@ + decimal(id as nat)));
    push_str(out, ", label %");
    push_str(out, kind);
    push_str(out, "_end_");
    push_usize(out, id);
    push_str(out, "\n");
    assert(out@ =~= m2 + (", label %"@ + kind@ + "_end_"@ + decimal(id as nat) + "\n"@));
    assert(out@ =~= old(out)@ + branch_line(kind@, id, r));
}

fn push_loop_head(out: &mut Vec<char>, kind: &str, id: usize, r0: usize)
    ensures
        final(out)@ == old(out)@ + loop_head(kind@, id, r0),
{
    proof {
        reveal(loop_head);
        reveal(body_label);
    }
    push_cond_label(out, kind, id);
    push_cmp_lines(out, r0);
    push_branch_line(out, kind, id, r0.saturating_add(1).saturating_add(1));
    push_str(out, kind);
    push_str(out, "_body_");
    push_usize(out, id);
    push_str(out, ":\n");
    assert(out@ =~= old(out)@ + loop_head(kind@, id, r0));
}

fn push_loop_tail(out: &mut Vec<char>, kind: &str, id: usize)
    ensures
        final(out)@ == old(out)@ + loop_tail(kind@, id),
{
    proof {
        reveal(loop_tail);
    }
    push_str(out, "  br label %");
    push_str(out, kind);
    push_str(out, "_cond_");
    push_usize(out, id);
    push_str(out, "\n");
    push_str(out, kind);
    push_str(out, "_end_");
    push_usize(out, id);
    push_str(out, ":\n");
    assert(out@ =~= old(out)@ + loop_tail(kind@, id));
}

fn push_shift(out: &mut Vec<char>, r0: usize, n: usize, neg: bool)
    ensures
        final(out)@ == old(out)@ + shift_text(if neg { "-"@ + decimal(n as nat) } else { decimal(n as nat) }, r0),
{
    proof {
        reveal(shift_text);
    }
    push_ld_ptr(out, r0);
    push_gep_count(out, r0.saturating_add(1), r0, n, neg);
    push_st_ptr(out, r0.saturating_add(1));
    assert(out@ =~= old(out)@ + shift_text(if neg { "-"@ + decimal(n as nat) } else { decimal(n as nat) }, r0));
}

fn push_scan(out: &mut Vec<char>, kind: &str, id: usize, r0: usize, left: bool)
    ensures
        final(out)@ == old(out)@ + scan_text(kind@, id, r0, if left { "-1"@ } else { "1"@ }),
{
    proof {
        reveal(scan_text);
    }
    proof {
        reveal_strlit("1");
        reveal_strlit("-1");
        reveal_strlit("-");
        assert(decimal(1) =~= "1"@);
        assert("-"@ + decimal(1) =~= "-1"@);
    }
    let r3 = r0.saturating_add(1).saturating_add(1).saturating_add(1);
    push_loop_head(out, kind, id, r0);
    push_shift(out, r3, 1, left);
    push_loop_tail(out, kind, id);
    assert(out@ =~= old(out)@ + scan_text(kind@, id, r0, if left { "-1"@ } else { "1"@ }));
}

fn push_arith(out: &mut Vec<char>, op: &str, n: u8, r0: usize)
    ensures
        final(out)@ == old(out)@ + arith_text(op@, n, r0),
{
    proof {
        reveal(arith_text);
    }
    let r1 = r0.saturating_add(1);
    let r2 = r1.saturating_add(1);
    let r3 = r2.saturating_add(1);
    push_ld_ptr(out, r0);
    push_ld_i8(out, r1, r0);
    push_binop_num(out, r2, op, r1, n);
    push_ld_ptr(out, r3);
    push_st_i8_reg(out, r2, r3);
    assert(out@ =~= old(out)@ + arith_text(op@, n, r0));
}

fn push_output(out: &mut Vec<char>, r0: usize)
    ensures
        final(out)@ == old(out)@ + output_text(r0),
{
    proof {
        reveal(output_text);
    }
    let r1 = r0.saturating_add(1);
    let r2 = r1.saturating_add(1);
    let r3 = r2.saturating_add(1);
    push_ld_ptr(out, r0);
    push_ld_i8(out, r1, r0);
    let ghost m1 = out@;
    push_str(out, "  ");
    push_t(out, r2);
    push_str(out, " = zext i8 ");
    push_t(out, r1);
    push_str(out, " to i32\n");
    let ghost m2 = out@;
    assert(m2 =~= m1 + ("  "@ + t(r2) + " = zext i8 "@ + t(r1) + " to i32\n"@));
    push_str(out, "  ");
    push_t(out, r3);
    push_str(out, " = call i32 @putchar(i32 ");
    push_t(out, r2);
    push_str(out, ")\n");
    assert(out@ =~= m2 + ("  "@ + t(r3) + " = call i32 @putchar(i32 "@ + t(r2) + ")\n"@));
    assert(out@ =~= old(out)@ + output_text(r0));
}

fn push_input(out: &mut Vec<char>, r0: usize)
    ensures
        final(out)@ == old(out)@ + input_text(r0),
{
    proof {
        reveal(input_text);
    }
    let r1 = r0.saturating_add(1);
    let r2 = r1.saturating_add(1);
    push_str(out, "  ");
    push_t(out, r0);
    push_str(out, " = call i32 @getchar()\n");
    let ghost m1 = out@;
    assert(m1 =~= old(out)@ + ("  "@ + t(r0) + " = call i32 @getchar()\n"@));
    push_str(out, "  ");
    push_t(out, r1);
    push_str(out, " = trunc i32 ");
    push_t(out, r0);
    push_str(out, " to i8\n");
    let ghost m2 = out@;
    assert(m2 =~= m1 + ("  "@ + t(r1) + " = trunc i32 "@ + t(r0) + " to i8\n"@));
    push_ld_ptr(out, r2);
    push_st_i8_reg(out, r1, r2);
    assert(out@ =~= old(out)@ + input_text(r0));
}

fn push_target(out: &mut Vec<char>, o: isize, f: u8, rs: usize, rv: usize, rd: usize) -> (r: usize)
    ensures
        final(out)@ == old(out)@ + target_text(o, f, rs, rv, rd),
        r == target_next(f, rd),
{
    proof {
        reveal(target_text);
    }
    let rdv = rd.saturating_add(1);
    push_gep_signed(out, rd, rs, o);
    push_ld_i8(out, rdv, rd);
    if f == 1 {
        let rsum = rdv.saturating_add(1);
        push_binop_reg(out, rsum, "add", rdv, rv);
        push_st_i8_reg(out, rsum, rd);
        assert(out@ =~= old(out)@ + target_text(o, f, rs, rv, rd));
        rsum.saturating_add(1)
    } else {
        let rmul = rdv.saturating_add(1);
        let rsum = rmul.saturating_add(1);
        push_binop_num(out, rmul, "mul", rv, f);
        push_binop_reg(out, rsum, "add", rdv, rmul);
        push_st_i8_reg(out, rsum, rd);
        assert(out@ =~= old(out)@ + target_text(o, f, rs, rv, rd));
        rsum.saturating_add(1)
    }
}

fn push_targets(out: &mut Vec<char>, ts: &Vec<(isize, u8)>, r0: usize, r1: usize, r2: usize) -> (r: usize)
    ensures
        final(out)@ == old(out)@ + ll_targets(ts@, r0, r1, r2).0,
        r == ll_targets(ts@, r0, r1, r2).1,
{
    let ghost mid = out@;
    let mut r = r2;
    let mut k: usize = 0;
    while k < ts.len()
        invariant
            k <= ts@.len(),
            out@ == mid + ll_targets(ts@.take(k as int), r0, r1, r2).0,
            r == ll_targets(ts@.take(k as int), r0, r1, r2).1,
        decreases ts@.len() - k,
    {
        let (o, f) = ts[k];
        proof {
            assert(ts@.take(k + 1).drop_last() =~= ts@.take(k as int));
            assert(ts@.take(k + 1).last() == (o, f));
        }
        let ghost before = out@;
        r = push_target(out, o, f, r0, r1, r);
        k += 1;
        assert(out@ =~= mid + ll_targets(ts@.take(k as int), r0, r1, r2).0);
    }
    proof {
        assert(ts@.take(k as int) =~= ts@);
    }
    r
}

fn push_move(out: &mut Vec<char>, op: &str, o: isize, reg: usize)
    ensures
        final(out)@ == old(out)@ + move_text(op@, o, reg),
{
    proof {
        reveal(move_text);
    }
    let rs = reg;
    let rv = rs.saturating_add(1);
    let rd = rv.saturating_add(1);
    let rdv = rd.saturating_add(1);
    let rsum = rdv.saturating_add(1);
    push_ld_ptr(out, rs);
    push_ld_i8(out, rv, rs);
    push_gep_signed(out, rd, rs, o);
    push_ld_i8(out, rdv, rd);
    push_binop_reg(out, rsum, op, rdv, rv);
    push_st_i8_reg(out, rsum, rd);
    push_st_zero(out, rs);
    assert(out@ =~= old(out)@ + move_text(op@, o, reg));
}

/// Append the LLVM text of one op; returns the register and label counters after it.
#[verifier::rlimit(60)]
fn push_ll_op(out: &mut Vec<char>, op: &Op, reg: usize, loops: &mut Vec<usize>, counter: usize) -> (r: (usize, usize))
    ensures
        ({
            let (text, s) = ll_op(op@, LlState { reg, loops: old(loops)@, counter });
            &&& final(out)@ == old(out)@ + text
            &&& r.0 == s.reg
            &&& final(loops)@ == s.loops
            &&& r.1 == s.counter
        }),
{
    let r0 = reg;
    let r1 = r0.saturating_add(1);
    let r2 = r1.saturating_add(1);
    let r3 = r2.saturating_add(1);
    let r5 = r3.saturating_add(1).saturating_add(1);
    match op {
        Op::Add(n) => {
            push_arith(out, "add", *n, r0);
            (r3.saturating_add(1), counter)
        },
        Op::Sub(n) => {
            push_arith(out, "sub", *n, r0);
            (r3.saturating_add(1), counter)
        },
        Op::Right(n) => {
            push_shift(out, r0, *n, false);
            (r2, counter)
        },
        Op::Left(n) => {
            push_shift(out, r0, *n, true);
            (r2, counter)
        },
        Op::Output => {
            push_output(out, r0);
            (r3.saturating_add(1), counter)
        },
        Op::Input => {
            push_input(out, r0);
            (r3, counter)
        },
        Op::JumpIfZero(_) => {
            push_loop_head(out, "loop", counter, r0);
            loops.push(counter);
            (r3, counter.saturating_add(1))
        },
        Op::JumpIfNonZero(_) => {
            if loops.len() > 0 {
                let id = loops[loops.len() - 1];
                loops.pop();
                push_loop_tail(out, "loop", id);
                assert(loops@ =~= old(loops)@.drop_last());
            } else {
                assert(out@ =~= old(out)@ + Seq::<char>::empty());
            }
            (reg, counter)
        },
        Op::Clear => {
            push_ld_ptr(out, r0);
            push_st_zero(out, r0);
            proof {
                reveal(store_text);
            }
            assert(out@ =~= old(out)@ + store_text("0"@, r0));
            (r1, counter)
        },
        Op::Assign(n) => {
            push_ld_ptr(out, r0);
            push_st_i8_num(out, *n, r0);
            proof {
                reveal(store_text);
            }
            assert(out@ =~= old(out)@ + store_text(decimal(*n as nat), r0));
            (r1, counter)
        },
        Op::MoveAdd(o) => {
            push_move(out, "add", *o, r0);
            (r5, counter)
        },
        Op::MoveSub(o) => {
            push_move(out, "sub", *o, r0);
            (r5, counter)
        },
        Op::ScanRight => {
            push_scan(out, "scan", counter, r0, false);
            (r5, counter.saturating_add(1))
        },
        Op::ScanLeft => {
            push_scan(out, "scanl", counter, r0, true);
            (r5, counter.saturating_add(1))
        },
        Op::MultiplyMove(ts) => {
            push_ld_ptr(out, r0);
            push_ld_i8(out, r1, r0);
            let ghost m = out@;
            let r = push_targets(out, ts, r0, r1, r2);
            let ghost m2 = out@;
            push_ld_ptr(out, r);
            push_st_zero(out, r);
            proof {
                reveal(store_text);
            }
            assert(out@ =~= m2 + store_text("0"@, r));
            assert(out@ =~= old(out)@ + (ld_ptr(r0) + ld_i8(r1, r0) + ll_targets(ts@, r0, r1, r2).0 + store_text("0"@, r)));
            (r.saturating_add(1), counter)
        },
    }
}

/// Generate LLVM IR text from a brainfuck IR Program.
pub fn generate_llvm_ir(program: &Program, tape_size: usize) -> (s: String)
    ensures
        s@ == ll_module(program@, tape_size),
{
    let mut out: Vec<char> = Vec::new();
    push_str(&mut out, "; ModuleID = 'brainfuck'\nsource_filename = \"brainfuck\"\n\n@tape = global [");
    push_usize(&mut out, tape_size);
    push_str(&mut out, " x i8] zeroinitializer\n\ndeclare i32 @putchar(i32)\ndeclare i32 @getchar()\ndeclare ptr @memset(ptr, i32, i64)\n\ndefine i32 @main() {\nentry:\n  %ptr = alloca ptr\n  store ptr @tape, ptr %ptr\n");
    let ghost head = out@;
    let ghost ops = program@;
    let mut reg: usize = 0;
    let mut loops: Vec<usize> = Vec::new();
    let mut counter: usize = 0;
    let mut k: usize = 0;
    while k < program.ops.len()
        invariant
            ops == program@,
            ops.len() == program.ops@.len(),
            k <= ops.len(),
            out@ == head + ll_run(ops.take(k as int)).0,
            reg == ll_run(ops.take(k as int)).1.reg,
            loops@ == ll_run(ops.take(k as int)).1.loops,
            counter == ll_run(ops.take(k as int)).1.counter,
        decreases ops.len() - k,
    {
        proof {
            assert(ops.take(k + 1).drop_last() =~= ops.take(k as int));
            assert(ops[k as int] == program.ops@[k as int]@);
        }
        let (r2, c2) = push_ll_op(&mut out, &program.ops[k], reg, &mut loops, counter);
        reg = r2;
        counter = c2;
        k += 1;
    }
    push_str(&mut out, "  ret i32 0\n}\n");
    proof {
        assert(ops.take(k as int) =~= ops);
        assert(out@ =~= ll_module(program@, tape_size));
    }
    chars_to_string(&out)
}

// ---------------------------------------------------------------------------
// Lowering mirrors raising
// ---------------------------------------------------------------------------

proof fn lemma_move_split(o: isize, r0: usize) -> (pq: (Seq<char>, Seq<char>))
    ensures
        move_text("add"@, o, r0) == pq.0 + "add"@ + pq.1,
        move_text("sub"@, o, r0) == pq.0 + "sub"@ + pq.1,
        pq.0.len() >= 3,
        pq.0.subrange(pq.0.len() - 3, pq.0.len() as int) == " = "@,
{
    reveal(binop);
    reveal(move_text);
    reveal_strlit(" = ");
    let rv = nx(r0);
    let rd = nx(rv);
    let rdv = nx(rd);
    let rsum = nx(rdv);
    let a = ld_ptr(r0) + ld_i8(rv, r0) + gep(rd, r0, signed_decimal(o as int)) + ld_i8(rdv, rd);
    let p1 = a + "  "@ + t(rsum) + " = "@;
    let q1 = " i8 "@ + t(rdv) + ", "@ + t(rv) + "\n"@ + st_i8(t(rsum), rd) + st_i8("0"@, r0);
    assert(move_text("add"@, o, r0) =~= p1 + "add"@ + q1);
    assert(move_text("sub"@, o, r0) =~= p1 + "sub"@ + q1);
    assert(p1.subrange(p1.len() - 3, p1.len() as int) =~= " = "@);
    (p1, q1)
}

proof fn lemma_arith_split(n: u8, r0: usize) -> (pq: (Seq<char>, Seq<char>))
    ensures
        arith_text("add"@, n, r0) == pq.0 + "add"@ + pq.1,
        arith_text("sub"@, n, r0) == pq.0 + "sub"@ + pq.1,
        pq.0.len() >= 3,
        pq.0.subrange(pq.0.len() - 3, pq.0.len() as int) == " = "@,
{
    reveal(binop);
    reveal(arith_text);
    reveal_strlit(" = ");
    let r1 = nx(r0);
    let r2 = nx(r1);
    let r3 = nx(r2);
    let b = ld_ptr(r0) + ld_i8(r1, r0);
    let p2 = b + "  "@ + t(r2) + " = "@;
    let q2 = " i8 "@ + t(r1) + ", "@ + decimal(n as nat) + "\n"@ + ld_ptr(r3) + st_i8(t(r2), r3);
    assert(arith_text("add"@, n, r0) =~= p2 + "add"@ + q2);
    assert(arith_text("sub"@, n, r0) =~= p2 + "sub"@ + q2);
    assert(p2.subrange(p2.len() - 3, p2.len() as int) =~= " = "@);
    (p2, q2)
}

/// Law: the LLVM text of `MoveSub(o)` is that of `MoveAdd(o)` with the one
/// arithmetic instruction `add` turned into `sub`, the operands staying as they
/// are (the target's value first, the current cell's second); and the text of
/// `Sub(n)` is that of `Add(n)` with its `add` turned into `sub` in the same
/// way. So the subtracting ops compute the target (or the cell) minus the
/// amount where the adding ones compute the sum.
pub proof fn law_ll_lowering_mirrors_raising(o: isize, n: u8, s: LlState)
    ensures
        exists|p: Seq<char>, q: Seq<char>|
            #![trigger p + "add"@ + q]
            ll_op(Instr::MoveAdd(o), s).0 == p + "add"@ + q && ll_op(Instr::MoveSub(o), s).0 == p + "sub"@ + q
                && p.len() >= 3 && p.subrange(p.len() - 3, p.len() as int) == " = "@,
        exists|p: Seq<char>, q: Seq<char>|
            #![trigger p + "add"@ + q]
            ll_op(Instr::Add(n), s).0 == p + "add"@ + q && ll_op(Instr::Sub(n), s).0 == p + "sub"@ + q
                && p.len() >= 3 && p.subrange(p.len() - 3, p.len() as int) == " = "@,
{
    let (p1, q1) = lemma_move_split(o, s.reg);
    let (p2, q2) = lemma_arith_split(n, s.reg);
    assert(ll_op(Instr::MoveAdd(o), s).0 == p1 + "add"@ + q1);
    assert(ll_op(Instr::Add(n), s).0 == p2 + "add"@ + q2);
}

/// Law: the LLVM text of `Left(n)` is that of `Right(n)` with a `-` before
/// the step of the pointer's `getelementptr`: the pointer moves back by the
/// distance by which `Right(n)` moves it on.
pub proof fn law_ll_left_mirrors_right(n: usize, s: LlState)
    ensures
        exists|p: Seq<char>, q: Seq<char>|
            #![trigger p + decimal(n as nat) + q]
            ll_op(Instr::Right(n), s).0 == p + decimal(n as nat) + q && ll_op(Instr::Left(n), s).0 == p + "-"@
                + decimal(n as nat) + q,
{
    reveal(shift_text);
    reveal(gep);
    let r0 = s.reg;
    let p = ld_ptr(r0) + ("  "@ + t(nx(r0)) + " = getelementptr i8, ptr "@ + t(r0) + ", i64 "@);
    let q = "\n"@ + st_ptr(nx(r0));
    assert(ll_op(Instr::Right(n), s).0 =~= p + decimal(n as nat) + q);
    assert(ll_op(Instr::Left(n), s).0 =~= p + "-"@ + decimal(n as nat) + q);
}

/// Law: the loop of `ScanRight` steps the pointer with exactly the text of
/// `Right(1)`, and that of `ScanLeft` with exactly the text of `Left(1)`: the
/// scans walk one cell right, or one cell left, per round. `Assign(0)` stores
/// just as `Clear` does.
pub proof fn law_ll_scans_step_as_moves(s: LlState)
    ensures
        exists|h: Seq<char>, tl: Seq<char>|
            #![trigger h + tl]
            ll_op(Instr::ScanRight, s).0 == h + ll_op(Instr::Right(1), LlState { reg: nx(nx(nx(s.reg))), ..s }).0 + tl,
        exists|h: Seq<char>, tl: Seq<char>|
            #![trigger h + tl]
            ll_op(Instr::ScanLeft, s).0 == h + ll_op(Instr::Left(1), LlState { reg: nx(nx(nx(s.reg))), ..s }).0 + tl,
        ll_op(Instr::Assign(0), s).0 == ll_op(Instr::Clear, s).0,
{
    reveal(scan_text);
    reveal_strlit("1");
    reveal_strlit("-1");
    reveal_strlit("-");
    reveal_strlit("0");
    let r0 = s.reg;
    let r3 = nx(nx(nx(r0)));
    assert(decimal(1) =~= "1"@);
    assert(decimal(0) =~= "0"@);
    assert("-"@ + decimal(1) =~= "-1"@);
    let hr = loop_head("scan"@, s.counter, r0);
    let tr = loop_tail("scan"@, s.counter);
    let hl = loop_head("scanl"@, s.counter, r0);
    let tlf = loop_tail("scanl"@, s.counter);
    assert(ll_op(Instr::ScanRight, s).0 == hr + ll_op(Instr::Right(1), LlState { reg: r3, ..s }).0 + tr);
    assert(ll_op(Instr::ScanLeft, s).0 == hl + ll_op(Instr::Left(1), LlState { reg: r3, ..s }).0 + tlf);
    assert(hr + tr == hr + tr);
    assert(hl + tlf == hl + tlf);
}

} // verus!

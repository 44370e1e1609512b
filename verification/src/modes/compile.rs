use vstd::prelude::*;

use super::ir::{Instr, Op, Program, lemma_parse_moves, optimize_spec, parse_source};
use super::preprocess::{occurs_at, seq_contains};
use crate::text::{
    chars_to_string, decimal, digit_char, push_isize, push_repeat, push_str, push_u64, push_usize, repeat_char,
    signed_decimal,
};

verus! {

/// The lines of a C program before the tape size.
pub open spec fn c_prelude() -> Seq<char> {
    c_head() + c_array_open()
}

/// The lines of a C program before the tape's declaration.
pub open spec fn c_head() -> Seq<char> {
    "#include <stdio.h>\n#include <stdlib.h>\n#include <string.h>\n\nstatic char *arg_buf = NULL;\nstatic int arg_pos = 0;\nstatic int arg_len = 0;\n\nstatic int bf_getchar(void) {\n    if (arg_pos < arg_len) return (unsigned char)arg_buf[arg_pos++];\n    return getchar();\n}\n\nint main(int argc, char *argv[]) {\n    if (argc > 1) {\n        int total = 0;\n        for (int i = 1; i < argc; i++) total += strlen(argv[i]) + 1;\n        arg_buf = malloc(total + 1);\n        arg_buf[0] = '\\0';\n        for (int i = 1; i < argc; i++) {\n            if (i > 1) strcat(arg_buf, \" \");\n            strcat(arg_buf, argv[i]);\n        }\n        strcat(arg_buf, \"\\n\");\n        arg_len = strlen(arg_buf);\n    }\n    "@
}

/// The start of the tape's declaration, before its size.
pub open spec fn c_array_open() -> Seq<char> {
    "unsigned char array["@
}

/// The lines of a C program after the tape size, before the code.
pub open spec fn c_tape_setup() -> Seq<char> {
    "];\n    memset(array, 0, sizeof(array));\n    unsigned char *ptr = array;\n"@
}

/// The lines of a C program after the code.
pub open spec fn c_footer() -> Seq<char> {
    "    if (arg_buf) free(arg_buf);\n    return 0;\n}\n"@
}

/// Four spaces per indentation level.
pub open spec fn c_indent(level: usize) -> Seq<char> {
    repeat_char(' ', 4 * level as nat)
}

/// The C statements of the targets of a multiply-move.
pub open spec fn c_targets(ts: Seq<(isize, u8)>, ind: Seq<char>) -> Seq<char>
    decreases ts.len(),
{
    if ts.len() == 0 {
        Seq::empty()
    } else {
        let (o, f) = ts.last();
        c_targets(ts.drop_last(), ind) + ind + "*(ptr + "@ + signed_decimal(o as int) + if f == 1 {
            ") += *ptr;\n"@
        } else {
            ") += *ptr * "@ + decimal(f as nat) + ";\n"@
        }
    }
}

/// The C text of one instruction at an indentation level.
pub open spec fn c_op_text(op: Instr, level: usize) -> Seq<char> {
    let ind = c_indent(level);
    match op {
        Instr::Add(n) => if n == 1 { ind + "(*ptr)++;\n"@ } else { ind + "*ptr += "@ + decimal(n as nat) + ";\n"@ },
        Instr::Sub(n) => if n == 1 { ind + "(*ptr)--;\n"@ } else { ind + "*ptr -= "@ + decimal(n as nat) + ";\n"@ },
        Instr::Right(n) => if n == 1 { ind + "ptr++;\n"@ } else { ind + "ptr += "@ + decimal(n as nat) + ";\n"@ },
        Instr::Left(n) => if n == 1 { ind + "ptr--;\n"@ } else { ind + "ptr -= "@ + decimal(n as nat) + ";\n"@ },
        Instr::Output => ind + "putchar(*ptr);\n"@,
        Instr::Input => ind + "*ptr = bf_getchar();\n"@,
        Instr::JumpIfZero(_) => ind + "while (*ptr) {\n"@,
        Instr::JumpIfNonZero(_) => c_indent(if level > 1 { (level - 1) as usize } else { level }) + "}\n"@,
        Instr::Clear => ind + "*ptr = 0;\n"@,
        Instr::MoveAdd(o) => ind + "*(ptr + "@ + signed_decimal(o as int) + ") += *ptr; *ptr = 0;\n"@,
        Instr::MoveSub(o) => ind + "*(ptr + "@ + signed_decimal(o as int) + ") -= *ptr; *ptr = 0;\n"@,
        Instr::Assign(n) => ind + "*ptr = "@ + decimal(n as nat) + ";\n"@,
        Instr::ScanRight => ind + "while (*ptr) ptr++;\n"@,
        Instr::ScanLeft => ind + "while (*ptr) ptr--;\n"@,
        Instr::MultiplyMove(ts) => c_targets(ts, ind) + ind + "*ptr = 0;\n"@,
    }
}

/// The indentation level after an instruction: one deeper after a loop opens,
/// one shallower (but not below one) after it closes.
pub open spec fn c_next_level(op: Instr, level: usize) -> usize {
    match op {
        Instr::JumpIfZero(_) => level.saturating_add(1),
        Instr::JumpIfNonZero(_) => if level > 1 { (level - 1) as usize } else { level },
        _ => level,
    }
}

/// The C statements of a sequence of instructions, and the final level.
pub open spec fn c_run(ops: Seq<Instr>) -> (Seq<char>, usize)
    decreases ops.len(),
{
    if ops.len() == 0 {
        (Seq::empty(), 1)
    } else {
        let (t, l) = c_run(ops.drop_last());
        (t + c_op_text(ops.last(), l), c_next_level(ops.last(), l))
    }
}

/// The whole C program for a sequence of instructions and a tape size.
pub open spec fn c_program(ops: Seq<Instr>, tape_size: usize) -> Seq<char> {
    c_prelude() + decimal(tape_size as nat) + c_tape_setup() + c_run(ops).0 + c_footer()
}

/// The instructions that `generate_c` compiles: the optimized parse, or nothing
/// when the source does not parse.
pub open spec fn c_source_ops(src: Seq<char>) -> Seq<Instr> {
    match parse_source(src) {
        Ok(p) => optimize_spec(p),
        Err(_) => Seq::empty(),
    }
}

fn push_indent(out: &mut Vec<char>, level: usize)
    ensures
        final(out)@ == old(out)@ + c_indent(level),
{
    let ghost start = out@;
    let mut k: usize = 0;
    while k < level
        invariant
            k <= level,
            out@ == start + repeat_char(' ', 4 * k as nat),
        decreases level - k,
    {
        push_repeat(out, ' ', 4);
        k += 1;
        assert(out@ =~= start + repeat_char(' ', 4 * k as nat));
    }
}

fn push_c_op(out: &mut Vec<char>, op: &Op, level: usize) -> (next: usize)
    ensures
        final(out)@ == old(out)@ + c_op_text(op@, level),
        next == c_next_level(op@, level),
{
    let ghost start = out@;
    match op {
        Op::JumpIfNonZero(_) => {
            let l = if level > 1 { level - 1 } else { level };
            push_indent(out, l);
            push_str(out, "}\n");
            assert(out@ =~= start + c_op_text(op@, level));
            return l;
        },
        _ => {},
    }
    push_indent(out, level);
    let ghost ind = c_indent(level);
    match op {
        Op::Add(n) => {
            if *n == 1 {
                push_str(out, "(*ptr)++;\n");
            } else {
                push_str(out, "*ptr += ");
                push_u64(out, *n as u64);
                push_str(out, ";\n");
            }
        },
        Op::Sub(n) => {
            if *n == 1 {
                push_str(out, "(*ptr)--;\n");
            } else {
                push_str(out, "*ptr -= ");
                push_u64(out, *n as u64);
                push_str(out, ";\n");
            }
        },
        Op::Right(n) => {
            if *n == 1 {
                push_str(out, "ptr++;\n");
            } else {
                push_str(out, "ptr += ");
                push_usize(out, *n);
                push_str(out, ";\n");
            }
        },
        Op::Left(n) => {
            if *n == 1 {
                push_str(out, "ptr--;\n");
            } else {
                push_str(out, "ptr -= ");
                push_usize(out, *n);
                push_str(out, ";\n");
            }
        },
        Op::Output => push_str(out, "putchar(*ptr);\n"),
        Op::Input => push_str(out, "*ptr = bf_getchar();\n"),
        Op::JumpIfZero(_) => {
            push_str(out, "while (*ptr) {\n");
            assert(out@ =~= start + c_op_text(op@, level));
            return level.saturating_add(1);
        },
        Op::JumpIfNonZero(_) => {},
        Op::Clear => push_str(out, "*ptr = 0;\n"),
        Op::MoveAdd(o) => {
            push_str(out, "*(ptr + ");
            push_isize(out, *o);
            push_str(out, ") += *ptr; *ptr = 0;\n");
        },
        Op::MoveSub(o) => {
            push_str(out, "*(ptr + ");
            push_isize(out, *o);
            push_str(out, ") -= *ptr; *ptr = 0;\n");
        },
        Op::Assign(n) => {
            push_str(out, "*ptr = ");
            push_u64(out, *n as u64);
            push_str(out, ";\n");
        },
        Op::ScanRight => push_str(out, "while (*ptr) ptr++;\n"),
        Op::ScanLeft => push_str(out, "while (*ptr) ptr--;\n"),
        Op::MultiplyMove(ts) => {
            // The indentation was written for the first statement.
            let ghost t0 = out@;
            let mut k: usize = 0;
            while k < ts.len()
                invariant
                    k <= ts@.len(),
                    k == 0 ==> out@ == start + ind,
                    k > 0 ==> out@ == start + c_targets(ts@.take(k as int), ind),
                    ind == c_indent(level),
                decreases ts@.len() - k,
            {
                if k > 0 {
                    push_indent(out, level);
                }
                let (o, f) = ts[k];
                push_str(out, "*(ptr + ");
                push_isize(out, o);
                if f == 1 {
                    push_str(out, ") += *ptr;\n");
                } else {
                    push_str(out, ") += *ptr * ");
                    push_u64(out, f as u64);
                    push_str(out, ";\n");
                }
                proof {
                    assert(ts@.take(k + 1).drop_last() =~= ts@.take(k as int));
                    assert(ts@.take(k + 1).last() == (o, f));
                }
                k += 1;
                assert(out@ =~= start + c_targets(ts@.take(k as int), ind)) by {
                    if k == 1 {
                        assert(c_targets(ts@.take(0), ind) =~= Seq::<char>::empty());
                    }
                }
            }
            proof {
                assert(ts@.take(k as int) =~= ts@);
            }
            if k > 0 {
                push_indent(out, level);
            }
            push_str(out, "*ptr = 0;\n");
            proof {
                if k == 0 {
                    assert(c_targets(ts@, ind) =~= Seq::<char>::empty());
                }
            }
        },
    }
    assert(out@ =~= start + c_op_text(op@, level));
    level
}

/// The C program for an IR program and a tape size.
pub fn generate_c_from_program(program: &Program, tape_size: usize) -> (s: String)
    ensures
        s@ == c_program(program@, tape_size),
{
    let mut out: Vec<char> = Vec::new();
    push_str(&mut out, "#include <stdio.h>\n#include <stdlib.h>\n#include <string.h>\n\nstatic char *arg_buf = NULL;\nstatic int arg_pos = 0;\nstatic int arg_len = 0;\n\nstatic int bf_getchar(void) {\n    if (arg_pos < arg_len) return (unsigned char)arg_buf[arg_pos++];\n    return getchar();\n}\n\nint main(int argc, char *argv[]) {\n    if (argc > 1) {\n        int total = 0;\n        for (int i = 1; i < argc; i++) total += strlen(argv[i]) + 1;\n        arg_buf = malloc(total + 1);\n        arg_buf[0] = '\\0';\n        for (int i = 1; i < argc; i++) {\n            if (i > 1) strcat(arg_buf, \" \");\n            strcat(arg_buf, argv[i]);\n        }\n        strcat(arg_buf, \"\\n\");\n        arg_len = strlen(arg_buf);\n    }\n    ");
    push_str(&mut out, "unsigned char array[");
    assert(out@ =~= c_prelude());
    push_usize(&mut out, tape_size);
    push_str(&mut out, "];\n    memset(array, 0, sizeof(array));\n    unsigned char *ptr = array;\n");
    let ghost head = out@;
    let ghost ops = program@;
    let mut level: usize = 1;
    let mut k: usize = 0;
    while k < program.ops.len()
        invariant
            ops == program@,
            ops.len() == program.ops@.len(),
            k <= ops.len(),
            out@ == head + c_run(ops.take(k as int)).0,
            level == c_run(ops.take(k as int)).1,
        decreases ops.len() - k,
    {
        proof {
            assert(ops.take(k + 1).drop_last() =~= ops.take(k as int));
            assert(ops[k as int] == program.ops@[k as int]@);
        }
        level = push_c_op(&mut out, &program.ops[k], level);
        k += 1;
    }
    push_str(&mut out, "    if (arg_buf) free(arg_buf);\n    return 0;\n}\n");
    proof {
        assert(ops.take(k as int) =~= ops);
        assert(out@ =~= c_program(program@, tape_size));
    }
    chars_to_string(&out)
}

/// The C program for brainfuck source, parsed and optimized, with the given tape
/// size; a source that does not parse gives a program with no statements.
pub fn generate_c_with_tape_size(bf_code: &str, tape_size: usize) -> (s: String)
    requires
        bf_code@.len() <= isize::MAX,
    ensures
        s@ == c_program(c_source_ops(bf_code@), tape_size),
{
    proof {
        lemma_parse_moves(bf_code@);
    }
    match Program::from_source(bf_code) {
        Ok(mut program) => {
            program.optimize();
            generate_c_from_program(&program, tape_size)
        },
        Err(_) => {
            let program = Program { ops: Vec::new() };
            assert(program@ =~= Seq::<Instr>::empty());
            generate_c_from_program(&program, tape_size)
        },
    }
}

/// The C program for brainfuck source with the default tape of 30000 cells.
pub fn generate_c(bf_code: &str) -> (s: String)
    requires
        bf_code@.len() <= isize::MAX,
    ensures
        s@ == c_program(c_source_ops(bf_code@), 30000),
{
    generate_c_with_tape_size(bf_code, 30_000)
}

/// Law: the C program declares a tape of exactly the size it was asked for.
pub proof fn law_c_declares_tape(ops: Seq<Instr>, tape_size: usize)
    ensures
        seq_contains(c_program(ops, tape_size), "unsigned char array["@ + decimal(tape_size as nat) + "]"@),
{
    reveal_strlit("unsigned char array[");
    reveal_strlit("]");
    reveal_strlit("];\n    memset(array, 0, sizeof(array));\n    unsigned char *ptr = array;\n");
    let p = c_program(ops, tape_size);
    let d = decimal(tape_size as nat);
    let want = "unsigned char array["@ + d + "]"@;
    let k = c_head().len() as int;
    assert(p =~= c_head() + (c_array_open() + d + c_tape_setup() + c_run(ops).0 + c_footer()));
    assert(p.subrange(k, k + want.len()) =~= want);
    assert(occurs_at(p, want, k));
}

// ---------------------------------------------------------------------------
// Lowering mirrors raising
// ---------------------------------------------------------------------------

/// A text with every `+` turned into `-`.
pub open spec fn minus_for_plus(t: Seq<char>) -> Seq<char> {
    t.map_values(|c: char| if c == '+' { '-' } else { c })
}

proof fn lemma_mfp_concat(a: Seq<char>, b: Seq<char>)
    ensures
        minus_for_plus(a + b) == minus_for_plus(a) + minus_for_plus(b),
{
    assert(minus_for_plus(a + b) =~= minus_for_plus(a) + minus_for_plus(b));
}

proof fn lemma_mfp_plain(t: Seq<char>)
    requires
        !t.contains('+'),
    ensures
        minus_for_plus(t) == t,
{
    assert forall|i: int| 0 <= i < t.len() implies minus_for_plus(t)[i] == t[i] by {
        assert(t[i] != '+');
    }
    assert(minus_for_plus(t) =~= t);
}

proof fn lemma_decimal_digits(n: nat)
    ensures
        !decimal(n).contains('+'),
        !decimal(n).contains('-'),
    decreases n,
{
    if n >= 10 {
        lemma_decimal_digits(n / 10);
        let d = decimal(n / 10);
        let c = digit_char(n % 10);
        assert(c != '+' && c != '-');
        assert forall|i: int| 0 <= i < d.push(c).len() implies d.push(c)[i] != '+' && d.push(c)[i] != '-' by {
            if i < d.len() {
                assert(d.push(c)[i] == d[i]);
            }
        }
    } else {
        assert(decimal(n) =~= seq![digit_char(n)]);
    }
}

proof fn lemma_indent_plain(level: usize)
    ensures
        !c_indent(level).contains('+'),
        !c_indent(level).contains('-'),
{
}

/// Whether a text holds `c` (at a position the proof can name).
proof fn lemma_concat_has(a: Seq<char>, b: Seq<char>, c: char)
    ensures
        (a + b).contains(c) == (a.contains(c) || b.contains(c)),
{
    if a.contains(c) {
        let k = choose|k: int| 0 <= k < a.len() && a[k] == c;
        assert((a + b)[k] == c);
    }
    if b.contains(c) {
        let k = choose|k: int| 0 <= k < b.len() && b[k] == c;
        assert((a + b)[a.len() + k] == c);
    }
    if (a + b).contains(c) {
        let k = choose|k: int| 0 <= k < (a + b).len() && (a + b)[k] == c;
        if k < a.len() {
            assert(a[k] == c);
        } else {
            assert(b[k - a.len()] == c);
        }
    }
}

/// Law: the C for `Sub(n)` is the C for `Add(n)` with its `+` turned into `-`
/// (`(*ptr)--;` for `(*ptr)++;`, `*ptr -= n;` for `*ptr += n;`), and the C for
/// `Left(n)` is that for `Right(n)` mirrored the same way: the generated code
/// lowers the cell, or moves the pointer left, by exactly the amount by which it
/// would raise it, or move it right. The raising texts hold a `+` and no `-`,
/// so the lowering ones hold a `-` and no `+`.
pub proof fn law_c_lowering_mirrors_raising(n: u8, m: usize, level: usize)
    ensures
        c_op_text(Instr::Sub(n), level) == minus_for_plus(c_op_text(Instr::Add(n), level)),
        c_op_text(Instr::Left(m), level) == minus_for_plus(c_op_text(Instr::Right(m), level)),
        c_op_text(Instr::Add(n), level).contains('+') && !c_op_text(Instr::Add(n), level).contains('-'),
        c_op_text(Instr::Right(m), level).contains('+') && !c_op_text(Instr::Right(m), level).contains('-'),
        c_op_text(Instr::Sub(n), level).contains('-') && !c_op_text(Instr::Sub(n), level).contains('+'),
        c_op_text(Instr::Left(m), level).contains('-') && !c_op_text(Instr::Left(m), level).contains('+'),
{
    reveal_strlit("(*ptr)++;\n");
    reveal_strlit("(*ptr)--;\n");
    reveal_strlit("*ptr += ");
    reveal_strlit("*ptr -= ");
    reveal_strlit("ptr++;\n");
    reveal_strlit("ptr--;\n");
    reveal_strlit("ptr += ");
    reveal_strlit("ptr -= ");
    reveal_strlit(";\n");
    let ind = c_indent(level);
    lemma_indent_plain(level);
    lemma_mfp_plain(ind);
    lemma_decimal_digits(n as nat);
    lemma_decimal_digits(m as nat);
    lemma_mfp_plain(decimal(n as nat));
    lemma_mfp_plain(decimal(m as nat));
    lemma_mfp_plain(";\n"@);
    assert(minus_for_plus("(*ptr)++;\n"@) =~= "(*ptr)--;\n"@);
    assert(minus_for_plus("*ptr += "@) =~= "*ptr -= "@);
    assert(minus_for_plus("ptr++;\n"@) =~= "ptr--;\n"@);
    assert(minus_for_plus("ptr += "@) =~= "ptr -= "@);
    lemma_mfp_concat(ind, "(*ptr)++;\n"@);
    lemma_mfp_concat(ind, "ptr++;\n"@);
    lemma_mfp_concat(ind + "*ptr += "@ + decimal(n as nat), ";\n"@);
    lemma_mfp_concat(ind + "*ptr += "@, decimal(n as nat));
    lemma_mfp_concat(ind, "*ptr += "@);
    lemma_mfp_concat(ind + "ptr += "@ + decimal(m as nat), ";\n"@);
    lemma_mfp_concat(ind + "ptr += "@, decimal(m as nat));
    lemma_mfp_concat(ind, "ptr += "@);
    let pp = "(*ptr)++;\n"@;
    let pm = "(*ptr)--;\n"@;
    let ap = "*ptr += "@;
    let am = "*ptr -= "@;
    let rp = "ptr++;\n"@;
    let rm = "ptr--;\n"@;
    let sp = "ptr += "@;
    let sm = "ptr -= "@;
    let semi = ";\n"@;
    assert(pp[6] == '+' && !pp.contains('-')) by {
        assert forall|i: int| 0 <= i < pp.len() implies pp[i] != '-' by {}
    }
    assert(pm[6] == '-' && !pm.contains('+')) by {
        assert forall|i: int| 0 <= i < pm.len() implies pm[i] != '+' by {}
    }
    assert(ap[5] == '+' && !ap.contains('-')) by {
        assert forall|i: int| 0 <= i < ap.len() implies ap[i] != '-' by {}
    }
    assert(am[5] == '-' && !am.contains('+')) by {
        assert forall|i: int| 0 <= i < am.len() implies am[i] != '+' by {}
    }
    assert(rp[3] == '+' && !rp.contains('-')) by {
        assert forall|i: int| 0 <= i < rp.len() implies rp[i] != '-' by {}
    }
    assert(rm[3] == '-' && !rm.contains('+')) by {
        assert forall|i: int| 0 <= i < rm.len() implies rm[i] != '+' by {}
    }
    assert(sp[4] == '+' && !sp.contains('-')) by {
        assert forall|i: int| 0 <= i < sp.len() implies sp[i] != '-' by {}
    }
    assert(sm[4] == '-' && !sm.contains('+')) by {
        assert forall|i: int| 0 <= i < sm.len() implies sm[i] != '+' by {}
    }
    assert(!semi.contains('+') && !semi.contains('-')) by {
        assert forall|i: int| 0 <= i < semi.len() implies semi[i] != '+' && semi[i] != '-' by {}
    }
    let dn = decimal(n as nat);
    let dm = decimal(m as nat);
    lemma_concat_has(ind, pp, '+');
    lemma_concat_has(ind, pp, '-');
    lemma_concat_has(ind, pm, '+');
    lemma_concat_has(ind, pm, '-');
    lemma_concat_has(ind, rp, '+');
    lemma_concat_has(ind, rp, '-');
    lemma_concat_has(ind, rm, '+');
    lemma_concat_has(ind, rm, '-');
    lemma_concat_has(ind, ap, '+');
    lemma_concat_has(ind, ap, '-');
    lemma_concat_has(ind + ap, dn, '+');
    lemma_concat_has(ind + ap, dn, '-');
    lemma_concat_has(ind + ap + dn, semi, '+');
    lemma_concat_has(ind + ap + dn, semi, '-');
    lemma_concat_has(ind, am, '+');
    lemma_concat_has(ind, am, '-');
    lemma_concat_has(ind + am, dn, '+');
    lemma_concat_has(ind + am, dn, '-');
    lemma_concat_has(ind + am + dn, semi, '+');
    lemma_concat_has(ind + am + dn, semi, '-');
    lemma_concat_has(ind, sp, '+');
    lemma_concat_has(ind, sp, '-');
    lemma_concat_has(ind + sp, dm, '+');
    lemma_concat_has(ind + sp, dm, '-');
    lemma_concat_has(ind + sp + dm, semi, '+');
    lemma_concat_has(ind + sp + dm, semi, '-');
    lemma_concat_has(ind, sm, '+');
    lemma_concat_has(ind, sm, '-');
    lemma_concat_has(ind + sm, dm, '+');
    lemma_concat_has(ind + sm, dm, '-');
    lemma_concat_has(ind + sm + dm, semi, '+');
    lemma_concat_has(ind + sm + dm, semi, '-');
}

/// Law: the C for `MoveSub(o)` is that for `MoveAdd(o)` with its `+= *ptr`
/// turned into `-= *ptr`: the same target, lowered by the current cell where
/// `MoveAdd` raises it, and the current cell emptied after.
pub proof fn law_c_move_sub_mirrors_move_add(o: isize, level: usize)
    ensures
        exists|p: Seq<char>, q: Seq<char>|
            #![trigger p + "+= *ptr"@ + q]
            c_op_text(Instr::MoveAdd(o), level) == p + "+= *ptr"@ + q && c_op_text(Instr::MoveSub(o), level) == p
                + "-= *ptr"@ + q,
{
    reveal_strlit(") += *ptr; *ptr = 0;\n");
    reveal_strlit(") -= *ptr; *ptr = 0;\n");
    reveal_strlit(") ");
    reveal_strlit("+= *ptr");
    reveal_strlit("-= *ptr");
    reveal_strlit("; *ptr = 0;\n");
    let p = c_indent(level) + "*(ptr + "@ + signed_decimal(o as int) + ") "@;
    let q = "; *ptr = 0;\n"@;
    assert(c_op_text(Instr::MoveAdd(o), level) =~= p + "+= *ptr"@ + q);
    assert(c_op_text(Instr::MoveSub(o), level) =~= p + "-= *ptr"@ + q);
}

/// Law: the C for `ScanLeft` is that for `ScanRight` with its `+` turned into
/// `-` (the same loop, stepping the pointer left where the other steps it
/// right; the right scan holds a `+` and no `-`), and `Assign(0)` prints just
/// as `Clear` does: both set the current cell to 0.
pub proof fn law_c_scans_mirror_and_clear_is_assign_zero(level: usize)
    ensures
        c_op_text(Instr::ScanLeft, level) == minus_for_plus(c_op_text(Instr::ScanRight, level)),
        c_op_text(Instr::ScanRight, level).contains('+') && !c_op_text(Instr::ScanRight, level).contains('-'),
        c_op_text(Instr::Assign(0), level) == c_op_text(Instr::Clear, level),
{
    reveal_strlit("while (*ptr) ptr++;\n");
    reveal_strlit("while (*ptr) ptr--;\n");
    reveal_strlit("*ptr = ");
    reveal_strlit(";\n");
    reveal_strlit("*ptr = 0;\n");
    let ind = c_indent(level);
    lemma_indent_plain(level);
    lemma_mfp_plain(ind);
    let rp = "while (*ptr) ptr++;\n"@;
    assert(minus_for_plus(rp) =~= "while (*ptr) ptr--;\n"@);
    lemma_mfp_concat(ind, rp);
    assert(rp[17] == '+' && !rp.contains('-')) by {
        assert forall|i: int| 0 <= i < rp.len() implies rp[i] != '-' by {}
    }
    lemma_concat_has(ind, rp, '+');
    lemma_concat_has(ind, rp, '-');
    assert(decimal(0) =~= seq!['0']);
    assert(ind + "*ptr = "@ + decimal(0) + ";\n"@ =~= ind + "*ptr = 0;\n"@);
}

} // verus!

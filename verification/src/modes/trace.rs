use vstd::prelude::*;

use super::interpreter::{fault_message, machine_done, op_desc, step_spec, Interpreter, Machine};
use crate::error::{error_message, OgreError};
use crate::text::{chars_to_string, decimal, push_repeat, push_str, push_u64, push_usize, repeat_char};

verus! {

/// `s` padded with spaces on the right to `w` characters (`{:<w}`).
pub open spec fn pad_right(s: Seq<char>, w: nat) -> Seq<char> {
    if s.len() >= w { s } else { s + repeat_char(' ', (w - s.len()) as nat) }
}

/// The fixed-width head of a trace line.
pub open spec fn trace_head(step: nat, op: Seq<char>, dp: nat, cell: nat) -> Seq<char> {
    "step="@ + pad_right(decimal(step), 6) + " op="@ + pad_right(op, 20) + " dp="@ + pad_right(decimal(dp), 5)
        + " cell["@ + decimal(dp) + "]="@ + pad_right(decimal(cell), 3)
}

/// A cell of the tape window; the current one is marked with `*`.
pub open spec fn cell_text(tape: Seq<u8>, center: nat, i: int) -> Seq<char> {
    if i == center { "*"@ + decimal(tape[i] as nat) } else { decimal(tape[i] as nat) }
}

/// The cells `start..k` of the window, separated by spaces.
pub open spec fn window_cells(tape: Seq<u8>, center: nat, start: int, k: int) -> Seq<char>
    decreases k - start,
{
    if k <= start {
        seq![]
    } else {
        window_cells(tape, center, start, k - 1) + (if k - 1 > start { " "@ } else { seq![] }) + cell_text(
            tape,
            center,
            k - 1,
        )
    }
}

/// The tape from four cells left of `center` to four cells right of it.
pub open spec fn tape_window(tape: Seq<u8>, center: nat) -> Seq<char> {
    let start: int = if center >= 4 { center - 4 } else { 0 };
    let end: int = if center + 5 <= tape.len() { center + 5int } else { tape.len() as int };
    "["@ + window_cells(tape, center, start, end) + "]"@
}

/// A full trace line: the head, then the tape window.
pub open spec fn trace_line_text(step: nat, op: Seq<char>, dp: nat, cell: nat, tape: Seq<u8>) -> Seq<char> {
    trace_head(step, op, dp, cell) + " | "@ + tape_window(tape, dp)
}

fn push_padded(out: &mut Vec<char>, v: &Vec<char>, w: usize)
    ensures
        final(out)@ == old(out)@ + pad_right(v@, w as nat),
{
    let mut k: usize = 0;
    while k < v.len()
        invariant
            k <= v@.len(),
            out@ == old(out)@ + v@.take(k as int),
        decreases v@.len() - k,
    {
        out.push(v[k]);
        k += 1;
        assert(out@ =~= old(out)@ + v@.take(k as int));
    }
    assert(v@.take(v@.len() as int) =~= v@);
    if v.len() < w {
        push_repeat(out, ' ', w - v.len());
    }
    assert(out@ =~= old(out)@ + pad_right(v@, w as nat));
}

fn digits_of(n: u64) -> (v: Vec<char>)
    ensures
        v@ == decimal(n as nat),
{
    let mut v: Vec<char> = Vec::new();
    push_u64(&mut v, n);
    assert(v@ =~= decimal(n as nat));
    v
}

fn push_head(out: &mut Vec<char>, step: u64, op: &str, dp: usize, cell_val: u8)
    ensures
        final(out)@ == old(out)@ + trace_head(step as nat, op@, dp as nat, cell_val as nat),
{
    let ghost start = out@;
    push_str(out, "step=");
    push_padded(out, &digits_of(step), 6);
    push_str(out, " op=");
    let opv = crate::text::str_to_chars(op);
    push_padded(out, &opv, 20);
    push_str(out, " dp=");
    push_padded(out, &digits_of(dp as u64), 5);
    push_str(out, " cell[");
    push_usize(out, dp);
    push_str(out, "]=");
    push_padded(out, &digits_of(cell_val as u64), 3);
    assert(out@ =~= start + trace_head(step as nat, op@, dp as nat, cell_val as nat));
}

/// Format the head of a trace line: step, op, data pointer and current cell.
pub fn format_trace_line(step: u64, op: &str, dp: usize, cell_val: u8) -> (s: String)
    ensures
        s@ == trace_head(step as nat, op@, dp as nat, cell_val as nat),
{
    let mut out: Vec<char> = Vec::new();
    push_head(&mut out, step, op, dp, cell_val);
    assert(out@ =~= trace_head(step as nat, op@, dp as nat, cell_val as nat));
    chars_to_string(&out)
}

/// A full trace line, with the tape window around `dp`.
pub fn trace_line(step: u64, op: &str, dp: usize, cell_val: u8, tape: &[u8]) -> (s: String)
    requires
        dp < tape@.len(),
    ensures
        s@ == trace_line_text(step as nat, op@, dp as nat, cell_val as nat, tape@),
{
    let mut out: Vec<char> = Vec::new();
    push_head(&mut out, step, op, dp, cell_val);
    push_str(&mut out, " | ");
    let ghost before = out@;
    let start: usize = if dp >= 4 { dp - 4 } else { 0 };
    let end: usize = if tape.len() - dp >= 5 { dp + 5 } else { tape.len() };
    out.push('[');
    let ghost open = out@;
    let mut i: usize = start;
    while i < end
        invariant
            start <= i <= end <= tape@.len(),
            start <= dp < tape@.len(),
            out@ == open + window_cells(tape@, dp as nat, start as int, i as int),
        decreases end - i,
    {
        let ghost prev = out@;
        if i > start {
            out.push(' ');
        }
        if i == dp {
            out.push('*');
        }
        push_u64(&mut out, tape[i] as u64);
        proof {
            reveal_strlit(" ");
            reveal_strlit("*");
            assert(out@ =~= open + window_cells(tape@, dp as nat, start as int, i + 1));
        }
        i += 1;
    }
    out.push(']');
    proof {
        reveal_strlit("[");
        reveal_strlit("]");
    }
    assert(out@ =~= trace_line_text(step as nat, op@, dp as nat, cell_val as nat, tape@));
    chars_to_string(&out)
}

/// The line a trace prints after the machine `m` executed an op described by
/// `desc` as step `step`.
pub open spec fn step_line(step: nat, desc: Seq<char>, m: Machine) -> Seq<char> {
    trace_line_text(step, desc, m.dp, m.tape[m.dp as int] as nat, m.tape)
}

/// One step of a trace: execute the current op, and when the number of steps
/// taken (`steps + 1`) is a multiple of `every_n` (of 1 when it is 0), give
/// the line to print.
pub fn trace_step(interp: &mut Interpreter, steps: u64, every_n: usize) -> (r: Result<Option<String>, OgreError>)
    requires
        old(interp).wf(),
        old(interp)@.count < u64::MAX,
        !machine_done(old(interp)@),
        steps < u64::MAX,
    ensures
        final(interp).wf(),
        final(interp).is_streaming() == old(interp).is_streaming(),
        final(interp).is_live() == old(interp).is_live(),
        final(interp).source() == old(interp).source(),
        final(interp)@ == step_spec(old(interp)@).0,
        match step_spec(old(interp)@).1 {
            Some(f) => r is Err && error_message(r->Err_0) == fault_message(f),
            None => r is Ok && match r->Ok_0 {
                Some(line) => (steps + 1) % (if every_n == 0 { 1 } else { every_n as int }) == 0 && line@ == step_line(
                    (steps + 1) as nat,
                    op_desc(old(interp)@.ops[old(interp)@.ip as int]),
                    final(interp)@,
                ),
                None => (steps + 1) % (if every_n == 0 { 1 } else { every_n as int }) != 0,
            },
        },
{
    let ip = interp.code_pointer();
    let desc = interp.op_description(ip);
    match interp.step() {
        Err(e) => return Err(e),
        Ok(_) => {},
    }
    let every: u64 = if every_n == 0 { 1 } else { every_n as u64 };
    let n = steps + 1;
    if n % every == 0 {
        proof {
            interp.lemma_wf_pointer();
        }
        let dp = interp.data_pointer();
        let cell_val = interp.tape_value(dp);
        Ok(Some(trace_line(n, desc.as_str(), dp, cell_val, interp.tape())))
    } else {
        Ok(None)
    }
}

} // verus!

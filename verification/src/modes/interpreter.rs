use vstd::prelude::*;

use super::ir::{Instr, Op, Program, parse_source, optimize_spec, lemma_parse_moves};
use super::ir::{
    cancel_changes, cancel_fix, cancel_once, lemma_cancel_once_len, lemma_line_cancel_once, lemma_line_optimize,
    lemma_parse_line, line_instr, clear_pass, scan_pass, assign_pass, line_prog, mb_state, merge_pair, move_amount, move_rewrite, multiply_body, opt_seq,
    parse_prefix, total_moves,
};
use vstd::wrapping::u8_specs::{wrapping_add, wrapping_mul, wrapping_sub};
use crate::error::{OgreError, error_message};
use crate::text::{chars_to_string, decimal, push_isize, push_str, push_u64, push_usize, signed_decimal, str_to_chars};
use vstd::string::StringSliceAdditionalSpecFns;

verus! {

pub const DEFAULT_TAPE_SIZE: usize = 30_000;

/// Why a step of the machine stopped the run.
pub enum Fault {
    /// The data pointer would pass the right end of the tape.
    PastRight,
    /// The data pointer would pass the left end of the tape.
    PastLeft,
    /// The instruction counter is exhausted.
    CounterExhausted,
}

/// The error a fault is reported as.
pub open spec fn fault_message(f: Fault) -> Seq<char> {
    match f {
        Fault::PastRight => "data pointer out of bounds (right)"@,
        Fault::PastLeft => "data pointer out of bounds (left)"@,
        Fault::CounterExhausted => "timeout: instruction limit of "@ + decimal(u64::MAX as nat) + " reached"@,
    }
}

/// The abstract state of the brainfuck machine.
#[verifier::ext_equal]
pub struct Machine {
    pub tape: Seq<u8>,
    pub dp: nat,
    pub ip: nat,
    pub ops: Seq<Instr>,
    pub output: Seq<u8>,
    pub input: Seq<u8>,
    pub input_ptr: nat,
    pub count: nat,
    pub touched: Seq<bool>,
}

/// The cell a step at `dp` with offset `o` reaches, if it is on the tape.
pub open spec fn offset_cell(dp: nat, o: int, len: nat) -> Option<nat> {
    if 0 <= dp + o < len { Some((dp + o) as nat) } else { None }
}

pub open spec fn offset_fault(o: int) -> Fault {
    if o > 0 { Fault::PastRight } else { Fault::PastLeft }
}

/// Where `[>]` stops: the first zero cell at or right of `dp`.
pub open spec fn scan_right_end(tape: Seq<u8>, dp: nat) -> Option<nat>
    decreases tape.len() - dp,
{
    if dp >= tape.len() {
        None
    } else if tape[dp as int] == 0 {
        Some(dp)
    } else if dp + 1 >= tape.len() {
        None
    } else {
        scan_right_end(tape, dp + 1)
    }
}

/// Where `[<]` stops: the first zero cell at or left of `dp`.
pub open spec fn scan_left_end(tape: Seq<u8>, dp: nat) -> Option<nat>
    decreases dp,
{
    if dp >= tape.len() {
        None
    } else if tape[dp as int] == 0 {
        Some(dp)
    } else if dp == 0 {
        None
    } else {
        scan_left_end(tape, (dp - 1) as nat)
    }
}

/// The fault of the first multiply-move target that lies off the tape, if any.
pub open spec fn targets_fault(dp: nat, len: nat, ts: Seq<(isize, u8)>) -> Option<Fault>
    decreases ts.len(),
{
    if ts.len() == 0 {
        None
    } else {
        match targets_fault(dp, len, ts.drop_last()) {
            Some(f) => Some(f),
            None => match offset_cell(dp, ts.last().0 as int, len) {
                None => Some(offset_fault(ts.last().0 as int)),
                Some(_) => None,
            },
        }
    }
}

/// Add `v * factor` to each target cell in turn.
pub open spec fn apply_targets(tape: Seq<u8>, touched: Seq<bool>, dp: nat, v: u8, ts: Seq<(isize, u8)>) -> (Seq<u8>, Seq<bool>)
    decreases ts.len(),
{
    if ts.len() == 0 {
        (tape, touched)
    } else {
        let (t2, h2) = apply_targets(tape, touched, dp, v, ts.drop_last());
        let (o, f) = ts.last();
        match offset_cell(dp, o as int, t2.len()) {
            None => (t2, h2),
            Some(c) => (
                t2.update(c as int, vstd::wrapping::u8_specs::wrapping_add(t2[c as int], vstd::wrapping::u8_specs::wrapping_mul(v, f))),
                h2.update(c as int, true),
            ),
        }
    }
}

/// Where a taken jump to `t` continues: just past `t` (an index past every
/// program that fits in memory stays there).
pub open spec fn jump_to(t: usize) -> nat {
    if t < usize::MAX { (t + 1) as nat } else { usize::MAX as nat }
}

/// The machine after one instruction, or the fault that stops it. The counter
/// counts the attempt either way.
pub open spec fn step_spec(m: Machine) -> (Machine, Option<Fault>) {
    let m1 = Machine { count: m.count + 1, ..m };
    let cur = m.tape[m.dp as int];
    let next = m.ip + 1;
    match m.ops[m.ip as int] {
        Instr::Add(n) => (Machine {
            tape: m.tape.update(m.dp as int, vstd::wrapping::u8_specs::wrapping_add(cur, n)),
            touched: m.touched.update(m.dp as int, true),
            ip: next,
            ..m1
        }, None),
        Instr::Sub(n) => (Machine {
            tape: m.tape.update(m.dp as int, vstd::wrapping::u8_specs::wrapping_sub(cur, n)),
            touched: m.touched.update(m.dp as int, true),
            ip: next,
            ..m1
        }, None),
        Instr::Right(n) => if m.dp + n >= m.tape.len() {
            (m1, Some(Fault::PastRight))
        } else {
            (Machine { dp: (m.dp + n) as nat, ip: next, ..m1 }, None)
        },
        Instr::Left(n) => if m.dp < n {
            (m1, Some(Fault::PastLeft))
        } else {
            (Machine { dp: (m.dp - n) as nat, ip: next, ..m1 }, None)
        },
        Instr::Output => (Machine { output: m.output.push(cur), ip: next, ..m1 }, None),
        Instr::Input => {
            let b: u8 = if m.input_ptr < m.input.len() { m.input[m.input_ptr as int] } else { 0 };
            let ptr = if m.input_ptr < m.input.len() { m.input_ptr + 1 } else { m.input_ptr };
            (Machine {
                tape: m.tape.update(m.dp as int, b),
                touched: m.touched.update(m.dp as int, true),
                input_ptr: ptr,
                ip: next,
                ..m1
            }, None)
        },
        Instr::JumpIfZero(t) => (Machine { ip: if cur == 0 { jump_to(t) } else { next }, ..m1 }, None),
        Instr::JumpIfNonZero(t) => (Machine { ip: if cur != 0 { jump_to(t) } else { next }, ..m1 }, None),
        Instr::Clear => (Machine {
            tape: m.tape.update(m.dp as int, 0),
            touched: m.touched.update(m.dp as int, true),
            ip: next,
            ..m1
        }, None),
        Instr::Assign(n) => (Machine {
            tape: m.tape.update(m.dp as int, n),
            touched: m.touched.update(m.dp as int, true),
            ip: next,
            ..m1
        }, None),
        Instr::MoveAdd(o) => if cur == 0 {
            (Machine { ip: next, ..m1 }, None)
        } else {
            match offset_cell(m.dp, o as int, m.tape.len()) {
                None => (m1, Some(offset_fault(o as int))),
                Some(c) => {
                    let t2 = m.tape.update(c as int, vstd::wrapping::u8_specs::wrapping_add(m.tape[c as int], cur));
                    (Machine {
                        tape: t2.update(m.dp as int, 0),
                        touched: m.touched.update(c as int, true).update(m.dp as int, true),
                        ip: next,
                        ..m1
                    }, None)
                },
            }
        },
        Instr::MoveSub(o) => if cur == 0 {
            (Machine { ip: next, ..m1 }, None)
        } else {
            match offset_cell(m.dp, o as int, m.tape.len()) {
                None => (m1, Some(offset_fault(o as int))),
                Some(c) => {
                    let t2 = m.tape.update(c as int, vstd::wrapping::u8_specs::wrapping_sub(m.tape[c as int], cur));
                    (Machine {
                        tape: t2.update(m.dp as int, 0),
                        touched: m.touched.update(c as int, true).update(m.dp as int, true),
                        ip: next,
                        ..m1
                    }, None)
                },
            }
        },
        Instr::ScanRight => match scan_right_end(m.tape, m.dp) {
            None => (m1, Some(Fault::PastRight)),
            Some(d) => (Machine { dp: d, ip: next, ..m1 }, None),
        },
        Instr::ScanLeft => match scan_left_end(m.tape, m.dp) {
            None => (m1, Some(Fault::PastLeft)),
            Some(d) => (Machine { dp: d, ip: next, ..m1 }, None),
        },
        Instr::MultiplyMove(ts) => if cur == 0 {
            (Machine { ip: next, ..m1 }, None)
        } else {
            match targets_fault(m.dp, m.tape.len(), ts) {
                Some(f) => (m1, Some(f)),
                None => {
                    let (t2, h2) = apply_targets(m.tape, m.touched, m.dp, cur, ts);
                    (Machine {
                        tape: t2.update(m.dp as int, 0),
                        touched: h2.update(m.dp as int, true),
                        ip: next,
                        ..m1
                    }, None)
                },
            }
        },
    }
}

pub open spec fn machine_done(m: Machine) -> bool {
    m.ip >= m.ops.len()
}

/// Run to the end or to the first fault.
pub open spec fn run_spec(m: Machine) -> (Machine, Option<Fault>)
    decreases u64::MAX - m.count,
{
    if machine_done(m) {
        (m, None)
    } else if m.count >= u64::MAX {
        (m, Some(Fault::CounterExhausted))
    } else {
        let (m2, f) = step_spec(m);
        if f is Some {
            (m2, f)
        } else {
            run_spec(m2)
        }
    }
}

/// Run until the end, a fault, or `max` counted instructions: the final machine,
/// the fault if any, and whether the program ran to its end.
pub open spec fn run_limit_spec(m: Machine, max: nat) -> (Machine, Option<Fault>, bool)
    decreases max - m.count,
{
    if machine_done(m) {
        (m, None, true)
    } else if m.count >= max {
        (m, None, false)
    } else {
        let (m2, f) = step_spec(m);
        if f is Some {
            (m2, f, false)
        } else {
            run_limit_spec(m2, max)
        }
    }
}

/// The number of `true` entries.
pub open spec fn count_true(s: Seq<bool>) -> nat
    decreases s.len(),
{
    if s.len() == 0 {
        0
    } else {
        count_true(s.drop_last()) + if s.last() { 1nat } else { 0nat }
    }
}

/// What `String::from_utf8_lossy` makes of a byte sequence.
pub uninterp spec fn utf8_lossy(b: Seq<u8>) -> Seq<char>;

/// std's `String::from_utf8_lossy`. Claimed: the result is a function of the
/// bytes alone, and bytes that are all ASCII come out as the same characters.
#[verifier::external_body]
fn bytes_to_string_lossy(b: &[u8]) -> (s: String)
    ensures
        s@ == utf8_lossy(b@),
        (forall|i: int| 0 <= i < b@.len() ==> b@[i] < 128) ==> s@ == b@.map_values(|x: u8| x as char),
{
    String::from_utf8_lossy(b).into_owned()
}

/// A tape of `n` zero cells.
fn zeroed(n: usize) -> (v: Vec<u8>)
    ensures
        v@ == Seq::new(n as nat, |i: int| 0u8),
{
    let mut v: Vec<u8> = Vec::new();
    while v.len() < n
        invariant
            v.len() <= n,
            v@ == Seq::new(v.len() as nat, |i: int| 0u8),
        decreases n - v.len(),
    {
        v.push(0);
    }
    v
}

fn untouched(n: usize) -> (v: Vec<bool>)
    ensures
        v@ == Seq::new(n as nat, |i: int| false),
{
    let mut v: Vec<bool> = Vec::new();
    while v.len() < n
        invariant
            v.len() <= n,
            v@ == Seq::new(v.len() as nat, |i: int| false),
        decreases n - v.len(),
    {
        v.push(false);
    }
    v
}

fn str_bytes(s: &str) -> (v: Vec<u8>)
    ensures
        v@ == s.spec_bytes(),
{
    let b = s.as_bytes();
    let mut v: Vec<u8> = Vec::new();
    let mut i: usize = 0;
    while i < b.len()
        invariant
            i <= b@.len(),
            b@ == s.spec_bytes(),
            v@ == b@.take(i as int),
        decreases b.len() - i,
    {
        v.push(b[i]);
        i += 1;
        assert(v@ =~= b@.take(i as int));
    }
    assert(b@.take(b@.len() as int) =~= b@);
    v
}

pub struct Interpreter {
    tape: Vec<u8>,
    data_ptr: usize,
    program: Program,
    ip: usize,
    output: Vec<u8>,
    input: Vec<u8>,
    input_ptr: usize,
    /// When true, `,` reads from real stdin after the input buffer is exhausted.
    live_stdin: bool,
    /// When true, output is meant to reach stdout as soon as it is produced.
    streaming: bool,
    /// Total instructions executed (for bench mode).
    pub instruction_count: u64,
    /// Track which cells have been touched.
    cells_touched: Vec<bool>,
    /// Original source chars for display purposes (debugger/REPL).
    source_chars: Vec<char>,
}

impl View for Interpreter {
    type V = Machine;

    closed spec fn view(&self) -> Machine {
        Machine {
            tape: self.tape@,
            dp: self.data_ptr as nat,
            ip: self.ip as nat,
            ops: self.program@,
            output: self.output@,
            input: self.input@,
            input_ptr: self.input_ptr as nat,
            count: self.instruction_count as nat,
            touched: self.cells_touched@,
        }
    }
}

/// The machine a fresh interpreter starts from.
pub open spec fn fresh_machine(ops: Seq<Instr>, input: Seq<u8>, tape_size: nat) -> Machine {
    Machine {
        tape: Seq::new(tape_size, |i: int| 0u8),
        dp: 0,
        ip: 0,
        ops,
        output: Seq::empty(),
        input,
        input_ptr: 0,
        count: 0,
        touched: Seq::new(tape_size, |i: int| false),
    }
}

impl Interpreter {
    /// The interpreter's state is consistent: the pointer is on the tape, every
    /// cell has a touched flag, and the input pointer is within the input.
    pub closed spec fn wf(&self) -> bool {
        &&& self.tape@.len() > 0
        &&& self.data_ptr < self.tape@.len()
        &&& self.cells_touched@.len() == self.tape@.len()
        &&& self.input_ptr <= self.input@.len()
    }

    /// A well-formed interpreter has a non-empty tape and its data pointer on it.
    pub proof fn lemma_wf_pointer(&self)
        requires
            self.wf(),
        ensures
            self@.tape.len() > 0,
            self@.dp < self@.tape.len(),
            self@.touched.len() == self@.tape.len(),
    {
    }

    pub closed spec fn is_live(&self) -> bool {
        self.live_stdin
    }

    pub closed spec fn is_streaming(&self) -> bool {
        self.streaming
    }

    pub closed spec fn source(&self) -> Seq<char> {
        self.source_chars@
    }

    fn build(source: &str, program: Program, input: Vec<u8>, tape_size: usize, live: bool) -> (r: Self)
        ensures
            tape_size > 0 ==> r.wf(),
            r@ == fresh_machine(program@, input@, tape_size as nat),
            r.is_live() == live,
            !r.is_streaming(),
            r.source() == source@,
    {
        Interpreter {
            tape: zeroed(tape_size),
            data_ptr: 0,
            program,
            ip: 0,
            output: Vec::new(),
            input,
            input_ptr: 0,
            live_stdin: live,
            streaming: false,
            instruction_count: 0,
            cells_touched: untouched(tape_size),
            source_chars: str_to_chars(source),
        }
    }

    pub fn new(source: &str) -> (r: Result<Self, OgreError>)
        ensures
            match r {
                Ok(it) => it.wf() && parse_source(source@) is Ok
                    && it@ == fresh_machine(parse_source(source@)->Ok_0, Seq::empty(), DEFAULT_TAPE_SIZE as nat)
                    && !it.is_live() && !it.is_streaming() && it.source() == source@,
                Err(e) => parse_source(source@) == Err::<Seq<Instr>, OgreError>(e),
            },
    {
        Self::with_tape_size(source, DEFAULT_TAPE_SIZE)
    }

    pub fn with_tape_size(source: &str, tape_size: usize) -> (r: Result<Self, OgreError>)
        ensures
            match r {
                Ok(it) => (tape_size > 0 ==> it.wf()) && parse_source(source@) is Ok
                    && it@ == fresh_machine(parse_source(source@)->Ok_0, Seq::empty(), tape_size as nat)
                    && !it.is_live() && !it.is_streaming() && it.source() == source@,
                Err(e) => parse_source(source@) == Err::<Seq<Instr>, OgreError>(e),
            },
    {
        let program = Program::from_source(source)?;
        Ok(Self::build(source, program, Vec::new(), tape_size, false))
    }

    /// An interpreter whose `,` falls back to standard input once its input is used
    /// up; the program's driver answers `needs_input` with `push_input`.
    pub fn with_live_stdin(source: &str) -> (r: Result<Self, OgreError>)
        ensures
            match r {
                Ok(it) => it.wf() && parse_source(source@) is Ok
                    && it@ == fresh_machine(parse_source(source@)->Ok_0, Seq::empty(), DEFAULT_TAPE_SIZE as nat)
                    && it.is_live() && !it.is_streaming() && it.source() == source@,
                Err(e) => parse_source(source@) == Err::<Seq<Instr>, OgreError>(e),
            },
    {
        Self::with_live_stdin_and_tape_size(source, DEFAULT_TAPE_SIZE)
    }

    pub fn with_live_stdin_and_tape_size(source: &str, tape_size: usize) -> (r: Result<Self, OgreError>)
        ensures
            match r {
                Ok(it) => (tape_size > 0 ==> it.wf()) && parse_source(source@) is Ok
                    && it@ == fresh_machine(parse_source(source@)->Ok_0, Seq::empty(), tape_size as nat)
                    && it.is_live() && !it.is_streaming() && it.source() == source@,
                Err(e) => parse_source(source@) == Err::<Seq<Instr>, OgreError>(e),
            },
    {
        let program = Program::from_source(source)?;
        Ok(Self::build(source, program, Vec::new(), tape_size, true))
    }

    pub fn with_input(source: &str, input: &str) -> (r: Result<Self, OgreError>)
        ensures
            match r {
                Ok(it) => it.wf() && parse_source(source@) is Ok
                    && it@ == fresh_machine(parse_source(source@)->Ok_0, input.spec_bytes(), DEFAULT_TAPE_SIZE as nat)
                    && !it.is_live() && !it.is_streaming() && it.source() == source@,
                Err(e) => parse_source(source@) == Err::<Seq<Instr>, OgreError>(e),
            },
    {
        Self::with_input_and_tape_size(source, input, DEFAULT_TAPE_SIZE)
    }

    pub fn with_input_and_tape_size(source: &str, input: &str, tape_size: usize) -> (r: Result<Self, OgreError>)
        ensures
            match r {
                Ok(it) => (tape_size > 0 ==> it.wf()) && parse_source(source@) is Ok
                    && it@ == fresh_machine(parse_source(source@)->Ok_0, input.spec_bytes(), tape_size as nat)
                    && !it.is_live() && !it.is_streaming() && it.source() == source@,
                Err(e) => parse_source(source@) == Err::<Seq<Instr>, OgreError>(e),
            },
    {
        let program = Program::from_source(source)?;
        Ok(Self::build(source, program, str_bytes(input), tape_size, false))
    }

    /// Create an interpreter with an optimized program.
    pub fn new_optimized(source: &str) -> (r: Result<Self, OgreError>)
        requires
            source@.len() <= isize::MAX,
        ensures
            match r {
                Ok(it) => it.wf() && parse_source(source@) is Ok
                    && it@ == fresh_machine(optimize_spec(parse_source(source@)->Ok_0), Seq::empty(), DEFAULT_TAPE_SIZE as nat)
                    && !it.is_live() && !it.is_streaming() && it.source() == source@,
                Err(e) => parse_source(source@) == Err::<Seq<Instr>, OgreError>(e),
            },
    {
        let mut program = Program::from_source(source)?;
        proof {
            lemma_parse_moves(source@);
        }
        program.optimize();
        Ok(Self::build(source, program, Vec::new(), DEFAULT_TAPE_SIZE, false))
    }

    pub fn new_optimized_with_input(source: &str, input: &str) -> (r: Result<Self, OgreError>)
        requires
            source@.len() <= isize::MAX,
        ensures
            match r {
                Ok(it) => it.wf() && parse_source(source@) is Ok
                    && it@ == fresh_machine(optimize_spec(parse_source(source@)->Ok_0), input.spec_bytes(), DEFAULT_TAPE_SIZE as nat)
                    && !it.is_live() && !it.is_streaming() && it.source() == source@,
                Err(e) => parse_source(source@) == Err::<Seq<Instr>, OgreError>(e),
            },
    {
        let mut program = Program::from_source(source)?;
        proof {
            lemma_parse_moves(source@);
        }
        program.optimize();
        Ok(Self::build(source, program, str_bytes(input), DEFAULT_TAPE_SIZE, false))
    }

    pub fn set_streaming(&mut self, streaming: bool)
        ensures
            final(self)@ == old(self)@,
            final(self).is_streaming() == streaming,
            final(self).is_live() == old(self).is_live(),
            final(self).source() == old(self).source(),
            final(self).wf() == old(self).wf(),
    {
        self.streaming = streaming;
    }

    /// Let `,` fall back to standard input once the input given is used up:
    /// the program's driver then answers `needs_input` with `push_input`.
    pub fn set_live_stdin_fallback(&mut self)
        ensures
            final(self)@ == old(self)@,
            final(self).is_live(),
            final(self).is_streaming() == old(self).is_streaming(),
            final(self).source() == old(self).source(),
            final(self).wf() == old(self).wf(),
    {
        self.live_stdin = true;
    }

    /// Whether output is meant to reach stdout as soon as it is produced.
    pub fn streaming(&self) -> (r: bool)
        ensures
            r == self.is_streaming(),
    {
        self.streaming
    }

    /// Whether the next instruction reads input that the buffer no longer holds
    /// while standard input is live: the driver then reads a byte and pushes it.
    pub fn needs_input(&self) -> (r: bool)
        ensures
            r == (self.is_live() && !machine_done(self@) && self@.ops[self@.ip as int] == Instr::Input
                && self@.input_ptr >= self@.input.len()),
    {
        self.live_stdin && self.ip < self.program.ops.len() && match &self.program.ops[self.ip] {
            Op::Input => true,
            _ => false,
        } && self.input_ptr >= self.input.len()
    }

    /// Append a byte that standard input delivered to the input buffer.
    pub fn push_input(&mut self, byte: u8)
        ensures
            final(self)@ == (Machine { input: old(self)@.input.push(byte), ..old(self)@ }),
            final(self).is_streaming() == old(self).is_streaming(),
            final(self).is_live() == old(self).is_live(),
            final(self).source() == old(self).source(),
            old(self).wf() ==> final(self).wf(),
    {
        self.input.push(byte);
    }

    // ---- Accessors ----

    pub fn tape_value(&self, addr: usize) -> (v: u8)
        requires
            addr < self@.tape.len(),
        ensures
            v == self@.tape[addr as int],
    {
        self.tape[addr]
    }

    pub fn data_pointer(&self) -> (p: usize)
        ensures
            p == self@.dp,
    {
        self.data_ptr
    }

    pub fn code_pointer(&self) -> (p: usize)
        ensures
            p == self@.ip,
    {
        self.ip
    }

    pub fn set_code_pointer(&mut self, val: usize)
        ensures
            final(self)@ == (Machine { ip: val as nat, ..old(self)@ }),
            final(self).is_streaming() == old(self).is_streaming(),
            final(self).is_live() == old(self).is_live(),
            final(self).source() == old(self).source(),
            old(self).wf() ==> final(self).wf(),
    {
        self.ip = val;
    }

    /// Number of ops in the program.
    pub fn code_len(&self) -> (n: usize)
        ensures
            n == self@.ops.len(),
    {
        self.program.ops.len()
    }

    /// Get the underlying program.
    pub fn program(&self) -> (p: &Program)
        ensures
            p@ == self@.ops,
    {
        &self.program
    }

    pub fn output(&self) -> (o: &[u8])
        ensures
            o@ == self@.output,
    {
        self.output.as_slice()
    }

    pub fn clear_output(&mut self)
        ensures
            final(self)@ == (Machine { output: Seq::empty(), ..old(self)@ }),
            final(self).is_streaming() == old(self).is_streaming(),
            final(self).is_live() == old(self).is_live(),
            final(self).source() == old(self).source(),
            old(self).wf() ==> final(self).wf(),
    {
        self.output.clear();
    }

    /// The number of instructions executed so far.
    pub fn instructions(&self) -> (n: u64)
        ensures
            n as nat == self@.count,
    {
        self.instruction_count
    }

    pub fn tape(&self) -> (t: &[u8])
        ensures
            t@ == self@.tape,
    {
        self.tape.as_slice()
    }

    pub fn is_done(&self) -> (r: bool)
        ensures
            r == machine_done(self@),
    {
        self.ip >= self.program.ops.len()
    }

    /// Count of unique cells that have been written to.
    pub fn cells_touched_count(&self) -> (n: usize)
        ensures
            n == count_true(self@.touched),
    {
        let mut n: usize = 0;
        let mut i: usize = 0;
        while i < self.cells_touched.len()
            invariant
                i <= self.cells_touched.len(),
                n == count_true(self.cells_touched@.take(i as int)),
                n <= i,
            decreases self.cells_touched.len() - i,
        {
            proof {
                assert(self.cells_touched@.take(i + 1).drop_last() =~= self.cells_touched@.take(i as int));
            }
            if self.cells_touched[i] {
                n += 1;
            }
            i += 1;
        }
        proof {
            assert(self.cells_touched@.take(i as int) =~= self.cells_touched@);
        }
        n
    }

    pub fn output_as_string(&self) -> (s: String)
        ensures
            s@ == utf8_lossy(self@.output),
            (forall|i: int| 0 <= i < self@.output.len() ==> self@.output[i] < 128) ==> s@
                == self@.output.map_values(|x: u8| x as char),
    {
        bytes_to_string_lossy(self.output.as_slice())
    }

    /// Returns a window of cells around `center`: (address, value, is_current_ptr)
    pub fn peek_window(&self, center: usize, radius: usize) -> (w: Vec<(usize, u8, bool)>)
        requires
            center + radius + 1 <= usize::MAX,
        ensures
            ({
                let start = if center >= radius { center - radius } else { 0 };
                let end = if center + radius + 1 <= self@.tape.len() { center + radius + 1 } else { self@.tape.len() as int };
                &&& w@.len() == if end > start { end - start } else { 0 }
                &&& forall|k: int| 0 <= k < w@.len() ==> #[trigger] w@[k] == (
                    (start + k) as usize,
                    self@.tape[start + k],
                    start + k == self@.dp,
                )
            }),
    {
        let start = if center >= radius { center - radius } else { 0 };
        let end = if center + radius + 1 <= self.tape.len() { center + radius + 1 } else { self.tape.len() };
        let mut w: Vec<(usize, u8, bool)> = Vec::new();
        let mut i = start;
        while i < end
            invariant
                start <= end ==> start <= i <= end,
                start > end ==> i == start,
                end <= self.tape@.len(),
                w@.len() == i - start,
                forall|k: int| 0 <= k < w@.len() ==> #[trigger] w@[k] == (
                    (start + k) as usize,
                    self@.tape[start + k],
                    start + k == self@.dp,
                ),
            decreases end - i,
        {
            w.push((i, self.tape[i], i == self.data_ptr));
            i += 1;
        }
        assert(w@.len() == if end > start { end - start } else { 0 });
        w
    }
}


fn scan_right_pos(tape: &Vec<u8>, dp: usize) -> (r: Option<usize>)
    requires
        dp < tape@.len(),
    ensures
        match r {
            Some(d) => scan_right_end(tape@, dp as nat) == Some(d as nat) && d < tape@.len(),
            None => scan_right_end(tape@, dp as nat) is None,
        },
{
    let mut d = dp;
    while tape[d] != 0
        invariant
            d < tape@.len(),
            scan_right_end(tape@, d as nat) == scan_right_end(tape@, dp as nat),
        decreases tape@.len() - d,
    {
        if d >= tape.len() - 1 {
            return None;
        }
        d = d + 1;
    }
    Some(d)
}

fn scan_left_pos(tape: &Vec<u8>, dp: usize) -> (r: Option<usize>)
    requires
        dp < tape@.len(),
    ensures
        match r {
            Some(d) => scan_left_end(tape@, dp as nat) == Some(d as nat) && d < tape@.len(),
            None => scan_left_end(tape@, dp as nat) is None,
        },
{
    let mut d = dp;
    while tape[d] != 0
        invariant
            d < tape@.len(),
            scan_left_end(tape@, d as nat) == scan_left_end(tape@, dp as nat),
        decreases d,
    {
        if d == 0 {
            return None;
        }
        d = d - 1;
    }
    Some(d)
}

fn first_bad_target(dp: usize, len: usize, ts: &Vec<(isize, u8)>) -> (r: Option<Fault>)
    requires
        dp < len,
    ensures
        r == targets_fault(dp as nat, len as nat, ts@),
{
    let mut j: usize = 0;
    proof {
        assert(ts@.take(0) =~= Seq::<(isize, u8)>::empty());
    }
    while j < ts.len()
        invariant
            j <= ts@.len(),
            dp < len,
            targets_fault(dp as nat, len as nat, ts@.take(j as int)) is None,
        decreases ts.len() - j,
    {
        proof {
            assert(ts@.take(j + 1).drop_last() =~= ts@.take(j as int));
        }
        let o = ts[j].0;
        if offset_target(dp, o, len).is_none() {
            proof {
                lemma_targets_fault_stays(dp as nat, len as nat, ts@, j + 1);
            }
            return Some(if o > 0 { Fault::PastRight } else { Fault::PastLeft });
        }
        j += 1;
    }
    proof {
        assert(ts@.take(ts@.len() as int) =~= ts@);
    }
    None
}

proof fn lemma_targets_fault_stays(dp: nat, len: nat, ts: Seq<(isize, u8)>, k: int)
    requires
        0 < k <= ts.len(),
        targets_fault(dp, len, ts.take(k - 1)) is None,
        offset_cell(dp, ts[k - 1].0 as int, len) is None,
    ensures
        targets_fault(dp, len, ts) == Some(offset_fault(ts[k - 1].0 as int)),
    decreases ts.len() - k,
{
    assert(ts.take(k).drop_last() =~= ts.take(k - 1));
    if k < ts.len() {
        assert(ts.drop_last().take(k) =~= ts.take(k));
        assert(ts.drop_last().take(k - 1) =~= ts.take(k - 1));
        lemma_targets_fault_stays(dp, len, ts.drop_last(), k);
    } else {
        assert(ts.take(k) =~= ts);
    }
}

proof fn lemma_targets_fault_prefix(dp: nat, len: nat, ts: Seq<(isize, u8)>, k: int)
    requires
        0 <= k <= ts.len(),
        targets_fault(dp, len, ts) is None,
    ensures
        targets_fault(dp, len, ts.take(k)) is None,
    decreases ts.len() - k,
{
    if k < ts.len() {
        lemma_targets_fault_prefix(dp, len, ts, k + 1);
        assert(ts.take(k + 1).drop_last() =~= ts.take(k));
    } else {
        assert(ts.take(k) =~= ts);
    }
}

/// A step keeps the tape's length and the program, and counts one more
/// instruction.
pub proof fn lemma_step_shape(m: Machine)
    requires
        m.ip < m.ops.len(),
        m.dp < m.tape.len(),
        m.touched.len() == m.tape.len(),
    ensures
        step_spec(m).0.tape.len() == m.tape.len(),
        step_spec(m).0.ops == m.ops,
        step_spec(m).0.count == m.count + 1,
{
    match m.ops[m.ip as int] {
        Instr::MultiplyMove(ts) => {
            lemma_apply_targets_len(m.tape, m.touched, m.dp, m.tape[m.dp as int], ts);
        },
        _ => {},
    }
}

proof fn lemma_apply_targets_len(tape: Seq<u8>, touched: Seq<bool>, dp: nat, v: u8, ts: Seq<(isize, u8)>)
    requires
        tape.len() == touched.len(),
    ensures
        apply_targets(tape, touched, dp, v, ts).0.len() == tape.len(),
        apply_targets(tape, touched, dp, v, ts).1.len() == tape.len(),
    decreases ts.len(),
{
    if ts.len() > 0 {
        lemma_apply_targets_len(tape, touched, dp, v, ts.drop_last());
    }
}

/// The cell at offset `o` from `dp`, if it is on a tape of `len` cells.
fn offset_target(dp: usize, o: isize, len: usize) -> (r: Option<usize>)
    requires
        dp < len,
    ensures
        r == match offset_cell(dp as nat, o as int, len as nat) {
            Some(c) => Some(c as usize),
            None => None::<usize>,
        },
{
    if o >= 0 {
        let ou = o as usize;
        if ou < len - dp { Some(dp + ou) } else { None }
    } else {
        let a: usize = if o == isize::MIN { (isize::MAX as usize) + 1 } else { (-o) as usize };
        if a <= dp { Some(dp - a) } else { None }
    }
}

fn fault_to_error(f: &Fault) -> (e: OgreError)
    ensures
        error_message(e) == fault_message(*f),
{
    match f {
        Fault::PastRight => {
            let e = OgreError::TapeOverflow(String::from_str("right"));
            proof {
                reveal_strlit("right");
                reveal_strlit("data pointer out of bounds (");
                reveal_strlit(")");
                reveal_strlit("data pointer out of bounds (right)");
                assert(error_message(e) =~= fault_message(*f));
            }
            e
        },
        Fault::PastLeft => {
            let e = OgreError::TapeOverflow(String::from_str("left"));
            proof {
                reveal_strlit("left");
                reveal_strlit("data pointer out of bounds (");
                reveal_strlit(")");
                reveal_strlit("data pointer out of bounds (left)");
                assert(error_message(e) =~= fault_message(*f));
            }
            e
        },
        Fault::CounterExhausted => OgreError::Timeout(u64::MAX),
    }
}

impl Interpreter {
    fn step_cell(&mut self) -> (f: Option<Fault>)
        requires
            old(self).wf(),
            !machine_done(old(self)@),
            old(self)@.count < u64::MAX,
            !(old(self)@.ops[old(self)@.ip as int] is MoveAdd || old(self)@.ops[old(self)@.ip as int] is MoveSub || old(self)@.ops[old(self)@.ip as int] is ScanRight || old(self)@.ops[old(self)@.ip as int] is ScanLeft || old(self)@.ops[old(self)@.ip as int] is MultiplyMove),
        ensures
            final(self).wf(),
            final(self).is_streaming() == old(self).is_streaming(),
            final(self).is_live() == old(self).is_live(),
            final(self).source() == old(self).source(),
            final(self)@ == step_spec(old(self)@).0,
            f == step_spec(old(self)@).1,
    {
        let ghost m = self@;
        let n_ops = self.program.ops.len();
        assert(self.ip < n_ops);
        self.instruction_count += 1;
        let dp = self.data_ptr;
        let len = self.tape.len();
        let cur = self.tape[dp];
        let ip = self.ip;
        match &self.program.ops[ip] {
            Op::Add(n) => {
                self.tape.set(dp, cur.wrapping_add(*n));
                self.cells_touched.set(dp, true);
                self.ip = ip + 1;
            },
            Op::Sub(n) => {
                self.tape.set(dp, cur.wrapping_sub(*n));
                self.cells_touched.set(dp, true);
                self.ip = ip + 1;
            },
            Op::Right(n) => {
                if *n >= len - dp {
                    proof { assert(self@ =~= step_spec(m).0); }
                    return Some(Fault::PastRight);
                }
                self.data_ptr = dp + *n;
                self.ip = ip + 1;
            },
            Op::Left(n) => {
                if dp < *n {
                    proof { assert(self@ =~= step_spec(m).0); }
                    return Some(Fault::PastLeft);
                }
                self.data_ptr = dp - *n;
                self.ip = ip + 1;
            },
            Op::Output => {
                self.output.push(cur);
                self.ip = ip + 1;
            },
            Op::Input => {
                if self.input_ptr < self.input.len() {
                    let b = self.input[self.input_ptr];
                    self.tape.set(dp, b);
                    self.input_ptr = self.input_ptr + 1;
                } else {
                    self.tape.set(dp, 0);
                }
                self.cells_touched.set(dp, true);
                self.ip = ip + 1;
            },
            Op::JumpIfZero(t) => {
                if cur == 0 {
                    self.ip = if *t < usize::MAX { *t + 1 } else { usize::MAX };
                } else {
                    self.ip = ip + 1;
                }
            },
            Op::JumpIfNonZero(t) => {
                if cur != 0 {
                    self.ip = if *t < usize::MAX { *t + 1 } else { usize::MAX };
                } else {
                    self.ip = ip + 1;
                }
            },
            Op::Clear => {
                self.tape.set(dp, 0);
                self.cells_touched.set(dp, true);
                self.ip = ip + 1;
            },
            Op::Assign(n) => {
                self.tape.set(dp, *n);
                self.cells_touched.set(dp, true);
                self.ip = ip + 1;
            },
            _ => {},
        }
        proof { assert(self@ =~= step_spec(m).0); }
        None
    }

    fn step_move(&mut self) -> (f: Option<Fault>)
        requires
            old(self).wf(),
            !machine_done(old(self)@),
            old(self)@.count < u64::MAX,
            old(self)@.ops[old(self)@.ip as int] is MoveAdd || old(self)@.ops[old(self)@.ip as int] is MoveSub,
        ensures
            final(self).wf(),
            final(self).is_streaming() == old(self).is_streaming(),
            final(self).is_live() == old(self).is_live(),
            final(self).source() == old(self).source(),
            final(self)@ == step_spec(old(self)@).0,
            f == step_spec(old(self)@).1,
    {
        let ghost m = self@;
        let n_ops = self.program.ops.len();
        assert(self.ip < n_ops);
        self.instruction_count += 1;
        let dp = self.data_ptr;
        let len = self.tape.len();
        let cur = self.tape[dp];
        let ip = self.ip;
        let (o, add) = match &self.program.ops[ip] {
            Op::MoveAdd(o) => (*o, true),
            Op::MoveSub(o) => (*o, false),
            _ => (0, true),
        };
        if cur == 0 {
            self.ip = ip + 1;
            proof { assert(self@ =~= step_spec(m).0); }
            return None;
        }
        match offset_target(dp, o, len) {
            None => {
                proof { assert(self@ =~= step_spec(m).0); }
                Some(if o > 0 { Fault::PastRight } else { Fault::PastLeft })
            },
            Some(c) => {
                let old_c = self.tape[c];
                if add {
                    self.tape.set(c, old_c.wrapping_add(cur));
                } else {
                    self.tape.set(c, old_c.wrapping_sub(cur));
                }
                self.tape.set(dp, 0);
                self.cells_touched.set(c, true);
                self.cells_touched.set(dp, true);
                self.ip = ip + 1;
                proof { assert(self@ =~= step_spec(m).0); }
                None
            },
        }
    }

    fn step_scan(&mut self) -> (f: Option<Fault>)
        requires
            old(self).wf(),
            !machine_done(old(self)@),
            old(self)@.count < u64::MAX,
            old(self)@.ops[old(self)@.ip as int] is ScanRight || old(self)@.ops[old(self)@.ip as int] is ScanLeft,
        ensures
            final(self).wf(),
            final(self).is_streaming() == old(self).is_streaming(),
            final(self).is_live() == old(self).is_live(),
            final(self).source() == old(self).source(),
            final(self)@ == step_spec(old(self)@).0,
            f == step_spec(old(self)@).1,
    {
        let ghost m = self@;
        let n_ops = self.program.ops.len();
        assert(self.ip < n_ops);
        self.instruction_count += 1;
        let dp = self.data_ptr;
        let ip = self.ip;
        let right = match &self.program.ops[ip] {
            Op::ScanRight => true,
            _ => false,
        };
        let pos = if right { scan_right_pos(&self.tape, dp) } else { scan_left_pos(&self.tape, dp) };
        match pos {
            Some(d) => {
                self.data_ptr = d;
                self.ip = ip + 1;
                proof { assert(self@ =~= step_spec(m).0); }
                None
            },
            None => {
                proof { assert(self@ =~= step_spec(m).0); }
                Some(if right { Fault::PastRight } else { Fault::PastLeft })
            },
        }
    }

    fn step_multiply(&mut self) -> (f: Option<Fault>)
        requires
            old(self).wf(),
            !machine_done(old(self)@),
            old(self)@.count < u64::MAX,
            old(self)@.ops[old(self)@.ip as int] is MultiplyMove,
        ensures
            final(self).wf(),
            final(self).is_streaming() == old(self).is_streaming(),
            final(self).is_live() == old(self).is_live(),
            final(self).source() == old(self).source(),
            final(self)@ == step_spec(old(self)@).0,
            f == step_spec(old(self)@).1,
    {
        let ghost m = self@;
        let n_ops = self.program.ops.len();
        assert(self.ip < n_ops);
        self.instruction_count += 1;
        let dp = self.data_ptr;
        let len = self.tape.len();
        let cur = self.tape[dp];
        let ip = self.ip;
        if cur == 0 {
            self.ip = ip + 1;
            proof { assert(self@ =~= step_spec(m).0); }
            return None;
        }
        let ts: &Vec<(isize, u8)> = match &self.program.ops[ip] {
            Op::MultiplyMove(ts) => ts,
            _ => {
                proof { assert(false); }
                return None;
            },
        };
        let bad = first_bad_target(dp, len, ts);
        if bad.is_some() {
            proof { assert(self@ =~= step_spec(m).0); }
            return bad;
        }
        let mut tape = self.tape.clone();
        let mut touched = self.cells_touched.clone();
        let mut j: usize = 0;
        proof {
            assert(ts@.take(0) =~= Seq::<(isize, u8)>::empty());
        }
        while j < ts.len()
            invariant
                j <= ts@.len(),
                dp < len,
                len == tape@.len(),
                len == touched@.len(),
                targets_fault(dp as nat, len as nat, ts@) is None,
                (tape@, touched@) == apply_targets(m.tape, m.touched, dp as nat, cur, ts@.take(j as int)),
            decreases ts.len() - j,
        {
            proof {
                assert(ts@.take(j + 1).drop_last() =~= ts@.take(j as int));
            }
            let (o, f) = ts[j];
            match offset_target(dp, o, len) {
                Some(c) => {
                    let old_c = tape[c];
                    tape.set(c, old_c.wrapping_add(cur.wrapping_mul(f)));
                    touched.set(c, true);
                },
                None => {},
            }
            j += 1;
        }
        proof {
            assert(ts@.take(ts@.len() as int) =~= ts@);
        }
        tape.set(dp, 0);
        touched.set(dp, true);
        self.tape = tape;
        self.cells_touched = touched;
        self.ip = ip + 1;
        proof { assert(self@ =~= step_spec(m).0); }
        None
    }

    /// Execute one IR instruction.
    /// Returns `Ok(true)` if there are more instructions, `Ok(false)` if done.
    pub fn step(&mut self) -> (r: Result<bool, OgreError>)
        requires
            old(self).wf(),
            old(self)@.count < u64::MAX,
        ensures
            final(self).wf(),
            final(self).is_streaming() == old(self).is_streaming(),
            final(self).is_live() == old(self).is_live(),
            final(self).source() == old(self).source(),
            machine_done(old(self)@) ==> r == Ok::<bool, OgreError>(false) && final(self)@ == old(self)@,
            !machine_done(old(self)@) ==> final(self)@ == step_spec(old(self)@).0 && match step_spec(old(self)@).1 {
                None => r == Ok::<bool, OgreError>(!machine_done(final(self)@)),
                Some(f) => r is Err && error_message(r->Err_0) == fault_message(f),
            },
    {
        if self.ip >= self.program.ops.len() {
            return Ok(false);
        }
        let kind: u8 = match &self.program.ops[self.ip] {
            Op::MoveAdd(_) | Op::MoveSub(_) => 1,
            Op::ScanRight | Op::ScanLeft => 2,
            Op::MultiplyMove(_) => 3,
            _ => 0,
        };
        let fault = if kind == 1 {
            self.step_move()
        } else if kind == 2 {
            self.step_scan()
        } else if kind == 3 {
            self.step_multiply()
        } else {
            self.step_cell()
        };
        match fault {
            Some(f) => Err(fault_to_error(&f)),
            None => Ok(self.ip < self.program.ops.len()),
        }
    }
}


/// The character the debugger shows for an instruction.
pub open spec fn op_char(op: Instr) -> char {
    match op {
        Instr::Add(_) => '+',
        Instr::Sub(_) => '-',
        Instr::Right(_) => '>',
        Instr::Left(_) => '<',
        Instr::Output => '.',
        Instr::Input => ',',
        Instr::JumpIfZero(_) => '[',
        Instr::JumpIfNonZero(_) => ']',
        Instr::Clear => '0',
        Instr::Assign(_) => '=',
        Instr::MoveAdd(_) => 'a',
        Instr::MoveSub(_) => 's',
        Instr::ScanRight => ')',
        Instr::ScanLeft => '(',
        Instr::MultiplyMove(_) => '*',
    }
}

/// `[(o1, f1), (o2, f2), ...]` for the targets of a multiply-move.
pub open spec fn targets_desc(ts: Seq<(isize, u8)>) -> Seq<char>
    decreases ts.len(),
{
    if ts.len() == 0 {
        Seq::empty()
    } else {
        targets_desc(ts.drop_last()) + (if ts.len() > 1 { ", "@ } else { Seq::empty() }) + "("@
            + signed_decimal(ts.last().0 as int) + ", "@ + decimal(ts.last().1 as nat) + ")"@
    }
}

/// The name the debugger shows for an instruction, such as `Add(3)`.
pub open spec fn op_desc(op: Instr) -> Seq<char> {
    match op {
        Instr::Add(n) => "Add("@ + decimal(n as nat) + ")"@,
        Instr::Sub(n) => "Sub("@ + decimal(n as nat) + ")"@,
        Instr::Right(n) => "Right("@ + decimal(n as nat) + ")"@,
        Instr::Left(n) => "Left("@ + decimal(n as nat) + ")"@,
        Instr::Output => "Output"@,
        Instr::Input => "Input"@,
        Instr::JumpIfZero(t) => "JumpIfZero("@ + decimal(t as nat) + ")"@,
        Instr::JumpIfNonZero(t) => "JumpIfNonZero("@ + decimal(t as nat) + ")"@,
        Instr::Clear => "Clear"@,
        Instr::Assign(n) => "Assign("@ + decimal(n as nat) + ")"@,
        Instr::MoveAdd(o) => "MoveAdd("@ + signed_decimal(o as int) + ")"@,
        Instr::MoveSub(o) => "MoveSub("@ + signed_decimal(o as int) + ")"@,
        Instr::ScanRight => "ScanRight"@,
        Instr::ScanLeft => "ScanLeft"@,
        Instr::MultiplyMove(ts) => "MultiplyMove(["@ + targets_desc(ts) + "])"@,
    }
}

/// Append the name of an op.
pub fn push_op_desc(out: &mut Vec<char>, op: &Op)
    ensures
        final(out)@ == old(out)@ + op_desc(op@),
{
    let ghost start = out@;
    match op {
        Op::Add(n) => { push_str(out, "Add("); push_u64(out, *n as u64); push_str(out, ")"); },
        Op::Sub(n) => { push_str(out, "Sub("); push_u64(out, *n as u64); push_str(out, ")"); },
        Op::Right(n) => { push_str(out, "Right("); push_usize(out, *n); push_str(out, ")"); },
        Op::Left(n) => { push_str(out, "Left("); push_usize(out, *n); push_str(out, ")"); },
        Op::Output => push_str(out, "Output"),
        Op::Input => push_str(out, "Input"),
        Op::JumpIfZero(t) => { push_str(out, "JumpIfZero("); push_usize(out, *t); push_str(out, ")"); },
        Op::JumpIfNonZero(t) => { push_str(out, "JumpIfNonZero("); push_usize(out, *t); push_str(out, ")"); },
        Op::Clear => push_str(out, "Clear"),
        Op::Assign(n) => { push_str(out, "Assign("); push_u64(out, *n as u64); push_str(out, ")"); },
        Op::MoveAdd(o) => { push_str(out, "MoveAdd("); push_isize(out, *o); push_str(out, ")"); },
        Op::MoveSub(o) => { push_str(out, "MoveSub("); push_isize(out, *o); push_str(out, ")"); },
        Op::ScanRight => push_str(out, "ScanRight"),
        Op::ScanLeft => push_str(out, "ScanLeft"),
        Op::MultiplyMove(ts) => {
            push_str(out, "MultiplyMove([");
            let ghost mid = out@;
            let mut j: usize = 0;
            while j < ts.len()
                invariant
                    j <= ts.len(),
                    out@ == mid + targets_desc(ts@.take(j as int)),
                decreases ts.len() - j,
            {
                proof {
                    assert(ts@.take(j + 1).drop_last() =~= ts@.take(j as int));
                }
                if j > 0 {
                    push_str(out, ", ");
                }
                push_str(out, "(");
                push_isize(out, ts[j].0);
                push_str(out, ", ");
                push_u64(out, ts[j].1 as u64);
                push_str(out, ")");
                j += 1;
                proof {
                    let k = j as int;
                    assert(ts@.take(k).len() == k);
                    assert(out@ =~= mid + targets_desc(ts@.take(k)));
                }
            }
            assert(ts@.take(ts@.len() as int) =~= ts@);
            push_str(out, "])");
        },
    }
    proof {
        assert(out@ =~= start + op_desc(op@));
    }
}

impl Interpreter {
    /// Get a display character for the op at the given index.
    /// Used by debugger for showing instruction context.
    pub fn code_char(&self, idx: usize) -> (c: char)
        requires
            idx < self@.ops.len(),
        ensures
            c == op_char(self@.ops[idx as int]),
    {
        match &self.program.ops[idx] {
            Op::Add(_) => '+',
            Op::Sub(_) => '-',
            Op::Right(_) => '>',
            Op::Left(_) => '<',
            Op::Output => '.',
            Op::Input => ',',
            Op::JumpIfZero(_) => '[',
            Op::JumpIfNonZero(_) => ']',
            Op::Clear => '0',
            Op::Assign(_) => '=',
            Op::MoveAdd(_) => 'a',
            Op::MoveSub(_) => 's',
            Op::ScanRight => ')',
            Op::ScanLeft => '(',
            Op::MultiplyMove(_) => '*',
        }
    }

    /// Get a descriptive string for the op at the given index (`END` past the end).
    pub fn op_description(&self, idx: usize) -> (s: String)
        ensures
            s@ == if idx < self@.ops.len() { op_desc(self@.ops[idx as int]) } else { "END"@ },
    {
        let mut v: Vec<char> = Vec::new();
        if idx >= self.program.ops.len() {
            push_str(&mut v, "END");
        } else {
            push_op_desc(&mut v, &self.program.ops[idx]);
        }
        proof {
            assert(v@ =~= if idx < self@.ops.len() { op_desc(self@.ops[idx as int]) } else { "END"@ });
        }
        chars_to_string(&v)
    }

    pub fn run(&mut self) -> (r: Result<(), OgreError>)
        requires
            old(self).wf(),
        ensures
            final(self).wf(),
            final(self).is_streaming() == old(self).is_streaming(),
            final(self).is_live() == old(self).is_live(),
            final(self).source() == old(self).source(),
            final(self)@ == run_spec(old(self)@).0,
            final(self)@.tape.len() == old(self)@.tape.len(),
            match run_spec(old(self)@).1 {
                None => r is Ok,
                Some(f) => r is Err && error_message(r->Err_0) == fault_message(f),
            },
    {
        loop
            invariant
                self.wf(),
                self.is_streaming() == old(self).is_streaming(),
                self.is_live() == old(self).is_live(),
                self.source() == old(self).source(),
                run_spec(self@) == run_spec(old(self)@),
                self@.tape.len() == old(self)@.tape.len(),
            decreases u64::MAX - self.instruction_count,
        {
            if self.ip >= self.program.ops.len() {
                return Ok(());
            }
            if self.instruction_count == u64::MAX {
                return Err(fault_to_error(&Fault::CounterExhausted));
            }
            proof {
                self.lemma_wf_pointer();
                lemma_step_shape(self@);
            }
            match self.step() {
                Err(e) => return Err(e),
                Ok(_) => {},
            }
        }
    }

    /// Run with an instruction limit. Returns Ok(true) if completed,
    /// Ok(false) if the limit was reached.
    pub fn run_with_limit(&mut self, max_instructions: u64) -> (r: Result<bool, OgreError>)
        requires
            old(self).wf(),
        ensures
            final(self).wf(),
            final(self).is_streaming() == old(self).is_streaming(),
            final(self).is_live() == old(self).is_live(),
            final(self).source() == old(self).source(),
            final(self)@ == run_limit_spec(old(self)@, max_instructions as nat).0,
            match run_limit_spec(old(self)@, max_instructions as nat).1 {
                None => r == Ok::<bool, OgreError>(run_limit_spec(old(self)@, max_instructions as nat).2),
                Some(f) => r is Err && error_message(r->Err_0) == fault_message(f),
            },
    {
        loop
            invariant
                self.wf(),
                self.is_streaming() == old(self).is_streaming(),
                self.is_live() == old(self).is_live(),
                self.source() == old(self).source(),
                run_limit_spec(self@, max_instructions as nat) == run_limit_spec(old(self)@, max_instructions as nat),
            decreases u64::MAX - self.instruction_count,
        {
            if self.ip >= self.program.ops.len() {
                return Ok(true);
            }
            if self.instruction_count >= max_instructions {
                return Ok(false);
            }
            match self.step() {
                Err(e) => return Err(e),
                Ok(_) => {},
            }
        }
    }

    /// Feed new code into the interpreter, appending to existing program.
    /// Used by the REPL to add code incrementally: the program is rebuilt from
    /// all the source fed so far, and the machine state is kept.
    pub fn feed(&mut self, source: &str) -> (r: Result<(), OgreError>)
        requires
            old(self).wf(),
        ensures
            final(self).wf(),
            final(self).is_streaming() == old(self).is_streaming(),
            final(self).is_live() == old(self).is_live(),
            final(self).source() == old(self).source() + source@,
            match parse_source(old(self).source() + source@) {
                Ok(ops) => r is Ok && final(self)@ == (Machine { ops, ..old(self)@ }),
                Err(e) => r == Err::<(), OgreError>(e) && final(self)@ == old(self)@,
            },
    {
        let extra = str_to_chars(source);
        let mut i: usize = 0;
        let ghost start = self.source_chars@;
        while i < extra.len()
            invariant
                i <= extra.len(),
                self.source_chars@ == start + extra@.take(i as int),
                self.wf(),
                self.is_streaming() == old(self).is_streaming(),
                self.is_live() == old(self).is_live(),
                self@ == old(self)@,
                start == old(self).source(),
            decreases extra.len() - i,
        {
            self.source_chars.push(extra[i]);
            i += 1;
            proof {
                assert(self.source_chars@ =~= start + extra@.take(i as int));
            }
        }
        proof {
            assert(extra@.take(extra@.len() as int) =~= extra@);
        }
        let full = chars_to_string(&self.source_chars);
        let program = Program::from_source(full.as_str())?;
        self.program = program;
        Ok(())
    }
}

// ---------------------------------------------------------------------------
// Optimizing a program without loops
// ---------------------------------------------------------------------------

/// The data of a machine that a program without loops works on: the tape, the
/// data pointer, the output and how much input it has read.
pub struct LineState {
    pub tape: Seq<u8>,
    pub dp: nat,
    pub output: Seq<u8>,
    pub input_ptr: nat,
}

pub open spec fn state_of(m: Machine) -> LineState {
    LineState { tape: m.tape, dp: m.dp, output: m.output, input_ptr: m.input_ptr }
}

/// One op of a program without loops, or `None` where it leaves the tape.
pub open spec fn line_step(s: LineState, input: Seq<u8>, x: Instr) -> Option<LineState> {
    let cur = s.tape[s.dp as int];
    match x {
        Instr::Add(n) => Some(LineState { tape: s.tape.update(s.dp as int, wrapping_add(cur, n)), ..s }),
        Instr::Sub(n) => Some(LineState { tape: s.tape.update(s.dp as int, wrapping_sub(cur, n)), ..s }),
        Instr::Right(n) => if s.dp + n >= s.tape.len() { None } else { Some(LineState { dp: (s.dp + n) as nat, ..s }) },
        Instr::Left(n) => if s.dp < n { None } else { Some(LineState { dp: (s.dp - n) as nat, ..s }) },
        Instr::Output => Some(LineState { output: s.output.push(cur), ..s }),
        Instr::Input => {
            let b: u8 = if s.input_ptr < input.len() { input[s.input_ptr as int] } else { 0 };
            let ptr = if s.input_ptr < input.len() { s.input_ptr + 1 } else { s.input_ptr };
            Some(LineState { tape: s.tape.update(s.dp as int, b), input_ptr: ptr, ..s })
        },
        _ => None,
    }
}

/// A program without loops run from `s`, or `None` where it leaves the tape.
pub open spec fn line_exec(ops: Seq<Instr>, input: Seq<u8>, s: LineState) -> Option<LineState>
    decreases ops.len(),
{
    if ops.len() == 0 {
        Some(s)
    } else {
        match line_step(s, input, ops[0]) {
            None => None,
            Some(s2) => line_exec(ops.skip(1), input, s2),
        }
    }
}

proof fn lemma_line_step_dp(s: LineState, input: Seq<u8>, x: Instr)
    requires
        s.dp < s.tape.len(),
    ensures
        line_step(s, input, x) matches Some(s2) ==> s2.dp < s2.tape.len() && s2.tape.len() == s.tape.len(),
{
}

proof fn lemma_run_line_prog(m: Machine)
    requires
        line_prog(m.ops),
        m.ip <= m.ops.len(),
        m.dp < m.tape.len(),
        m.count + (m.ops.len() - m.ip) <= u64::MAX,
    ensures
        (run_spec(m).1 is None) == (line_exec(m.ops.skip(m.ip as int), m.input, state_of(m)) is Some),
        run_spec(m).1 is None ==> state_of(run_spec(m).0) == line_exec(m.ops.skip(m.ip as int), m.input, state_of(m))->Some_0
            && run_spec(m).0.count == m.count + (m.ops.len() - m.ip),
    decreases m.ops.len() - m.ip,
{
    let rest = m.ops.skip(m.ip as int);
    if m.ip == m.ops.len() {
        assert(rest =~= Seq::<Instr>::empty());
    } else {
        let x = m.ops[m.ip as int];
        assert(line_instr(x));
        assert(rest[0] == x);
        assert(rest.skip(1) =~= m.ops.skip(m.ip + 1int));
        let (m2, f) = step_spec(m);
        if f is None {
            assert(state_of(m2) == line_step(state_of(m), m.input, x)->Some_0);
            lemma_run_line_prog(m2);
        }
    }
}

proof fn lemma_merge_step(s: LineState, input: Seq<u8>, a: Instr, b: Instr)
    requires
        line_instr(a),
        line_instr(b),
        merge_pair(a, b) is Some,
        s.dp < s.tape.len(),
        s.tape.len() <= usize::MAX,
        line_step(s, input, a) is Some,
        line_step(line_step(s, input, a)->Some_0, input, b) is Some,
    ensures
        ({
            let t = line_step(line_step(s, input, a)->Some_0, input, b)->Some_0;
            match merge_pair(a, b)->Some_0 {
                Some(x) => line_step(s, input, x) == Some(t),
                None => t == s,
            }
        }),
{
    let t = line_step(line_step(s, input, a)->Some_0, input, b)->Some_0;
    let v = s.tape[s.dp as int];
    if merge_pair(a, b)->Some_0 is None {
        assert(t.tape =~= s.tape);
    } else {
        let x = merge_pair(a, b)->Some_0->Some_0;
        assert(line_step(s, input, x)->Some_0.tape =~= t.tape);
    }
}

proof fn lemma_exec_head(x: Instr, r: Seq<Instr>, input: Seq<u8>, s: LineState)
    ensures
        line_exec(seq![x] + r, input, s) == match line_step(s, input, x) {
            None => None,
            Some(s2) => line_exec(r, input, s2),
        },
{
    assert((seq![x] + r).skip(1) =~= r);
}

proof fn lemma_cancel_once_exec(ops: Seq<Instr>, input: Seq<u8>, s: LineState)
    requires
        line_prog(ops),
        s.dp < s.tape.len(),
        s.tape.len() <= usize::MAX,
        line_exec(ops, input, s) is Some,
    ensures
        line_exec(cancel_once(ops), input, s) == line_exec(ops, input, s),
    decreases ops.len(),
{
    if ops.len() >= 2 {
        let a = ops[0];
        let b = ops[1];
        assert(line_instr(a) && line_instr(b));
        assert(ops.skip(1)[0] == b);
        assert(ops.skip(1).skip(1) =~= ops.skip(2));
        let s1 = line_step(s, input, a)->Some_0;
        lemma_line_step_dp(s, input, a);
        assert(line_exec(ops, input, s) == line_exec(ops.skip(1), input, s1));
        assert(line_exec(ops.skip(1), input, s1) == match line_step(s1, input, b) {
            None => None,
            Some(s2) => line_exec(ops.skip(1).skip(1), input, s2),
        });
        assert forall|i: int| 0 <= i < ops.skip(1).len() implies line_instr(#[trigger] ops.skip(1)[i]) by {
            assert(ops.skip(1)[i] == ops[i + 1]);
        }
        assert forall|i: int| 0 <= i < ops.skip(2).len() implies line_instr(#[trigger] ops.skip(2)[i]) by {
            assert(ops.skip(2)[i] == ops[i + 2]);
        }
        match merge_pair(a, b) {
            Some(m) => {
                let s2 = line_step(s1, input, b)->Some_0;
                lemma_line_step_dp(s1, input, b);
                lemma_merge_step(s, input, a, b);
                lemma_cancel_once_exec(ops.skip(2), input, s2);
                match m {
                    Some(x) => {
                        lemma_exec_head(x, cancel_once(ops.skip(2)), input, s);
                    },
                    None => {
                        assert(opt_seq(m) + cancel_once(ops.skip(2)) =~= cancel_once(ops.skip(2)));
                    },
                }
            },
            None => {
                lemma_cancel_once_exec(ops.skip(1), input, s1);
                lemma_exec_head(a, cancel_once(ops.skip(1)), input, s);
            },
        }
    }
}

proof fn lemma_cancel_fix_exec(ops: Seq<Instr>, input: Seq<u8>, s: LineState)
    requires
        line_prog(ops),
        s.dp < s.tape.len(),
        s.tape.len() <= usize::MAX,
        line_exec(ops, input, s) is Some,
    ensures
        line_exec(cancel_fix(ops), input, s) == line_exec(ops, input, s),
        cancel_fix(ops).len() <= ops.len(),
    decreases ops.len(),
{
    if cancel_changes(ops) {
        lemma_cancel_once_len(ops);
        lemma_line_cancel_once(ops);
        lemma_cancel_once_exec(ops, input, s);
        lemma_cancel_fix_exec(cancel_once(ops), input, s);
    }
}

/// Law: for a program without loops that runs on a fresh tape without a fault,
/// the optimized program runs without a fault too, prints the same output,
/// leaves the same tape and counts no more instructions.
pub proof fn law_optimize_keeps_output_without_loops(src: Seq<char>, input: Seq<u8>, tape_size: nat)
    requires
        !src.contains('['),
        !src.contains(']'),
        src.len() <= isize::MAX,
        0 < tape_size <= usize::MAX,
        run_spec(fresh_machine(parse_source(src)->Ok_0, input, tape_size)).1 is None,
    ensures
        parse_source(src) is Ok,
        ({
            let p = parse_source(src)->Ok_0;
            let r1 = run_spec(fresh_machine(p, input, tape_size));
            let r2 = run_spec(fresh_machine(optimize_spec(p), input, tape_size));
            &&& r2.1 is None
            &&& r2.0.output == r1.0.output
            &&& r2.0.tape == r1.0.tape
            &&& r2.0.count <= r1.0.count
        }),
{
    lemma_parse_line(src);
    let p = parse_prefix(src)->Some_0.0;
    assert(parse_source(src) == Ok::<Seq<Instr>, OgreError>(p));
    lemma_line_optimize(p);
    let q = cancel_fix(p);
    let m1 = fresh_machine(p, input, tape_size);
    let m2 = fresh_machine(q, input, tape_size);
    assert(p.skip(0) =~= p);
    assert(q.skip(0) =~= q);
    lemma_run_line_prog(m1);
    assert(state_of(m1) == state_of(m2));
    lemma_cancel_fix_exec(p, input, state_of(m1));
    lemma_run_line_prog(m2);
}

// ---------------------------------------------------------------------------
// What the moving ops do to the tape
// ---------------------------------------------------------------------------

/// Law: a `MoveSub(o)` step on a non-zero current cell `c` whose target cell
/// `dp + o` is another cell on the tape subtracts `c` from the target (modulo
/// 256), empties the current cell, keeps every other cell and the output, and
/// moves on; with a target off the tape it stops with a fault; on a zero cell
/// it only moves on.
pub proof fn law_move_sub_step(m: Machine)
    requires
        m.ip < m.ops.len(),
        m.ops[m.ip as int] is MoveSub,
        m.dp < m.tape.len(),
    ensures
        ({
            let o = m.ops[m.ip as int]->MoveSub_0 as int;
            let c = m.tape[m.dp as int] as int;
            let k = m.dp + o;
            let (m2, f) = step_spec(m);
            &&& c == 0 ==> f is None && m2.tape == m.tape && m2.ip == m.ip + 1
            &&& (c != 0 && 0 <= k < m.tape.len() && k != m.dp) ==> {
                &&& f is None
                &&& m2.ip == m.ip + 1
                &&& m2.dp == m.dp
                &&& m2.output == m.output
                &&& m2.tape.len() == m.tape.len()
                &&& m2.tape[k] as int == (m.tape[k] as int - c) % 256
                &&& m2.tape[m.dp as int] == 0
                &&& forall|j: int| 0 <= j < m.tape.len() && j != k && j != m.dp ==> m2.tape[j] == m.tape[j]
            }
            &&& (c != 0 && !(0 <= k < m.tape.len())) ==> f is Some
        }),
{
}

/// Law: a `MoveAdd(o)` step on a non-zero current cell `c` whose target cell
/// `dp + o` is another cell on the tape adds `c` to the target (modulo 256),
/// empties the current cell, keeps every other cell and the output, and moves
/// on; with a target off the tape it stops with a fault; on a zero cell it
/// only moves on.
pub proof fn law_move_add_step(m: Machine)
    requires
        m.ip < m.ops.len(),
        m.ops[m.ip as int] is MoveAdd,
        m.dp < m.tape.len(),
    ensures
        ({
            let o = m.ops[m.ip as int]->MoveAdd_0 as int;
            let c = m.tape[m.dp as int] as int;
            let k = m.dp + o;
            let (m2, f) = step_spec(m);
            &&& c == 0 ==> f is None && m2.tape == m.tape && m2.ip == m.ip + 1
            &&& (c != 0 && 0 <= k < m.tape.len() && k != m.dp) ==> {
                &&& f is None
                &&& m2.ip == m.ip + 1
                &&& m2.dp == m.dp
                &&& m2.output == m.output
                &&& m2.tape.len() == m.tape.len()
                &&& m2.tape[k] as int == (m.tape[k] as int + c) % 256
                &&& m2.tape[m.dp as int] == 0
                &&& forall|j: int| 0 <= j < m.tape.len() && j != k && j != m.dp ==> m2.tape[j] == m.tape[j]
            }
            &&& (c != 0 && !(0 <= k < m.tape.len())) ==> f is Some
        }),
{
}

// ---------------------------------------------------------------------------
// What a multiply loop's body does
// ---------------------------------------------------------------------------

/// The tape with `f` added (modulo 256) to the cell at `dp + o` for each target
/// `(o, f)`, in order.
pub open spec fn add_targets(tape: Seq<u8>, dp: int, ts: Seq<(isize, u8)>) -> Seq<u8>
    decreases ts.len(),
{
    if ts.len() == 0 {
        tape
    } else {
        let t = add_targets(tape, dp, ts.drop_last());
        let k = dp + ts.last().0 as int;
        if 0 <= k < t.len() { t.update(k, ((t[k] as int + ts.last().1 as int) % 256) as u8) } else { t }
    }
}

proof fn lemma_add_targets_len(tape: Seq<u8>, dp: int, ts: Seq<(isize, u8)>)
    ensures
        add_targets(tape, dp, ts).len() == tape.len(),
    decreases ts.len(),
{
    if ts.len() > 0 {
        lemma_add_targets_len(tape, dp, ts.drop_last());
    }
}

proof fn lemma_exec_push(ops: Seq<Instr>, x: Instr, input: Seq<u8>, s: LineState)
    ensures
        line_exec(ops.push(x), input, s) == match line_exec(ops, input, s) {
            None => None,
            Some(t) => line_step(t, input, x),
        },
    decreases ops.len(),
{
    let p = ops.push(x);
    if ops.len() == 0 {
        assert(p.skip(1) =~= Seq::<Instr>::empty());
        assert(p[0] == x);
        assert(line_exec(ops, input, s) == Some(s));
        match line_step(s, input, x) {
            None => {},
            Some(s2) => {
                assert(line_exec(p.skip(1), input, s2) == Some(s2));
            },
        }
    } else {
        assert(p[0] == ops[0]);
        assert(p.skip(1) =~= ops.skip(1).push(x));
        match line_step(s, input, ops[0]) {
            None => {},
            Some(s2) => {
                lemma_exec_push(ops.skip(1), x, input, s2);
                assert(line_exec(ops, input, s) == line_exec(ops.skip(1), input, s2));
                assert(line_exec(p, input, s) == line_exec(p.skip(1), input, s2));
            },
        }
    }
}

proof fn lemma_mb_exec(body: Seq<Instr>, input: Seq<u8>, s: LineState)
    requires
        mb_state(body) is Some,
        total_moves(body) <= isize::MAX,
        s.dp >= total_moves(body),
        s.dp + total_moves(body) < s.tape.len(),
    ensures
        -(total_moves(body) as int) <= mb_state(body)->Some_0.0 <= total_moves(body),
        line_exec(body, input, s) == Some(LineState {
            tape: add_targets(s.tape, s.dp as int, mb_state(body)->Some_0.1),
            dp: (s.dp + mb_state(body)->Some_0.0) as nat,
            ..s
        }),
    decreases body.len(),
{
    if body.len() == 0 {
        assert(line_exec(body, input, s) == Some(s));
    } else {
        let d = body.drop_last();
        let x = body.last();
        assert(d.push(x) =~= body);
        assert(total_moves(body) == total_moves(d) + move_amount(x));
        lemma_mb_exec(d, input, s);
        lemma_exec_push(d, x, input, s);
        let (off, ts) = mb_state(d)->Some_0;
        let t = LineState { tape: add_targets(s.tape, s.dp as int, ts), dp: (s.dp + off) as nat, ..s };
        lemma_add_targets_len(s.tape, s.dp as int, ts);
        if x is Add {
            let n = x->Add_0;
            assert(off != 0);
            let ts2 = ts.push((off as isize, n));
            assert(ts2.drop_last() =~= ts);
            assert((off as isize) as int == off);
            let k = s.dp + off;
            assert(wrapping_add(t.tape[k], n) == ((t.tape[k] as int + n as int) % 256) as u8);
        }
    }
}

/// Law: the body of a loop that the optimizer turns into `MultiplyMove(ts)`
/// adds, on each pass, each target's factor to the target's cell (modulo 256)
/// and comes back to the counter cell: run once, with room on the tape for its
/// moves, it gives the tape with the targets added and nothing else changed.
pub proof fn law_multiply_body_adds_factors(body: Seq<Instr>, input: Seq<u8>, s: LineState)
    requires
        multiply_body(body) is Some,
        total_moves(body) <= isize::MAX,
        s.dp >= total_moves(body),
        s.dp + total_moves(body) < s.tape.len(),
    ensures
        line_exec(body, input, s) == Some(LineState {
            tape: add_targets(s.tape, s.dp as int, multiply_body(body)->Some_0),
            ..s
        }),
{
    lemma_mb_exec(body, input, s);
}

// ---------------------------------------------------------------------------
// What each simple step does
// ---------------------------------------------------------------------------

/// The cells other than `k` are as they were.
pub open spec fn same_but(t2: Seq<u8>, t1: Seq<u8>, k: int) -> bool {
    t2.len() == t1.len() && forall|j: int| 0 <= j < t1.len() && j != k ==> t2[j] == t1[j]
}

/// Law: the ops that change or read the current cell. `Add(n)` raises it by
/// `n` and `Sub(n)` lowers it by `n` (modulo 256), `Clear` sets it to 0,
/// `Assign(n)` to `n`, `Input` to the next input byte (0 once the input is
/// used up, which then stays where it is), and `Output` appends it to the
/// output; every other cell, the pointer and (but for `Output`) the output stay,
/// and the run moves on to the next op without a fault.
pub proof fn law_cell_steps(m: Machine)
    requires
        m.ip < m.ops.len(),
        m.dp < m.tape.len(),
    ensures
        ({
            let x = m.ops[m.ip as int];
            let d = m.dp as int;
            let v = m.tape[d] as int;
            let (m2, f) = step_spec(m);
            &&& (x is Add || x is Sub || x is Clear || x is Assign || x is Input || x is Output) ==> {
                &&& f is None
                &&& m2.ip == m.ip + 1
                &&& m2.dp == m.dp
                &&& same_but(m2.tape, m.tape, d)
            }
            &&& x is Add ==> m2.tape[d] as int == (v + x->Add_0 as int) % 256 && m2.output == m.output
            &&& x is Sub ==> m2.tape[d] as int == (v - x->Sub_0 as int) % 256 && m2.output == m.output
            &&& x is Clear ==> m2.tape[d] == 0 && m2.output == m.output
            &&& x is Assign ==> m2.tape[d] == x->Assign_0 && m2.output == m.output
            &&& x is Output ==> m2.tape == m.tape && m2.output == m.output.push(m.tape[d])
            &&& x is Input ==> m2.output == m.output && if m.input_ptr < m.input.len() {
                m2.tape[d] == m.input[m.input_ptr as int] && m2.input_ptr == m.input_ptr + 1
            } else {
                m2.tape[d] == 0 && m2.input_ptr == m.input_ptr
            }
        }),
{
}

/// Law: `Right(n)` moves the pointer `n` cells right and `Left(n)` moves it `n`
/// cells left, keeping the tape and the output; a move that would leave the
/// tape stops the run with a fault instead. `JumpIfZero(t)` goes on just after
/// `t` when the current cell is zero and to the next op otherwise;
/// `JumpIfNonZero(t)` goes on just after `t` when it is not zero.
pub proof fn law_move_and_jump_steps(m: Machine)
    requires
        m.ip < m.ops.len(),
        m.dp < m.tape.len(),
    ensures
        ({
            let x = m.ops[m.ip as int];
            let (m2, f) = step_spec(m);
            &&& x is Right ==> if m.dp + x->Right_0 < m.tape.len() {
                f is None && m2.dp == m.dp + x->Right_0 && m2.tape == m.tape && m2.output == m.output && m2.ip == m.ip + 1
            } else {
                f == Some(Fault::PastRight)
            }
            &&& x is Left ==> if x->Left_0 <= m.dp {
                f is None && m2.dp == m.dp - x->Left_0 && m2.tape == m.tape && m2.output == m.output && m2.ip == m.ip + 1
            } else {
                f == Some(Fault::PastLeft)
            }
            &&& (x is JumpIfZero && x->JumpIfZero_0 < usize::MAX) ==> f is None && m2.tape == m.tape && m2.dp == m.dp
                && m2.ip == if m.tape[m.dp as int] == 0 { x->JumpIfZero_0 + 1 } else { m.ip + 1int }
            &&& (x is JumpIfNonZero && x->JumpIfNonZero_0 < usize::MAX) ==> f is None && m2.tape == m.tape && m2.dp == m.dp
                && m2.ip == if m.tape[m.dp as int] != 0 { x->JumpIfNonZero_0 + 1 } else { m.ip + 1int }
        }),
{
}

// ---------------------------------------------------------------------------
// Scans and multiply-moves
// ---------------------------------------------------------------------------

proof fn lemma_scan_right(tape: Seq<u8>, dp: nat)
    requires
        dp < tape.len(),
    ensures
        match scan_right_end(tape, dp) {
            Some(e) => dp <= e < tape.len() && tape[e as int] == 0 && forall|j: int| dp <= j < e ==> tape[j] != 0,
            None => forall|j: int| dp <= j < tape.len() ==> tape[j] != 0,
        },
    decreases tape.len() - dp,
{
    if tape[dp as int] != 0 && dp + 1 < tape.len() {
        lemma_scan_right(tape, dp + 1);
    }
}

proof fn lemma_scan_left(tape: Seq<u8>, dp: nat)
    requires
        dp < tape.len(),
    ensures
        match scan_left_end(tape, dp) {
            Some(e) => e <= dp && tape[e as int] == 0 && forall|j: int| e < j <= dp ==> tape[j] != 0,
            None => forall|j: int| 0 <= j <= dp ==> tape[j] != 0,
        },
    decreases dp,
{
    if tape[dp as int] != 0 && dp > 0 {
        lemma_scan_left(tape, (dp - 1) as nat);
    }
}

/// Law: `ScanRight` moves the pointer to the first zero cell at or right of
/// it, passing only non-zero cells, and `ScanLeft` to the first zero cell at or
/// left of it; the tape and the output stay. Where no such cell is on the tape
/// the run stops with a fault.
pub proof fn law_scan_steps(m: Machine)
    requires
        m.ip < m.ops.len(),
        m.dp < m.tape.len(),
        m.ops[m.ip as int] is ScanRight || m.ops[m.ip as int] is ScanLeft,
    ensures
        ({
            let (m2, f) = step_spec(m);
            &&& m.ops[m.ip as int] is ScanRight ==> match f {
                None => m.dp <= m2.dp < m.tape.len() && m.tape[m2.dp as int] == 0
                    && (forall|j: int| m.dp <= j < m2.dp ==> m.tape[j] != 0)
                    && m2.tape == m.tape && m2.output == m.output && m2.ip == m.ip + 1,
                Some(_) => forall|j: int| m.dp <= j < m.tape.len() ==> m.tape[j] != 0,
            }
            &&& m.ops[m.ip as int] is ScanLeft ==> match f {
                None => m2.dp <= m.dp && m.tape[m2.dp as int] == 0
                    && (forall|j: int| m2.dp < j <= m.dp ==> m.tape[j] != 0)
                    && m2.tape == m.tape && m2.output == m.output && m2.ip == m.ip + 1,
                Some(_) => forall|j: int| 0 <= j <= m.dp ==> m.tape[j] != 0,
            }
        }),
{
    lemma_scan_right(m.tape, m.dp);
    lemma_scan_left(m.tape, m.dp);
}

/// The tape with `v * f` added (modulo 256) to the cell at `dp + o` for each
/// target `(o, f)` on the tape, in order.
pub open spec fn mult_targets(tape: Seq<u8>, dp: int, v: int, ts: Seq<(isize, u8)>) -> Seq<u8>
    decreases ts.len(),
{
    if ts.len() == 0 {
        tape
    } else {
        let t = mult_targets(tape, dp, v, ts.drop_last());
        let k = dp + ts.last().0 as int;
        if 0 <= k < t.len() { t.update(k, ((t[k] as int + v * ts.last().1 as int) % 256) as u8) } else { t }
    }
}

proof fn lemma_apply_targets(tape: Seq<u8>, touched: Seq<bool>, dp: nat, v: u8, ts: Seq<(isize, u8)>)
    ensures
        apply_targets(tape, touched, dp, v, ts).0 == mult_targets(tape, dp as int, v as int, ts),
        mult_targets(tape, dp as int, v as int, ts).len() == tape.len(),
    decreases ts.len(),
{
    if ts.len() > 0 {
        lemma_apply_targets(tape, touched, dp, v, ts.drop_last());
        let t = mult_targets(tape, dp as int, v as int, ts.drop_last());
        let (o, f) = ts.last();
        let k = dp + o as int;
        if 0 <= k < t.len() {
            let w = wrapping_mul(v, f);
            assert(w as int == (v as int * f as int) % 256);
            vstd::arithmetic::div_mod::lemma_add_mod_noop_right(t[k] as int, v as int * f as int, 256);
            assert(wrapping_add(t[k], w) as int == (t[k] as int + v as int * f as int) % 256);
        }
    }
}

/// Law: a `MultiplyMove(ts)` step on a non-zero current cell `c` whose targets
/// all lie on the tape adds `c * f` (modulo 256) to each target cell `dp + o`,
/// then empties the current cell, keeping the pointer and the output; with a
/// target off the tape it stops with a fault; on a zero cell it only moves on.
pub proof fn law_multiply_step(m: Machine)
    requires
        m.ip < m.ops.len(),
        m.dp < m.tape.len(),
        m.ops[m.ip as int] is MultiplyMove,
    ensures
        ({
            let ts = m.ops[m.ip as int]->MultiplyMove_0;
            let c = m.tape[m.dp as int];
            let (m2, f) = step_spec(m);
            &&& c == 0 ==> f is None && m2.tape == m.tape && m2.ip == m.ip + 1
            &&& (c != 0 && targets_fault(m.dp, m.tape.len(), ts) is None) ==> f is None && m2.ip == m.ip + 1
                && m2.dp == m.dp && m2.output == m.output
                && m2.tape == mult_targets(m.tape, m.dp as int, c as int, ts).update(m.dp as int, 0)
            &&& (c != 0 && targets_fault(m.dp, m.tape.len(), ts) is Some) ==> f is Some
        }),
{
    lemma_apply_targets(m.tape, m.touched, m.dp, m.tape[m.dp as int], m.ops[m.ip as int]->MultiplyMove_0);
}

// ---------------------------------------------------------------------------
// A move loop runs as the op it is rewritten to
// ---------------------------------------------------------------------------

/// The loop body of a move loop from `base`: `-`, a move of `k` one way, a
/// `+` (or `-`) there, and the move back, closing back to `base`.
pub open spec fn move_loop_at(ops: Seq<Instr>, base: nat, right: bool, k: nat, add: bool) -> bool {
    &&& base + 6 <= ops.len()
    &&& ops.len() < usize::MAX
    &&& 1 <= k <= usize::MAX
    &&& ops[base + 1int] == Instr::Sub(1)
    &&& ops[base + 2int] == if right { Instr::Right(k as usize) } else { Instr::Left(k as usize) }
    &&& ops[base + 3int] == if add { Instr::Add(1) } else { Instr::Sub(1) }
    &&& ops[base + 4int] == if right { Instr::Left(k as usize) } else { Instr::Right(k as usize) }
    &&& ops[base + 5int] == Instr::JumpIfNonZero(base as usize)
}

/// `m2` continues the run of `m` from `ip`, with the current cell emptied and
/// `delta` added to the cell `kk` (modulo 256), the rest as in `m`.
pub open spec fn moved_to(m: Machine, m2: Machine, ip: nat, kk: int, delta: int, steps: nat) -> bool {
    &&& run_spec(m) == run_spec(m2)
    &&& m2.ip == ip
    &&& m2.dp == m.dp
    &&& m2.output == m.output
    &&& m2.tape.len() == m.tape.len()
    &&& m2.tape[m.dp as int] == 0
    &&& m2.tape[kk] as int == (m.tape[kk] as int + delta) % 256
    &&& (forall|j: int| 0 <= j < m.tape.len() && j != m.dp && j != kk ==> m2.tape[j] == m.tape[j])
    &&& m2.count <= m.count + steps
}

/// One round of a move loop: the five steps from the `-` to the `]`.
#[verifier::spinoff_prover]
#[verifier::rlimit(100)]
proof fn lemma_move_once(m: Machine, base: nat, right: bool, k: nat, add: bool, kk: int) -> (m5: Machine)
    requires
        move_loop_at(m.ops, base, right, k, add),
        m.ip == base + 1,
        m.dp < m.tape.len(),
        kk == if right { m.dp + k as int } else { m.dp - k as int },
        0 <= kk < m.tape.len(),
        m.tape[m.dp as int] != 0,
        m.count + 5 <= u64::MAX,
    ensures
        run_spec(m) == run_spec(m5),
        m5.ip == if m.tape[m.dp as int] == 1 { base + 6 } else { base + 1 },
        m5.dp == m.dp,
        m5.output == m.output,
        m5.ops == m.ops,
        m5.count == m.count + 5,
        m5.tape == m.tape.update(m.dp as int, (m.tape[m.dp as int] - 1) as u8).update(
            kk,
            ((m.tape[kk] as int + if add { 1int } else { -1int }) % 256) as u8,
        ),
{
    let d = m.dp as int;
    let v = m.tape[d];
    let (m1, f1) = step_spec(m);
    assert(f1 is None && m1.ip == base + 2 && m1.dp == m.dp);
    assert(m1.tape == m.tape.update(d, (v - 1) as u8));
    let (m2, f2) = step_spec(m1);
    assert(f2 is None && m2.ip == base + 3 && m2.dp == kk && m2.tape == m1.tape);
    let (m3, f3) = step_spec(m2);
    let nv: u8 = if add { wrapping_add(m.tape[kk], 1) } else { wrapping_sub(m.tape[kk], 1) };
    assert(f3 is None && m3.ip == base + 4 && m3.dp == kk);
    assert(m3.tape == m1.tape.update(kk, nv));
    let (m4, f4) = step_spec(m3);
    assert(f4 is None && m4.ip == base + 5 && m4.dp == m.dp && m4.tape == m3.tape);
    let (m5, f5) = step_spec(m4);
    assert(m4.tape[d] == (v - 1) as u8);
    assert(f5 is None && m5.tape == m4.tape && m5.dp == m.dp && m5.output == m.output);
    assert(run_spec(m) == run_spec(m1));
    assert(run_spec(m1) == run_spec(m2));
    assert(run_spec(m2) == run_spec(m3));
    assert(run_spec(m3) == run_spec(m4));
    assert(run_spec(m4) == run_spec(m5));
    m5
}

proof fn lemma_move_iter(m: Machine, base: nat, right: bool, k: nat, add: bool, v: nat, kk: int, delta: int)
    requires
        move_loop_at(m.ops, base, right, k, add),
        m.ip == base + 1,
        m.dp < m.tape.len(),
        kk == if right { m.dp + k as int } else { m.dp - k as int },
        0 <= kk < m.tape.len(),
        kk != m.dp,
        delta == if add { v as int } else { -(v as int) },
        1 <= v,
        m.tape[m.dp as int] == v,
        m.count + 5 * v <= u64::MAX,
    ensures
        exists|m2: Machine| #[trigger] moved_to(m, m2, base + 6, kk, delta, 5 * v),
    decreases v,
{
    let d = m.dp as int;
    let m5 = lemma_move_once(m, base, right, k, add, kk);
    let one: int = if add { 1 } else { -1 };
    if v == 1 {
        assert(moved_to(m, m5, base + 6, kk, delta, 5 * v));
    } else {
        let rest: int = if add { (v - 1) as int } else { -((v - 1) as int) };
        lemma_move_iter(m5, base, right, k, add, (v - 1) as nat, kk, rest);
        let m6 = choose|m6: Machine| #[trigger] moved_to(m5, m6, base + 6, kk, rest, 5 * (v - 1) as nat);
        vstd::arithmetic::div_mod::lemma_add_mod_noop_right(rest, m.tape[kk] as int + one, 256);
        assert(((m.tape[kk] as int + one) % 256 + rest) % 256 == (m.tape[kk] as int + delta) % 256);
        assert(moved_to(m, m6, base + 6, kk, delta, 5 * v));
    }
}

/// The offset of a move op, 0 for any other op.
pub open spec fn move_offset(x: Instr) -> int {
    match x {
        Instr::MoveAdd(o) => o as int,
        Instr::MoveSub(o) => o as int,
        _ => 0,
    }
}

/// Law: a loop that the optimizer rewrites to a move op (`[->+<]`, `[->-<]`,
/// `[-<+>]`, `[-<->]`, with any distance), with its brackets paired and its
/// target on the tape, runs to just past its `]` with the same tape, pointer
/// and output as the one move op it is rewritten to has after its step.
pub proof fn law_move_loop_is_move_op(m: Machine)
    requires
        m.ip + 6 <= m.ops.len(),
        m.ops.len() < usize::MAX,
        m.dp < m.tape.len(),
        m.ops[m.ip as int] == Instr::JumpIfZero((m.ip + 5) as usize),
        m.ops[m.ip + 5int] == Instr::JumpIfNonZero(m.ip as usize),
        move_amount(m.ops[m.ip + 2int]) <= isize::MAX,
        move_rewrite(m.ops.skip(m.ip as int)) is Some,
        move_offset(move_rewrite(m.ops.skip(m.ip as int))->Some_0) != 0,
        0 <= m.dp + move_offset(move_rewrite(m.ops.skip(m.ip as int))->Some_0) < m.tape.len(),
        m.count + 5 * 256 + 1 <= u64::MAX,
    ensures
        ({
            let x = move_rewrite(m.ops.skip(m.ip as int))->Some_0;
            let (mx, fx) = step_spec(Machine { ops: seq![x], ip: 0, ..m });
            &&& fx is None
            &&& exists|m2: Machine|
                #![trigger run_spec(m2)]
                run_spec(m) == run_spec(m2) && m2.ip == m.ip + 6 && m2.dp == mx.dp && m2.tape == mx.tape
                    && m2.output == mx.output
        }),
{
    let s = m.ops.skip(m.ip as int);
    assert(s[0] == m.ops[m.ip as int] && s[1] == m.ops[m.ip + 1int] && s[2] == m.ops[m.ip + 2int]);
    assert(s[3] == m.ops[m.ip + 3int] && s[4] == m.ops[m.ip + 4int] && s[5] == m.ops[m.ip + 5int]);
    let x = move_rewrite(s)->Some_0;
    let mm = Machine { ops: seq![x], ip: 0, ..m };
    let (mx, fx) = step_spec(mm);
    let d = m.dp as int;
    let right = s[2] is Right;
    let k: nat = if right { s[2]->Right_0 as nat } else { s[2]->Left_0 as nat };
    let add = s[3] == Instr::Add(1);
    let o = move_offset(x);
    assert(o == if right { k as int } else { -(k as int) });
    assert(move_loop_at(m.ops, m.ip, right, k, add));
    let kk = d + o;
    let c = m.tape[d];
    assert(mm.ops[mm.ip as int] == x);
    if add {
        law_move_add_step(mm);
    } else {
        law_move_sub_step(mm);
    }
    let (m1, f1) = step_spec(m);
    assert(run_spec(m) == run_spec(m1));
    if c == 0 {
        assert(m1.ip == m.ip + 6 && m1.tape == m.tape && m1.dp == m.dp && m1.output == m.output);
        assert(mx.tape == m.tape && mx.dp == m.dp && mx.output == m.output);
    } else {
        assert(m1.ip == m.ip + 1 && m1.tape == m.tape && m1.dp == m.dp);
        let delta: int = if add { c as int } else { -(c as int) };
        lemma_move_iter(m1, m.ip, right, k, add, c as nat, kk, delta);
        let m2 = choose|m2: Machine| #[trigger] moved_to(m1, m2, m.ip + 6, kk, delta, 5 * c as nat);
        assert(m2.tape =~= mx.tape);
        assert(run_spec(m) == run_spec(m2));
    }
}

// ---------------------------------------------------------------------------
// A multiply loop runs as the op it is rewritten to
// ---------------------------------------------------------------------------

/// `m2` continues the run of `m` after `len` ops of a stretch without loops,
/// in the state that stretch leaves.
pub open spec fn ran_stretch(m: Machine, m2: Machine, len: nat, st: LineState) -> bool {
    &&& run_spec(m) == run_spec(m2)
    &&& m2.ip == m.ip + len
    &&& m2.ops == m.ops
    &&& m2.input == m.input
    &&& state_of(m2) == st
    &&& m2.count == m.count + len
}

proof fn lemma_run_stretch(m: Machine, len: nat)
    requires
        m.ip + len <= m.ops.len(),
        forall|i: int| m.ip <= i < m.ip + len ==> line_instr(#[trigger] m.ops[i]),
        m.dp < m.tape.len(),
        m.count + len <= u64::MAX,
        line_exec(m.ops.subrange(m.ip as int, (m.ip + len) as int), m.input, state_of(m)) is Some,
    ensures
        exists|m2: Machine| #[trigger] ran_stretch(m, m2, len,
            line_exec(m.ops.subrange(m.ip as int, (m.ip + len) as int), m.input, state_of(m))->Some_0),
    decreases len,
{
    let seg = m.ops.subrange(m.ip as int, (m.ip + len) as int);
    if len == 0 {
        assert(seg =~= Seq::<Instr>::empty());
        assert(line_exec(seg, m.input, state_of(m)) == Some(state_of(m)));
        assert(ran_stretch(m, m, len, line_exec(m.ops.subrange(m.ip as int, (m.ip + len) as int), m.input, state_of(m))->Some_0));
    } else {
        let x = m.ops[m.ip as int];
        assert(seg[0] == x);
        assert(line_instr(x));
        let (m1, f1) = step_spec(m);
        assert(line_exec(seg, m.input, state_of(m)) == match line_step(state_of(m), m.input, x) {
            None => None,
            Some(s2) => line_exec(seg.skip(1), m.input, s2),
        });
        assert(f1 is None);
        assert(state_of(m1) == line_step(state_of(m), m.input, x)->Some_0);
        assert(seg.skip(1) =~= m1.ops.subrange(m1.ip as int, (m1.ip + (len - 1) as nat) as int));
        lemma_run_stretch(m1, (len - 1) as nat);
        let m2 = choose|m2: Machine| #[trigger] ran_stretch(m1, m2, (len - 1) as nat,
            line_exec(m1.ops.subrange(m1.ip as int, (m1.ip + (len - 1) as nat) as int), m1.input, state_of(m1))->Some_0);
        assert(run_spec(m) == run_spec(m1));
        assert(ran_stretch(m, m2, len, line_exec(m.ops.subrange(m.ip as int, (m.ip + len) as int), m.input, state_of(m))->Some_0));
    }
}

/// The sum of the factors of the targets that land on cell `j` from `dp`.
pub open spec fn factor_sum(ts: Seq<(isize, u8)>, dp: int, j: int) -> int
    decreases ts.len(),
{
    if ts.len() == 0 {
        0
    } else {
        factor_sum(ts.drop_last(), dp, j) + if dp + ts.last().0 as int == j { ts.last().1 as int } else { 0 }
    }
}

proof fn lemma_mult_cells(tape: Seq<u8>, dp: int, v: int, ts: Seq<(isize, u8)>)
    requires
        v >= 0,
        forall|i: int| 0 <= i < ts.len() ==> 0 <= dp + ((#[trigger] ts[i]).0 as int) < tape.len(),
    ensures
        mult_targets(tape, dp, v, ts).len() == tape.len(),
        forall|j: int| 0 <= j < tape.len() ==> #[trigger] mult_targets(tape, dp, v, ts)[j] as int == (tape[j] as int + v
            * factor_sum(ts, dp, j)) % 256,
    decreases ts.len(),
{
    if ts.len() > 0 {
        let d = ts.drop_last();
        assert forall|i: int| 0 <= i < d.len() implies 0 <= dp + ((#[trigger] d[i]).0 as int) < tape.len() by {
            assert(d[i] == ts[i]);
        }
        lemma_mult_cells(tape, dp, v, d);
        let t = mult_targets(tape, dp, v, d);
        let (o, f) = ts.last();
        assert(ts.last() == ts[ts.len() - 1]);
        let k = dp + o as int;
        assert forall|j: int| 0 <= j < tape.len() implies #[trigger] mult_targets(tape, dp, v, ts)[j] as int == (
        tape[j] as int + v * factor_sum(ts, dp, j)) % 256 by {
            let fp = factor_sum(d, dp, j);
            if j == k {
                assert(t[j] as int == (tape[j] as int + v * fp) % 256);
                vstd::arithmetic::div_mod::lemma_add_mod_noop_right(v * f as int, tape[j] as int + v * fp, 256);
                assert(v * fp + v * f as int == v * (fp + f as int)) by (nonlinear_arith);
                assert((v * f as int + (tape[j] as int + v * fp)) == tape[j] as int + v * (fp + f as int));
            } else {
                assert(t[j] as int == (tape[j] as int + v * fp) % 256);
            }
        }
    }
}

proof fn lemma_add_is_mult(tape: Seq<u8>, dp: int, ts: Seq<(isize, u8)>)
    ensures
        add_targets(tape, dp, ts) == mult_targets(tape, dp, 1, ts),
    decreases ts.len(),
{
    if ts.len() > 0 {
        lemma_add_is_mult(tape, dp, ts.drop_last());
    }
}

proof fn lemma_mb_targets(body: Seq<Instr>)
    requires
        mb_state(body) is Some,
        total_moves(body) <= isize::MAX,
    ensures
        -(total_moves(body) as int) <= mb_state(body)->Some_0.0 <= total_moves(body),
        forall|i: int| 0 <= i < mb_state(body)->Some_0.1.len() ==> {
            let o = (#[trigger] mb_state(body)->Some_0.1[i]).0 as int;
            o != 0 && -(total_moves(body) as int) <= o <= total_moves(body)
        },
    decreases body.len(),
{
    if body.len() > 0 {
        let d = body.drop_last();
        let x = body.last();
        assert(total_moves(body) == total_moves(d) + move_amount(x));
        lemma_mb_targets(d);
        let (off, ts) = mb_state(d)->Some_0;
        if x is Add {
            let ts2 = ts.push((off as isize, x->Add_0));
            assert forall|i: int| 0 <= i < ts2.len() implies {
                let o = (#[trigger] ts2[i]).0 as int;
                o != 0 && -(total_moves(body) as int) <= o <= total_moves(body)
            } by {
                if i < ts.len() {
                    assert(ts2[i] == ts[i]);
                }
            }
        }
    }
}

proof fn lemma_no_target_fault(dp: nat, len: nat, ts: Seq<(isize, u8)>)
    requires
        forall|i: int| 0 <= i < ts.len() ==> 0 <= dp + ((#[trigger] ts[i]).0 as int) < len,
    ensures
        targets_fault(dp, len, ts) is None,
    decreases ts.len(),
{
    if ts.len() > 0 {
        let d = ts.drop_last();
        assert forall|i: int| 0 <= i < d.len() implies 0 <= dp + ((#[trigger] d[i]).0 as int) < len by {
            assert(d[i] == ts[i]);
        }
        lemma_no_target_fault(dp, len, d);
        assert(ts.last() == ts[ts.len() - 1]);
    }
}

proof fn lemma_mb_line(body: Seq<Instr>)
    requires
        mb_state(body) is Some,
    ensures
        forall|i: int| 0 <= i < body.len() ==> line_instr(#[trigger] body[i]),
    decreases body.len(),
{
    if body.len() > 0 {
        let d = body.drop_last();
        lemma_mb_line(d);
        assert forall|i: int| 0 <= i < body.len() implies line_instr(#[trigger] body[i]) by {
            if i < d.len() {
                assert(body[i] == d[i]);
            }
        }
    }
}

/// A multiply loop from `base`: `[`, `-`, a body of `len` ops that
/// `multiply_body` accepts, and the `]` that closes back to `base`.
pub open spec fn mult_loop_at(ops: Seq<Instr>, base: nat, len: nat) -> bool {
    &&& base + len + 3 <= ops.len()
    &&& ops.len() < usize::MAX
    &&& ops[base + 1int] == Instr::Sub(1)
    &&& ops[base + 2 + len as int] == Instr::JumpIfNonZero(base as usize)
    &&& multiply_body(ops.subrange(base + 2int, base + 2 + len as int)) is Some
    &&& total_moves(ops.subrange(base + 2int, base + 2 + len as int)) <= isize::MAX
}

/// `m2` continues the run of `m` from `ip`, with the current cell emptied and
/// `v` times each target's factor added to the targets' cells (modulo 256).
pub open spec fn multiplied(m: Machine, m2: Machine, ip: nat, ts: Seq<(isize, u8)>, v: int) -> bool {
    &&& run_spec(m) == run_spec(m2)
    &&& m2.ip == ip
    &&& m2.dp == m.dp
    &&& m2.output == m.output
    &&& m2.tape.len() == m.tape.len()
    &&& m2.tape[m.dp as int] == 0
    &&& forall|j: int|
        0 <= j < m.tape.len() && j != m.dp ==> #[trigger] m2.tape[j] as int == (m.tape[j] as int + v * factor_sum(
            ts,
            m.dp as int,
            j,
        )) % 256
}

#[verifier::rlimit(60)]
proof fn lemma_mult_iter(m: Machine, base: nat, len: nat, v: nat)
    requires
        mult_loop_at(m.ops, base, len),
        m.ip == base + 1,
        m.dp < m.tape.len(),
        m.dp >= total_moves(m.ops.subrange(base + 2int, base + 2 + len as int)),
        m.dp + total_moves(m.ops.subrange(base + 2int, base + 2 + len as int)) < m.tape.len(),
        1 <= v,
        m.tape[m.dp as int] == v,
        m.count + v * (len + 2) <= u64::MAX,
    ensures
        exists|m2: Machine| #[trigger] multiplied(m, m2, base + len + 3,
            multiply_body(m.ops.subrange(base + 2int, base + 2 + len as int))->Some_0, v as int),
    decreases v,
{
    let body = m.ops.subrange(base + 2int, base + 2 + len as int);
    let ts = multiply_body(body)->Some_0;
    let d = m.dp as int;
    let tm = total_moves(body);
    assert(v * (len + 2) == (v - 1) * (len + 2) + len + 2) by (nonlinear_arith);
    assert((v - 1) * (len + 2) >= 0) by (nonlinear_arith)
        requires
            v >= 1,
    ;
    lemma_mb_targets(body);
    lemma_mb_line(body);
    let (m1, f1) = step_spec(m);
    assert(f1 is None && m1.ip == base + 2 && m1.dp == m.dp && m1.ops == m.ops && m1.input == m.input);
    assert(m1.tape == m.tape.update(d, (v - 1) as u8));
    assert(run_spec(m) == run_spec(m1));
    law_multiply_body_adds_factors(body, m.input, state_of(m1));
    let t1 = m1.tape;
    assert forall|i: int| m1.ip <= i < m1.ip + len implies line_instr(#[trigger] m1.ops[i]) by {
        assert(m1.ops[i] == body[i - m1.ip]);
    }
    assert(m1.ops.subrange(m1.ip as int, (m1.ip + len) as int) =~= body);
    lemma_run_stretch(m1, len);
    let st = line_exec(body, m.input, state_of(m1))->Some_0;
    let m2 = choose|m2: Machine| #[trigger] ran_stretch(m1, m2, len, st);
    assert(m2.tape == add_targets(t1, d, ts));
    lemma_add_is_mult(t1, d, ts);
    assert forall|i: int| 0 <= i < ts.len() implies 0 <= d + ((#[trigger] ts[i]).0 as int) < t1.len() by {}
    lemma_mult_cells(t1, d, 1, ts);
    assert(factor_sum(ts, d, d) == 0) by {
        lemma_no_self_target(ts, d);
    }
    assert(m2.tape[d] == (v - 1) as u8);
    let (m3, f3) = step_spec(m2);
    assert(m2.ip == base + 2 + len && m2.ops[m2.ip as int] == Instr::JumpIfNonZero(base as usize));
    assert(f3 is None && m3.tape == m2.tape && m3.dp == m.dp && m3.output == m.output && m3.ops == m.ops);
    assert(run_spec(m2) == run_spec(m3));
    if v == 1 {
        assert(m3.ip == base + len + 3);
        assert forall|j: int| 0 <= j < m.tape.len() && j != m.dp implies #[trigger] m3.tape[j] as int == (
        m.tape[j] as int + 1 * factor_sum(ts, d, j)) % 256 by {
            assert(t1[j] == m.tape[j]);
        }
        assert(multiplied(m, m3, base + len + 3, ts, v as int));
    } else {
        assert(m3.ip == base + 1);
        lemma_mult_iter(m3, base, len, (v - 1) as nat);
        let m4 = choose|m4: Machine| #[trigger] multiplied(m3, m4, base + len + 3, ts, (v - 1) as int);
        assert forall|j: int| 0 <= j < m.tape.len() && j != m.dp implies #[trigger] m4.tape[j] as int == (
        m.tape[j] as int + v * factor_sum(ts, d, j)) % 256 by {
            let fj = factor_sum(ts, d, j);
            assert(t1[j] == m.tape[j]);
            assert(m3.tape[j] as int == (m.tape[j] as int + 1 * fj) % 256);
            assert(m4.tape[j] as int == (m3.tape[j] as int + (v - 1) * fj) % 256);
            vstd::arithmetic::div_mod::lemma_add_mod_noop_right((v - 1) * fj, m.tape[j] as int + fj, 256);
            assert((v - 1) * fj + (m.tape[j] as int + fj) == m.tape[j] as int + v * fj) by (nonlinear_arith);
        }
        assert(multiplied(m, m4, base + len + 3, ts, v as int));
    }
}

proof fn lemma_no_self_target(ts: Seq<(isize, u8)>, d: int)
    requires
        forall|i: int| 0 <= i < ts.len() ==> (#[trigger] ts[i]).0 as int != 0,
    ensures
        factor_sum(ts, d, d) == 0,
    decreases ts.len(),
{
    if ts.len() > 0 {
        let p = ts.drop_last();
        assert forall|i: int| 0 <= i < p.len() implies (#[trigger] p[i]).0 as int != 0 by {
            assert(p[i] == ts[i]);
        }
        lemma_no_self_target(p, d);
        assert(ts.last() == ts[ts.len() - 1]);
    }
}

/// Law: a loop that the optimizer rewrites to `MultiplyMove(ts)` (`[-` and a
/// body of moves and adds that comes back to the counter cell, then `]`), with
/// its brackets paired and room on the tape for its moves, runs to just past
/// its `]` with the same tape, pointer and output as the `MultiplyMove` op
/// after its step: the counter emptied and each target raised by the counter
/// times its factor.
pub proof fn law_multiply_loop_is_multiply_op(m: Machine, len: nat)
    requires
        mult_loop_at(m.ops, m.ip, len),
        m.ops[m.ip as int] == Instr::JumpIfZero((m.ip + 2 + len as int) as usize),
        m.dp < m.tape.len(),
        m.dp >= total_moves(m.ops.subrange(m.ip + 2int, m.ip + 2 + len as int)),
        m.dp + total_moves(m.ops.subrange(m.ip + 2int, m.ip + 2 + len as int)) < m.tape.len(),
        m.count + 256 * (len + 3) <= u64::MAX,
    ensures
        ({
            let x = Instr::MultiplyMove(multiply_body(m.ops.subrange(m.ip + 2int, m.ip + 2 + len as int))->Some_0);
            let (mx, fx) = step_spec(Machine { ops: seq![x], ip: 0, ..m });
            &&& fx is None
            &&& exists|m2: Machine|
                #![trigger run_spec(m2)]
                run_spec(m) == run_spec(m2) && m2.ip == m.ip + len + 3 && m2.dp == mx.dp && m2.tape == mx.tape
                    && m2.output == mx.output
        }),
{
    let body = m.ops.subrange(m.ip + 2int, m.ip + 2 + len as int);
    let ts = multiply_body(body)->Some_0;
    let d = m.dp as int;
    let x = Instr::MultiplyMove(ts);
    let mm = Machine { ops: seq![x], ip: 0, ..m };
    lemma_mb_targets(body);
    assert forall|i: int| 0 <= i < ts.len() implies 0 <= m.dp + ((#[trigger] ts[i]).0 as int) < m.tape.len() by {}
    lemma_no_target_fault(m.dp, m.tape.len(), ts);
    assert(mm.ops[mm.ip as int] == x);
    law_multiply_step(mm);
    let (mx, fx) = step_spec(mm);
    let c = m.tape[d];
    let (m1, f1) = step_spec(m);
    assert(run_spec(m) == run_spec(m1));
    if c == 0 {
        assert(m1.ip == m.ip + len + 3 && m1.tape == m.tape && m1.dp == m.dp && m1.output == m.output);
    } else {
        assert(m1.ip == m.ip + 1 && m1.tape == m.tape && m1.dp == m.dp && m1.ops == m.ops);
        assert(c * (len + 2) + 1 <= 256 * (len + 3)) by (nonlinear_arith)
            requires
                c < 256,
        ;
        assert(m1.count == m.count + 1);
        assert((c as nat) * (len + 2) == c * (len + 2));
        lemma_mult_iter(m1, m.ip, len, c as nat);
        let m2 = choose|m2: Machine| #[trigger] multiplied(m1, m2, m.ip + len + 3, ts, c as int);
        lemma_mult_cells(m.tape, d, c as int, ts);
        assert forall|j: int| 0 <= j < m.tape.len() implies m2.tape[j] == mx.tape[j] by {
            if j != d {
                assert(m2.tape[j] as int == (m.tape[j] as int + c as int * factor_sum(ts, d, j)) % 256);
            }
        }
        assert(m2.tape =~= mx.tape);
        assert(run_spec(m) == run_spec(m2));
    }
}

// ---------------------------------------------------------------------------
// Clear and scan loops run as the ops they are rewritten to
// ---------------------------------------------------------------------------

/// Rounds of `[-]` from its `-`: the loop leaves just past its `]` with the
/// current cell emptied and all else as it was.
proof fn lemma_clear_iter(m: Machine, base: nat, v: nat)
    requires
        base + 3 <= m.ops.len(),
        m.ops.len() < usize::MAX,
        m.ops[base + 1int] == Instr::Sub(1),
        m.ops[base + 2int] == Instr::JumpIfNonZero(base as usize),
        m.ip == base + 1,
        m.dp < m.tape.len(),
        1 <= v,
        m.tape[m.dp as int] == v,
        m.count + 2 * v <= u64::MAX,
    ensures
        exists|m2: Machine|
            #![trigger run_spec(m2)]
            run_spec(m) == run_spec(m2) && m2.ip == base + 3 && m2.dp == m.dp && m2.output == m.output
                && m2.tape == m.tape.update(m.dp as int, 0),
    decreases v,
{
    let d = m.dp as int;
    let (m1, f1) = step_spec(m);
    assert(f1 is None && m1.ip == base + 2 && m1.dp == m.dp && m1.output == m.output);
    assert(m1.tape == m.tape.update(d, (v - 1) as u8));
    let (m2, f2) = step_spec(m1);
    assert(f2 is None && m2.tape == m1.tape && m2.dp == m.dp && m2.output == m.output);
    assert(run_spec(m) == run_spec(m1));
    assert(run_spec(m1) == run_spec(m2));
    if v == 1 {
        assert(m2.ip == base + 3);
        assert(m2.tape =~= m.tape.update(d, 0));
    } else {
        assert(m2.ip == base + 1);
        lemma_clear_iter(m2, base, (v - 1) as nat);
        let m3 = choose|m3: Machine|
            #![trigger run_spec(m3)]
            run_spec(m2) == run_spec(m3) && m3.ip == base + 3 && m3.dp == m2.dp && m3.output == m2.output
                && m3.tape == m2.tape.update(m2.dp as int, 0);
        assert(m3.tape =~= m.tape.update(d, 0));
    }
}

/// Law: a loop that the optimizer rewrites to `Clear` (`[-]`), with its
/// brackets paired, runs to just past its `]` with the same tape, pointer and
/// output as `Clear` has after its step: the current cell emptied, all else kept.
pub proof fn law_clear_loop_is_clear(m: Machine)
    requires
        m.ip + 3 <= m.ops.len(),
        m.ops.len() < usize::MAX,
        m.dp < m.tape.len(),
        m.ops[m.ip as int] == Instr::JumpIfZero((m.ip + 2) as usize),
        m.ops[m.ip + 2int] == Instr::JumpIfNonZero(m.ip as usize),
        clear_pass(m.ops.skip(m.ip as int))[0] == Instr::Clear,
        m.count + 2 * 256 + 1 <= u64::MAX,
    ensures
        ({
            let (mx, fx) = step_spec(Machine { ops: seq![Instr::Clear], ip: 0, ..m });
            &&& fx is None
            &&& exists|m2: Machine|
                #![trigger run_spec(m2)]
                run_spec(m) == run_spec(m2) && m2.ip == m.ip + 3 && m2.dp == mx.dp && m2.tape == mx.tape
                    && m2.output == mx.output
        }),
{
    let s = m.ops.skip(m.ip as int);
    assert(s[0] == m.ops[m.ip as int] && s[1] == m.ops[m.ip + 1int] && s[2] == m.ops[m.ip + 2int]);
    assert(s[1] == Instr::Sub(1));
    let mm = Machine { ops: seq![Instr::Clear], ip: 0, ..m };
    let (mx, fx) = step_spec(mm);
    assert(mm.ops[0] == Instr::Clear);
    let d = m.dp as int;
    let c = m.tape[d];
    let (m1, f1) = step_spec(m);
    assert(run_spec(m) == run_spec(m1));
    if c == 0 {
        assert(m1.ip == m.ip + 3 && m1.dp == m.dp && m1.output == m.output);
        assert(m1.tape =~= mx.tape);
    } else {
        assert(m1.ip == m.ip + 1 && m1.tape == m.tape && m1.dp == m.dp && m1.ops == m.ops);
        lemma_clear_iter(m1, m.ip, c as nat);
        let m2 = choose|m2: Machine|
            #![trigger run_spec(m2)]
            run_spec(m1) == run_spec(m2) && m2.ip == m.ip + 3 && m2.dp == m1.dp && m2.output == m1.output
                && m2.tape == m1.tape.update(m1.dp as int, 0);
        assert(m2.tape =~= mx.tape);
    }
}

/// Rounds of `[>]` from its `>`, the current cell not zero: the loop leaves just
/// past its `]` at the first zero cell right of the pointer, or stops with a
/// fault where there is none.
proof fn lemma_scan_right_iter(m: Machine, base: nat)
    requires
        base + 3 <= m.ops.len(),
        m.ops.len() < usize::MAX,
        m.ops[base + 1int] == Instr::Right(1),
        m.ops[base + 2int] == Instr::JumpIfNonZero(base as usize),
        m.ip == base + 1,
        m.dp < m.tape.len(),
        m.tape[m.dp as int] != 0,
        m.count + 2 * (m.tape.len() - m.dp) <= u64::MAX,
    ensures
        match scan_right_end(m.tape, m.dp) {
            Some(e) => exists|m2: Machine|
                #![trigger run_spec(m2)]
                run_spec(m) == run_spec(m2) && m2.ip == base + 3 && m2.dp == e && m2.tape == m.tape
                    && m2.output == m.output,
            None => run_spec(m).1 == Some(Fault::PastRight),
        },
    decreases m.tape.len() - m.dp,
{
    let (m1, f1) = step_spec(m);
    if m.dp + 1 >= m.tape.len() {
        assert(f1 == Some(Fault::PastRight));
    } else {
        assert(f1 is None && m1.dp == m.dp + 1 && m1.ip == base + 2 && m1.tape == m.tape && m1.output == m.output);
        let (m2, f2) = step_spec(m1);
        assert(f2 is None && m2.dp == m1.dp && m2.tape == m.tape && m2.output == m.output);
        assert(run_spec(m) == run_spec(m1));
        assert(run_spec(m1) == run_spec(m2));
        if m.tape[m.dp + 1int] == 0 {
            assert(m2.ip == base + 3);
        } else {
            assert(m2.ip == base + 1);
            lemma_scan_right_iter(m2, base);
        }
    }
}

/// The same for `[<]`, leftwards.
proof fn lemma_scan_left_iter(m: Machine, base: nat)
    requires
        base + 3 <= m.ops.len(),
        m.ops.len() < usize::MAX,
        m.ops[base + 1int] == Instr::Left(1),
        m.ops[base + 2int] == Instr::JumpIfNonZero(base as usize),
        m.ip == base + 1,
        m.dp < m.tape.len(),
        m.tape[m.dp as int] != 0,
        m.count + 2 * (m.dp + 1) <= u64::MAX,
    ensures
        match scan_left_end(m.tape, m.dp) {
            Some(e) => exists|m2: Machine|
                #![trigger run_spec(m2)]
                run_spec(m) == run_spec(m2) && m2.ip == base + 3 && m2.dp == e && m2.tape == m.tape
                    && m2.output == m.output,
            None => run_spec(m).1 == Some(Fault::PastLeft),
        },
    decreases m.dp,
{
    let (m1, f1) = step_spec(m);
    if m.dp == 0 {
        assert(f1 == Some(Fault::PastLeft));
    } else {
        assert(f1 is None && m1.dp == m.dp - 1 && m1.ip == base + 2 && m1.tape == m.tape && m1.output == m.output);
        let (m2, f2) = step_spec(m1);
        assert(f2 is None && m2.dp == m1.dp && m2.tape == m.tape && m2.output == m.output);
        assert(run_spec(m) == run_spec(m1));
        assert(run_spec(m1) == run_spec(m2));
        if m.tape[m.dp - 1int] == 0 {
            assert(m2.ip == base + 3);
        } else {
            assert(m2.ip == base + 1);
            lemma_scan_left_iter(m2, base);
        }
    }
}

/// Law: a loop that the optimizer rewrites to a scan (`[>]` to `ScanRight`,
/// `[<]` to `ScanLeft`), with its brackets paired, runs to just past its `]`
/// with the same tape, pointer and output as the scan has after its step; where
/// the scan stops with a fault (no zero cell that way), the run of the loop
/// stops with that fault too.
pub proof fn law_scan_loop_is_scan(m: Machine)
    requires
        m.ip + 3 <= m.ops.len(),
        m.ops.len() < usize::MAX,
        m.dp < m.tape.len(),
        m.ops[m.ip as int] == Instr::JumpIfZero((m.ip + 2) as usize),
        m.ops[m.ip + 2int] == Instr::JumpIfNonZero(m.ip as usize),
        scan_pass(m.ops.skip(m.ip as int))[0] is ScanRight || scan_pass(m.ops.skip(m.ip as int))[0] is ScanLeft,
        m.count + 2 * m.tape.len() + 1 <= u64::MAX,
    ensures
        ({
            let x = scan_pass(m.ops.skip(m.ip as int))[0];
            let (mx, fx) = step_spec(Machine { ops: seq![x], ip: 0, ..m });
            &&& fx is None ==> exists|m2: Machine|
                #![trigger run_spec(m2)]
                run_spec(m) == run_spec(m2) && m2.ip == m.ip + 3 && m2.dp == mx.dp && m2.tape == mx.tape
                    && m2.output == mx.output
            &&& fx is Some ==> run_spec(m).1 == fx
        }),
{
    let s = m.ops.skip(m.ip as int);
    assert(s[0] == m.ops[m.ip as int] && s[1] == m.ops[m.ip + 1int] && s[2] == m.ops[m.ip + 2int]);
    let x = scan_pass(s)[0];
    let mm = Machine { ops: seq![x], ip: 0, ..m };
    let (mx, fx) = step_spec(mm);
    assert(mm.ops[0] == x);
    let d = m.dp as int;
    let (m1, f1) = step_spec(m);
    assert(run_spec(m) == run_spec(m1));
    if m.tape[d] == 0 {
        assert(m1.ip == m.ip + 3 && m1.dp == m.dp && m1.tape == m.tape && m1.output == m.output);
        assert(fx is None && mx.dp == m.dp && mx.tape == m.tape && mx.output == m.output);
    } else {
        assert(m1.ip == m.ip + 1 && m1.tape == m.tape && m1.dp == m.dp && m1.ops == m.ops);
        if x is ScanRight {
            assert(s[1] == Instr::Right(1));
            lemma_scan_right_iter(m1, m.ip);
        } else {
            assert(s[1] == Instr::Left(1));
            lemma_scan_left_iter(m1, m.ip);
        }
    }
}

/// Law: where the optimizer folds a `Clear` (and the `Add` right after it, if
/// any) into one `Assign`, that `Assign` leaves the same tape, pointer and
/// output as the ops it replaces: `Clear` then `Add(n)` as `Assign(n)`, a lone
/// `Clear` as `Assign(0)`.
pub proof fn law_assign_is_clear_then_add(m: Machine)
    requires
        m.ip == 0,
        m.ops.len() >= 1,
        m.ops[0] == Instr::Clear,
        m.dp < m.tape.len(),
    ensures
        ({
            let a = assign_pass(m.ops)[0];
            let (ma, fa) = step_spec(Machine { ops: seq![a], ip: 0, ..m });
            let (m1, f1) = step_spec(m);
            let (m2, f2) = step_spec(m1);
            &&& a is Assign
            &&& fa is None && f1 is None
            &&& if m.ops.len() >= 2 && m.ops[1] is Add {
                f2 is None && ma.tape == m2.tape && ma.dp == m2.dp && ma.output == m2.output
            } else {
                ma.tape == m1.tape && ma.dp == m1.dp && ma.output == m1.output
            }
        }),
{
    let a = assign_pass(m.ops)[0];
    let mm = Machine { ops: seq![a], ip: 0, ..m };
    assert(mm.ops[0] == a);
    let (m1, f1) = step_spec(m);
    assert(m1.ip == 1 && m1.dp == m.dp && m1.ops == m.ops);
    let (ma, fa) = step_spec(mm);
    if m.ops.len() >= 2 && m.ops[1] is Add {
        let (m2, f2) = step_spec(m1);
        assert(ma.tape =~= m2.tape);
    } else {
        assert(ma.tape =~= m1.tape);
    }
}

} // verus!

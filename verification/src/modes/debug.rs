use vstd::prelude::*;

use super::directive_parser::{lemma_ws_end, ws_end};
use super::ir::Instr;
use super::interpreter::{
    fault_message, lemma_step_shape, machine_done, op_desc, step_spec, utf8_lossy, Fault, Interpreter, Machine,
    DEFAULT_TAPE_SIZE,
};
use super::lint::word_end;
use super::preprocess::{digits_value, trim, trimmed};
use super::source_map::{build_op_to_char_map, loc_text, Loc, SourceMap};
use crate::console::{Console, Tone};
use crate::error::{error_message, OgreError};
use crate::console::pieces_view;
use crate::text::{char_is_whitespace, chars_to_string, decimal, is_white, push_chars, push_str, push_u64, str_to_chars};

verus! {

// ---------------------------------------------------------------------------
// Reading command lines
// ---------------------------------------------------------------------------

/// The whitespace-separated words of `s` from position `i`
/// (`split_whitespace`).
pub open spec fn words_from(s: Seq<char>, i: int) -> Seq<Seq<char>>
    decreases s.len() - i,
{
    if i < 0 || i > s.len() {
        seq![]
    } else {
        let b = ws_end(s, i);
        if b >= s.len() || b < i {
            seq![]
        } else {
            proof {
                lemma_ws_end_stop(s, i);
                lemma_word_end(s, b);
            }
            let e = word_end(s, b);
            seq![s.subrange(b, e)] + words_from(s, e)
        }
    }
}

/// The whitespace-separated words of `s`.
pub open spec fn words(s: Seq<char>) -> Seq<Seq<char>> {
    words_from(s, 0)
}

pub proof fn lemma_word_end(s: Seq<char>, i: int)
    requires
        0 <= i < s.len(),
        !is_white(s[i]),
    ensures
        i < word_end(s, i) <= s.len(),
        forall|k: int| i <= k < word_end(s, i) ==> !is_white(#[trigger] s[k]),
    decreases s.len() - i,
{
    if i + 1 < s.len() && !is_white(s[i + 1]) {
        lemma_word_end(s, i + 1);
    } else {
        assert(word_end(s, i + 1) == i + 1);
    }
}

pub proof fn lemma_ws_end_stop(s: Seq<char>, i: int)
    requires
        0 <= i <= s.len(),
    ensures
        i <= ws_end(s, i) <= s.len(),
        ws_end(s, i) < s.len() ==> !is_white(s[ws_end(s, i)]),
    decreases s.len() - i,
{
    if i < s.len() && is_white(s[i]) {
        lemma_ws_end_stop(s, i + 1);
    }
}

/// Whether every character of `s` is an ASCII digit.
pub open spec fn all_digits(s: Seq<char>) -> bool {
    forall|k: int| 0 <= k < s.len() ==> '0' <= #[trigger] s[k] <= '9'
}

/// The number a text gives to `str::parse` for an unsigned integer: an
/// optional `+`, then one or more ASCII digits (the bound of the type is
/// checked by the caller).
pub open spec fn parsed_nat(s: Seq<char>) -> Option<nat> {
    let d = if s.len() > 0 && s[0] == '+' { s.skip(1) } else { s };
    if d.len() > 0 && all_digits(d) { Some(digits_value(d)) } else { None }
}

/// `str::parse::<usize>`.
pub open spec fn parsed_usize(s: Seq<char>) -> Option<usize> {
    match parsed_nat(s) {
        Some(n) => if n <= usize::MAX { Some(n as usize) } else { None },
        None => None,
    }
}

/// `str::parse::<u8>`.
pub open spec fn parsed_u8(s: Seq<char>) -> Option<u8> {
    match parsed_nat(s) {
        Some(n) => if n <= 255 { Some(n as u8) } else { None },
        None => None,
    }
}

proof fn lemma_digits_value_step(d: Seq<char>, k: int)
    requires
        0 <= k < d.len(),
    ensures
        digits_value(d.take(k + 1)) == digits_value(d.take(k)) * 10 + ((d[k] as u32) - ('0' as u32)) as nat,
{
    assert(d.take(k + 1).drop_last() =~= d.take(k));
    assert(d.take(k + 1).last() == d[k]);
}

proof fn lemma_digits_value_mono(d: Seq<char>, k: int)
    requires
        0 <= k <= d.len(),
        all_digits(d),
    ensures
        digits_value(d.take(k)) <= digits_value(d),
    decreases d.len() - k,
{
    if k < d.len() {
        lemma_digits_value_mono(d, k + 1);
        lemma_digits_value_step(d, k);
    } else {
        assert(d.take(k) =~= d);
    }
}

/// The value of a text of digits (and optional `+`), if it fits below `limit`.
fn parse_bounded(v: &Vec<char>, limit: u64) -> (r: Option<u64>)
    requires
        limit >= 9,
    ensures
        match parsed_nat(v@) {
            Some(n) => if n <= limit { r == Some(n as u64) } else { r is None },
            None => r is None,
        },
{
    let start: usize = if v.len() > 0 && v[0] == '+' { 1 } else { 0 };
    let ghost d = if v@.len() > 0 && v@[0] == '+' { v@.skip(1) } else { v@ };
    assert(d =~= v@.skip(start as int));
    if start >= v.len() {
        assert(d.len() == 0);
        return None;
    }
    let mut k: usize = start;
    let mut acc: u64 = 0;
    while k < v.len()
        invariant
            start <= k <= v@.len(),
            d == v@.skip(start as int),
            d == (if v@.len() > 0 && v@[0] == '+' { v@.skip(1) } else { v@ }),
            start < v@.len(),
            limit >= 9,
            acc <= limit,
            all_digits(d.take(k - start)),
            acc as nat == digits_value(d.take(k - start)),
        decreases v@.len() - k,
    {
        let c = v[k];
        if c < '0' || c > '9' {
            assert(d[k - start] == c);
            assert(!all_digits(d));
            return None;
        }
        let digit: u64 = (c as u64) - ('0' as u64);
        proof {
            lemma_digits_value_step(d, k - start);
            assert(all_digits(d.take(k - start + 1)));
        }
        if acc > (limit - digit) / 10 {
            proof {
                assert(digits_value(d.take(k - start + 1)) > limit) by (nonlinear_arith)
                    requires
                        acc > (limit - digit) / 10,
                        digits_value(d.take(k - start + 1)) == acc * 10 + digit,
                        digit <= 9,
                        limit >= 9;
                if all_digits(d) {
                    lemma_digits_value_mono(d, k - start + 1);
                }
            }
            return None;
        }
        proof {
            assert(acc * 10 + digit <= limit) by (nonlinear_arith)
                requires
                    acc <= (limit - digit) / 10,
                    digit <= 9,
                    limit >= 9;
        }
        acc = acc * 10 + digit;
        k += 1;
    }
    assert(d.take(k - start) =~= d);
    Some(acc)
}

fn split_words(s: &Vec<char>) -> (r: Vec<Vec<char>>)
    ensures
        r@.map_values(|w: Vec<char>| w@) == words(s@),
{
    let mut out: Vec<Vec<char>> = Vec::new();
    let mut i: usize = 0;
    loop
        invariant_except_break
            i <= s@.len(),
            out@.map_values(|w: Vec<char>| w@) + words_from(s@, i as int) == words(s@),
        ensures
            out@.map_values(|w: Vec<char>| w@) == words(s@),
        decreases s@.len() - i,
    {
        let ghost before = out@.map_values(|w: Vec<char>| w@);
        let mut b = i;
        while b < s.len() && char_is_whitespace(s[b])
            invariant
                i <= b <= s@.len(),
                ws_end(s@, i as int) == ws_end(s@, b as int),
            decreases s@.len() - b,
        {
            b += 1;
        }
        if b >= s.len() {
            assert(words_from(s@, i as int) =~= seq![]);
            assert(out@.map_values(|w: Vec<char>| w@) =~= words(s@));
            break;
        }
        proof {
            lemma_ws_end_stop(s@, i as int);
            lemma_word_end(s@, b as int);
        }
        let mut e = b;
        let mut w: Vec<char> = Vec::new();
        while e < s.len() && !char_is_whitespace(s[e])
            invariant
                b <= e <= s@.len(),
                word_end(s@, b as int) == word_end(s@, e as int),
                w@ == s@.subrange(b as int, e as int),
            decreases s@.len() - e,
        {
            w.push(s[e]);
            e += 1;
            assert(w@ =~= s@.subrange(b as int, e as int));
        }
        out.push(w);
        proof {
            assert(out@.map_values(|w: Vec<char>| w@) =~= before.push(s@.subrange(b as int, e as int)));
            assert(before + words_from(s@, i as int) == before + (seq![s@.subrange(b as int, e as int)] + words_from(
                s@,
                e as int,
            )));
            assert(before + (seq![s@.subrange(b as int, e as int)] + words_from(s@, e as int)) =~= before.push(
                s@.subrange(b as int, e as int),
            ) + words_from(s@, e as int));
        }
        i = e;
    }
    out
}

pub(crate) fn word_is(w: &Vec<char>, lit: &str) -> (r: bool)
    ensures
        r == (w@ == lit@),
{
    let l = str_to_chars(lit);
    if l.len() != w.len() {
        return false;
    }
    let mut k: usize = 0;
    while k < l.len()
        invariant
            l@ == lit@,
            l@.len() == w@.len(),
            k <= l@.len(),
            forall|j: int| 0 <= j < k ==> l@[j] == w@[j],
        decreases l@.len() - k,
    {
        if l[k] != w[k] {
            return false;
        }
        k += 1;
    }
    assert(l@ =~= w@);
    true
}

fn digits_only(w: &Vec<char>) -> (r: bool)
    ensures
        r == all_digits(w@),
{
    let mut k: usize = 0;
    while k < w.len()
        invariant
            k <= w@.len(),
            forall|j: int| 0 <= j < k ==> '0' <= #[trigger] w@[j] <= '9',
        decreases w@.len() - k,
    {
        if w[k] < '0' || w[k] > '9' {
            return false;
        }
        k += 1;
    }
    true
}

pub(crate) fn parse_usize(w: &Vec<char>) -> (r: Option<usize>)
    ensures
        r == parsed_usize(w@),
{
    match parse_bounded(w, usize::MAX as u64) {
        Some(n) => Some(n as usize),
        None => None,
    }
}

fn parse_u8(w: &Vec<char>) -> (r: Option<u8>)
    ensures
        r == parsed_u8(w@),
{
    match parse_bounded(w, 255) {
        Some(n) => Some(n as u8),
        None => None,
    }
}

// ---------------------------------------------------------------------------
// Commands
// ---------------------------------------------------------------------------

/// A condition of a conditional breakpoint on a cell's value.
#[derive(Clone, Copy, Debug, PartialEq, Eq, Structural)]
pub enum BreakCondition {
    Equals(u8),
    NotEquals(u8),
    GreaterThan(u8),
    LessThan(u8),
}

/// Whether a value meets a condition.
pub open spec fn cond_holds(c: BreakCondition, v: u8) -> bool {
    match c {
        BreakCondition::Equals(x) => v == x,
        BreakCondition::NotEquals(x) => v != x,
        BreakCondition::GreaterThan(x) => v > x,
        BreakCondition::LessThan(x) => v < x,
    }
}

/// How a condition is shown.
pub open spec fn cond_text(c: BreakCondition) -> Seq<char> {
    match c {
        BreakCondition::Equals(x) => "== "@ + decimal(x as nat),
        BreakCondition::NotEquals(x) => "!= "@ + decimal(x as nat),
        BreakCondition::GreaterThan(x) => "> "@ + decimal(x as nat),
        BreakCondition::LessThan(x) => "< "@ + decimal(x as nat),
    }
}

impl BreakCondition {
    /// Whether `value` meets the condition.
    pub fn matches(&self, value: u8) -> (r: bool)
        ensures
            r == cond_holds(*self, value),
    {
        match self {
            BreakCondition::Equals(v) => value == *v,
            BreakCondition::NotEquals(v) => value != *v,
            BreakCondition::GreaterThan(v) => value > *v,
            BreakCondition::LessThan(v) => value < *v,
        }
    }

    /// The condition as shown to the user.
    pub fn display(&self) -> (s: String)
        ensures
            s@ == cond_text(*self),
    {
        let mut v: Vec<char> = Vec::new();
        let x = match self {
            BreakCondition::Equals(x) => {
                push_str(&mut v, "== ");
                *x
            },
            BreakCondition::NotEquals(x) => {
                push_str(&mut v, "!= ");
                *x
            },
            BreakCondition::GreaterThan(x) => {
                push_str(&mut v, "> ");
                *x
            },
            BreakCondition::LessThan(x) => {
                push_str(&mut v, "< ");
                *x
            },
        };
        push_u64(&mut v, x as u64);
        chars_to_string(&v)
    }
}

/// A debugger command, read from a line.
#[derive(Clone, Copy, Debug, PartialEq, Eq, Structural)]
pub enum DebugCommand {
    Nothing,
    Quit,
    Help,
    Step(usize),
    Continue,
    Break(usize),
    BreakList,
    BreakDelete(usize),
    Jump(usize),
    /// The memory around a cell (the data pointer's when `None`).
    Peek(Option<usize>),
    /// An instruction with its neighbours (the current one when `None`).
    ShowInstruction(Option<usize>),
    ShowMemory,
    Where,
    CondBreak(usize, usize, BreakCondition),
    BadOpIndex,
    BadCellIndex,
    BadValue,
    BadCondition,
    CondBreakList,
    CondBreakDelete(usize),
    Watch(usize),
    WatchList,
    WatchDelete(usize),
    /// A breakpoint or watch number of digits too large for a `usize`.
    TooLarge,
    Unknown,
}

/// The command a line of words asks for.
pub open spec fn command_of(t: Seq<Seq<char>>) -> DebugCommand {
    let n = t.len();
    if n == 0 {
        DebugCommand::Nothing
    } else if n == 1 && (t[0] == "exit"@ || t[0] == "quit"@ || t[0] == "q"@) {
        DebugCommand::Quit
    } else if n == 1 && t[0] == "help"@ {
        DebugCommand::Help
    } else if n == 1 && t[0] == "step"@ {
        DebugCommand::Step(1)
    } else if n == 2 && t[0] == "step"@ {
        DebugCommand::Step(
            match parsed_usize(t[1]) {
                Some(k) => k,
                None => 1,
            },
        )
    } else if n == 1 && (t[0] == "continue"@ || t[0] == "c"@) {
        DebugCommand::Continue
    } else if n == 2 && t[0] == "breakpoint"@ && all_digits(t[1]) {
        match parsed_usize(t[1]) {
            Some(k) => DebugCommand::Break(k),
            None => DebugCommand::TooLarge,
        }
    } else if n == 2 && t[0] == "breakpoint"@ && t[1] == "list"@ {
        DebugCommand::BreakList
    } else if n == 3 && t[0] == "breakpoint"@ && t[1] == "delete"@ {
        DebugCommand::BreakDelete(
            match parsed_usize(t[2]) {
                Some(k) => k,
                None => usize::MAX,
            },
        )
    } else if n == 2 && t[0] == "jump"@ {
        DebugCommand::Jump(
            match parsed_usize(t[1]) {
                Some(k) => k,
                None => 0,
            },
        )
    } else if n == 1 && t[0] == "peek"@ {
        DebugCommand::Peek(None)
    } else if n == 2 && t[0] == "peek"@ {
        DebugCommand::Peek(parsed_usize(t[1]))
    } else if n == 2 && t[0] == "show"@ && t[1] == "instruction"@ {
        DebugCommand::ShowInstruction(None)
    } else if n == 3 && t[0] == "show"@ && t[1] == "instruction"@ {
        DebugCommand::ShowInstruction(parsed_usize(t[2]))
    } else if n == 2 && t[0] == "show"@ && t[1] == "memory"@ {
        DebugCommand::ShowMemory
    } else if n == 1 && t[0] == "where"@ {
        DebugCommand::Where
    } else if n == 5 && t[0] == "cbreak"@ {
        match parsed_usize(t[1]) {
            None => DebugCommand::BadOpIndex,
            Some(op) => match parsed_usize(t[2]) {
                None => DebugCommand::BadCellIndex,
                Some(cell) => match parsed_u8(t[4]) {
                    None => DebugCommand::BadValue,
                    Some(v) => if t[3] == "eq"@ {
                        DebugCommand::CondBreak(op, cell, BreakCondition::Equals(v))
                    } else if t[3] == "ne"@ {
                        DebugCommand::CondBreak(op, cell, BreakCondition::NotEquals(v))
                    } else if t[3] == "gt"@ {
                        DebugCommand::CondBreak(op, cell, BreakCondition::GreaterThan(v))
                    } else if t[3] == "lt"@ {
                        DebugCommand::CondBreak(op, cell, BreakCondition::LessThan(v))
                    } else {
                        DebugCommand::BadCondition
                    },
                },
            },
        }
    } else if n == 2 && t[0] == "cbreak"@ && t[1] == "list"@ {
        DebugCommand::CondBreakList
    } else if n == 3 && t[0] == "cbreak"@ && t[1] == "delete"@ {
        DebugCommand::CondBreakDelete(
            match parsed_usize(t[2]) {
                Some(k) => k,
                None => usize::MAX,
            },
        )
    } else if n == 2 && t[0] == "watch"@ && all_digits(t[1]) {
        match parsed_usize(t[1]) {
            Some(k) => DebugCommand::Watch(k),
            None => DebugCommand::TooLarge,
        }
    } else if n == 2 && t[0] == "watch"@ && t[1] == "list"@ {
        DebugCommand::WatchList
    } else if n == 3 && t[0] == "watch"@ && t[1] == "delete"@ {
        DebugCommand::WatchDelete(
            match parsed_usize(t[2]) {
                Some(k) => k,
                None => usize::MAX,
            },
        )
    } else {
        DebugCommand::Unknown
    }
}

fn usize_or(w: &Vec<char>, d: usize) -> (r: usize)
    ensures
        r == match parsed_usize(w@) {
            Some(k) => k,
            None => d,
        },
{
    match parse_usize(w) {
        Some(k) => k,
        None => d,
    }
}

/// Read a debugger command from a line.
pub fn parse_command(line: &str) -> (c: DebugCommand)
    ensures
        c == command_of(words(line@)),
{
    let chars = str_to_chars(line);
    command_from(&chars)
}

fn command_from(chars: &Vec<char>) -> (c: DebugCommand)
    ensures
        c == command_of(words(chars@)),
{
    let t = split_words(chars);
    let ghost tv = t@.map_values(|w: Vec<char>| w@);
    assert(forall|i: int| 0 <= i < t@.len() ==> tv[i] == t@[i]@);
    let n = t.len();
    if n == 0 {
        return DebugCommand::Nothing;
    }
    let w0 = &t[0];
    if n == 1 && (word_is(w0, "exit") || word_is(w0, "quit") || word_is(w0, "q")) {
        return DebugCommand::Quit;
    }
    if n == 1 && word_is(w0, "help") {
        return DebugCommand::Help;
    }
    if n == 1 && word_is(w0, "step") {
        return DebugCommand::Step(1);
    }
    if n == 2 && word_is(w0, "step") {
        return DebugCommand::Step(usize_or(&t[1], 1));
    }
    if n == 1 && (word_is(w0, "continue") || word_is(w0, "c")) {
        return DebugCommand::Continue;
    }
    if n == 2 && word_is(w0, "breakpoint") && digits_only(&t[1]) {
        return match parse_usize(&t[1]) {
            Some(k) => DebugCommand::Break(k),
            None => DebugCommand::TooLarge,
        };
    }
    if n == 2 && word_is(w0, "breakpoint") && word_is(&t[1], "list") {
        return DebugCommand::BreakList;
    }
    if n == 3 && word_is(w0, "breakpoint") && word_is(&t[1], "delete") {
        return DebugCommand::BreakDelete(usize_or(&t[2], usize::MAX));
    }
    if n == 2 && word_is(w0, "jump") {
        return DebugCommand::Jump(usize_or(&t[1], 0));
    }
    if n == 1 && word_is(w0, "peek") {
        return DebugCommand::Peek(None);
    }
    if n == 2 && word_is(w0, "peek") {
        return DebugCommand::Peek(parse_usize(&t[1]));
    }
    if n == 2 && word_is(w0, "show") && word_is(&t[1], "instruction") {
        return DebugCommand::ShowInstruction(None);
    }
    if n == 3 && word_is(w0, "show") && word_is(&t[1], "instruction") {
        return DebugCommand::ShowInstruction(parse_usize(&t[2]));
    }
    if n == 2 && word_is(w0, "show") && word_is(&t[1], "memory") {
        return DebugCommand::ShowMemory;
    }
    if n == 1 && word_is(w0, "where") {
        return DebugCommand::Where;
    }
    if n == 5 && word_is(w0, "cbreak") {
        let op = match parse_usize(&t[1]) {
            None => return DebugCommand::BadOpIndex,
            Some(v) => v,
        };
        let cell = match parse_usize(&t[2]) {
            None => return DebugCommand::BadCellIndex,
            Some(v) => v,
        };
        let value = match parse_u8(&t[4]) {
            None => return DebugCommand::BadValue,
            Some(v) => v,
        };
        let cond = &t[3];
        return if word_is(cond, "eq") {
            DebugCommand::CondBreak(op, cell, BreakCondition::Equals(value))
        } else if word_is(cond, "ne") {
            DebugCommand::CondBreak(op, cell, BreakCondition::NotEquals(value))
        } else if word_is(cond, "gt") {
            DebugCommand::CondBreak(op, cell, BreakCondition::GreaterThan(value))
        } else if word_is(cond, "lt") {
            DebugCommand::CondBreak(op, cell, BreakCondition::LessThan(value))
        } else {
            DebugCommand::BadCondition
        };
    }
    if n == 2 && word_is(w0, "cbreak") && word_is(&t[1], "list") {
        return DebugCommand::CondBreakList;
    }
    if n == 3 && word_is(w0, "cbreak") && word_is(&t[1], "delete") {
        return DebugCommand::CondBreakDelete(usize_or(&t[2], usize::MAX));
    }
    if n == 2 && word_is(w0, "watch") && digits_only(&t[1]) {
        return match parse_usize(&t[1]) {
            Some(k) => DebugCommand::Watch(k),
            None => DebugCommand::TooLarge,
        };
    }
    if n == 2 && word_is(w0, "watch") && word_is(&t[1], "list") {
        return DebugCommand::WatchList;
    }
    if n == 3 && word_is(w0, "watch") && word_is(&t[1], "delete") {
        return DebugCommand::WatchDelete(usize_or(&t[2], usize::MAX));
    }
    DebugCommand::Unknown
}

// ---------------------------------------------------------------------------
// The debugger
// ---------------------------------------------------------------------------

/// What the debugger is in the middle of: nothing, a number of steps still to
/// take, or running until something stops it.
#[derive(Clone, Copy, Debug, PartialEq, Eq, Structural)]
pub enum Pending {
    Idle,
    Steps(usize),
    Running,
}

#[derive(Clone, Copy)]
struct CondBreakpoint {
    op_index: usize,
    cell: usize,
    condition: BreakCondition,
}

#[derive(Clone, Copy)]
struct Watchpoint {
    cell: usize,
    last_value: u8,
}

/// An interactive debugger over an interpreter that reads its input live.
pub struct Debugger {
    interp: Interpreter,
    breakpoints: Vec<usize>,
    conds: Vec<CondBreakpoint>,
    watches: Vec<Watchpoint>,
    source_map: Option<SourceMap>,
    op_to_char: Vec<usize>,
    pending: Pending,
}

/// The state of a debugger.
#[verifier::ext_equal]
pub struct DebugView {
    pub m: Machine,
    /// The breakpoints, in increasing order.
    pub bps: Seq<usize>,
    /// The conditional breakpoints: op, cell and condition.
    pub conds: Seq<(usize, usize, BreakCondition)>,
    /// The watchpoints: cell and last value seen.
    pub watches: Seq<(usize, u8)>,
    pub locs: Option<Seq<Loc>>,
    pub op_to_char: Seq<usize>,
    pub pending: Pending,
}

/// What a reply to the user leaves the debugger doing.
pub enum Flow {
    /// Waiting for the next command.
    Ready,
    /// Waiting for a byte of input for the program.
    NeedsInput,
    Quit,
    /// Stopped by an error of the program.
    Failed(Seq<char>),
}

/// What the debugger answers: text for the console, and how it goes on.
pub struct Reply {
    pub pieces: Vec<(String, Tone)>,
    pub needs_input: bool,
    pub quit: bool,
    pub error: Option<OgreError>,
}

/// The flow a reply reports.
pub open spec fn reply_flow(r: Reply) -> Flow {
    match r.error {
        Some(e) => Flow::Failed(error_message(e)),
        None => if r.quit { Flow::Quit } else if r.needs_input { Flow::NeedsInput } else { Flow::Ready },
    }
}

spec fn conds_view(v: Seq<CondBreakpoint>) -> Seq<(usize, usize, BreakCondition)> {
    v.map_values(|c: CondBreakpoint| (c.op_index, c.cell, c.condition))
}

spec fn watches_view(v: Seq<Watchpoint>) -> Seq<(usize, u8)> {
    v.map_values(|w: Watchpoint| (w.cell, w.last_value))
}

/// Whether the values are in increasing order.
pub open spec fn increasing(s: Seq<usize>) -> bool {
    forall|i: int, j: int| 0 <= i < j < s.len() ==> s[i] < s[j]
}

impl View for Debugger {
    type V = DebugView;

    closed spec fn view(&self) -> DebugView {
        DebugView {
            m: self.interp@,
            bps: self.breakpoints@,
            conds: conds_view(self.conds@),
            watches: watches_view(self.watches@),
            locs: match self.source_map {
                Some(sm) => Some(sm@),
                None => None,
            },
            op_to_char: self.op_to_char@,
            pending: self.pending,
        }
    }
}

/// Whether a debugger state is consistent: the breakpoints in order, and the
/// cells of conditional breakpoints and watchpoints on the tape.
pub open spec fn view_ok(v: DebugView) -> bool {
    &&& increasing(v.bps)
    &&& forall|k: int| 0 <= k < v.conds.len() ==> #[trigger] v.conds[k].1 < v.m.tape.len()
    &&& forall|k: int| 0 <= k < v.watches.len() ==> #[trigger] v.watches[k].0 < v.m.tape.len()
    &&& v.m.dp < v.m.tape.len()
    &&& v.m.tape.len() <= isize::MAX
    &&& v.m.touched.len() == v.m.tape.len()
}

impl Debugger {
    pub closed spec fn wf(&self) -> bool {
        &&& self.interp.wf()
        &&& self.interp.is_live()
        &&& view_ok(self@)
    }

    fn build(interp: Interpreter, source: &str, source_map: Option<SourceMap>) -> (d: Self)
        requires
            interp.wf(),
            interp.is_live(),
            interp@.tape.len() <= isize::MAX,
        ensures
            d.wf(),
            d@.m == interp@,
            d@.bps.len() == 0 && d@.conds.len() == 0 && d@.watches.len() == 0,
            d@.pending == Pending::Idle,
            d@.op_to_char == super::source_map::op_starts(source@, source@.len() as int),
            d@.locs == match source_map {
                Some(sm) => Some(sm@),
                None => None::<Seq<Loc>>,
            },
    {
        let op_to_char = build_op_to_char_map(source);
        proof {
            interp.lemma_wf_pointer();
        }
        let d = Debugger {
            interp,
            breakpoints: Vec::new(),
            conds: Vec::new(),
            watches: Vec::new(),
            source_map,
            op_to_char,
            pending: Pending::Idle,
        };
        assert(conds_view(d.conds@) =~= seq![]);
        assert(watches_view(d.watches@) =~= seq![]);
        d
    }

    /// A debugger for a program, with the default tape size.
    pub fn new_live(source: &str) -> (r: Result<Self, OgreError>)
        ensures
            match r {
                Ok(d) => d.wf() && d@.m == super::interpreter::fresh_machine(
                    super::ir::parse_source(source@)->Ok_0,
                    Seq::empty(),
                    DEFAULT_TAPE_SIZE as nat,
                ) && d@.bps.len() == 0 && d@.conds.len() == 0 && d@.watches.len() == 0 && d@.pending
                    == Pending::Idle && d@.locs is None,
                Err(e) => super::ir::parse_source(source@) == Err::<Seq<super::ir::Instr>, OgreError>(e),
            },
    {
        let interp = Interpreter::with_live_stdin(source)?;
        Ok(Self::build(interp, source, None))
    }

    /// A debugger for a program, with a tape of `tape_size` cells.
    pub fn new_live_with_tape_size(source: &str, tape_size: usize) -> (r: Result<Self, OgreError>)
        requires
            0 < tape_size <= isize::MAX,
        ensures
            match r {
                Ok(d) => d.wf() && d@.m == super::interpreter::fresh_machine(
                    super::ir::parse_source(source@)->Ok_0,
                    Seq::empty(),
                    tape_size as nat,
                ) && d@.bps.len() == 0 && d@.conds.len() == 0 && d@.watches.len() == 0 && d@.pending
                    == Pending::Idle && d@.locs is None,
                Err(e) => super::ir::parse_source(source@) == Err::<Seq<super::ir::Instr>, OgreError>(e),
            },
    {
        let interp = Interpreter::with_live_stdin_and_tape_size(source, tape_size)?;
        Ok(Self::build(interp, source, None))
    }

    /// A debugger for a program with a source map, to show where each op
    /// came from.
    pub fn new_live_with_source_map(source: &str, tape_size: usize, source_map: SourceMap) -> (r: Result<
        Self,
        OgreError,
    >)
        requires
            0 < tape_size <= isize::MAX,
        ensures
            match r {
                Ok(d) => d.wf() && d@.m == super::interpreter::fresh_machine(
                    super::ir::parse_source(source@)->Ok_0,
                    Seq::empty(),
                    tape_size as nat,
                ) && d@.bps.len() == 0 && d@.conds.len() == 0 && d@.watches.len() == 0 && d@.pending
                    == Pending::Idle && d@.locs == Some(source_map@),
                Err(e) => super::ir::parse_source(source@) == Err::<Seq<super::ir::Instr>, OgreError>(e),
            },
    {
        let interp = Interpreter::with_live_stdin_and_tape_size(source, tape_size)?;
        Ok(Self::build(interp, source, Some(source_map)))
    }

    /// The state the debugger is in.
    pub fn pending(&self) -> (p: Pending)
        ensures
            p == self@.pending,
    {
        self.pending
    }

    /// The interpreter being debugged.
    pub fn interpreter(&self) -> (i: &Interpreter)
        ensures
            i@ == self@.m,
    {
        &self.interp
    }
}

// ---------------------------------------------------------------------------
// What the debugger shows
// ---------------------------------------------------------------------------

/// A piece of plain text.
pub open spec fn plain(t: Seq<char>) -> (Seq<char>, Tone) {
    (t, Tone::Plain)
}

/// The description of op `i`, or `END` past the program.
pub open spec fn desc_at(m: Machine, i: nat) -> Seq<char> {
    if i < m.ops.len() { op_desc(m.ops[i as int]) } else { "END"@ }
}

/// Where op `op` came from, when the debugger has a source map that knows.
pub open spec fn loc_at(v: DebugView, op: nat) -> Option<Seq<char>> {
    match v.locs {
        Some(ls) => if op < v.op_to_char.len() && v.op_to_char[op as int] < ls.len() {
            Some(loc_text(ls[v.op_to_char[op as int] as int]))
        } else {
            None
        },
        None => None,
    }
}

/// A cell of a memory window; the current one is marked.
pub open spec fn cell_piece(m: Machine, i: int) -> (Seq<char>, Tone) {
    if i == m.dp {
        (">"@ + decimal(i as nat) + ":"@ + decimal(m.tape[i] as nat) + "<"@, Tone::CyanBold)
    } else {
        plain(decimal(i as nat) + ":"@ + decimal(m.tape[i] as nat))
    }
}

/// The cells `start..k` of a memory window, two spaces apart.
pub open spec fn window_cells(m: Machine, start: int, k: int) -> Seq<(Seq<char>, Tone)>
    decreases k - start,
{
    if k <= start {
        seq![]
    } else {
        window_cells(m, start, k - 1) + (if k - 1 > start { seq![plain("  "@)] } else { seq![] }) + seq![
            cell_piece(m, k - 1),
        ]
    }
}

/// The memory from `radius` cells left of `center` to `radius` cells right.
pub open spec fn window_pieces(m: Machine, center: nat, radius: nat) -> Seq<(Seq<char>, Tone)> {
    let start: int = if center >= radius { center - radius } else { 0 };
    let end: int = if center + radius + 1 <= m.tape.len() { (center + radius + 1) as int } else { m.tape.len() as int };
    seq![plain("  tape: [ "@)] + window_cells(m, start, end) + seq![plain(" ]\n"@)]
}

/// The status line and the memory around the data pointer.
pub open spec fn status_pieces(v: DebugView) -> Seq<(Seq<char>, Tone)> {
    let m = v.m;
    seq![
        plain("  ip="@ + decimal(m.ip) + "  op="@),
        (desc_at(m, m.ip), Tone::YellowBold),
        plain("  dp="@ + decimal(m.dp) + "  val="@ + decimal(m.tape[m.dp as int] as nat)),
    ] + (match loc_at(v, m.ip) {
        Some(l) => seq![plain("  "@), (l, Tone::Dimmed)],
        None => seq![],
    }) + seq![plain("\n"@)] + window_pieces(m, m.dp, 3)
}

fn num_text(pre: &str, n: u64, post: &str) -> (s: String)
    ensures
        s@ == pre@ + decimal(n as nat) + post@,
{
    let mut v: Vec<char> = Vec::new();
    push_str(&mut v, pre);
    push_u64(&mut v, n);
    push_str(&mut v, post);
    chars_to_string(&v)
}

pub(crate) fn push_window(interp: &Interpreter, con: &mut Console, center: usize, radius: usize)
    requires
        center + radius + 1 <= usize::MAX,
        interp@.tape.len() <= isize::MAX,
    ensures
        final(con)@ == old(con)@ + window_pieces(interp@, center as nat, radius as nat),
{
    let w = interp.peek_window(center, radius);
    let ghost m = interp@;
    let ghost start: int = if center >= radius { center - radius } else { 0 };
    let ghost end: int = if center + radius + 1 <= m.tape.len() { (center + radius + 1) as int } else { m.tape.len() as int };
    let ghost base = con@;
    con.text("  tape: [ ");
    let ghost open = con@;
    let mut k: usize = 0;
    while k < w.len()
        invariant
            w@.len() == (if end > start { end - start } else { 0 }),
            forall|j: int| 0 <= j < w@.len() ==> #[trigger] w@[j] == ((start + j) as usize, m.tape[start + j], start + j == m.dp),
            k <= w@.len(),
            m == interp@,
            m.tape.len() <= isize::MAX,
            end <= m.tape.len(),
            0 <= start,
            con@ == open + window_cells(m, start, start + k),
        decreases w@.len() - k,
    {
        assert(w@[k as int] == ((start + k) as usize, m.tape[start + k], start + k == m.dp));
        assert(start + k < end);
        let (addr, val, here) = w[k];
        let ghost before = con@;
        if k > 0 {
            con.text("  ");
        }
        let mut t: Vec<char> = Vec::new();
        if here {
            t.push('>');
        }
        push_u64(&mut t, addr as u64);
        t.push(':');
        push_u64(&mut t, val as u64);
        if here {
            t.push('<');
            con.put(chars_to_string(&t), Tone::CyanBold);
        } else {
            con.put(chars_to_string(&t), Tone::Plain);
        }
        proof {
            reveal_strlit(">");
            reveal_strlit("<");
            reveal_strlit(":");
            assert(addr as int == start + k);
            assert(t@ =~= cell_piece(m, start + k).0);
            assert(con@ =~= open + window_cells(m, start, start + k + 1));
        }
        k += 1;
    }
    proof {
        if end <= start {
            assert(window_cells(m, start, start + k) == window_cells(m, start, end));
        }
    }
    con.text(" ]\n");
    assert(con@ =~= base + window_pieces(m, center as nat, radius as nat));
}

impl Debugger {
    fn location(&self, op: usize) -> (r: Option<String>)
        ensures
            match r {
                Some(s) => loc_at(self@, op as nat) == Some(s@),
                None => loc_at(self@, op as nat) is None,
            },
    {
        match &self.source_map {
            Some(sm) => match sm.lookup_op(op, self.op_to_char.as_slice()) {
                Some(l) => Some(l.display_short()),
                None => None,
            },
            None => None,
        }
    }

    fn window(&self, con: &mut Console, center: usize, radius: usize)
        requires
            center + radius + 1 <= usize::MAX,
            self@.m.tape.len() <= isize::MAX,
        ensures
            final(con)@ == old(con)@ + window_pieces(self@.m, center as nat, radius as nat),
    {
        push_window(&self.interp, con, center, radius);
    }

    fn status(&self, con: &mut Console)
        requires
            self.wf(),
        ensures
            final(con)@ == old(con)@ + status_pieces(self@),
    {
        let ghost base = con@;
        proof {
            self.interp.lemma_wf_pointer();
            assert(view_ok(self@));
        }
        let ip = self.interp.code_pointer();
        let desc = self.interp.op_description(ip);
        let dp = self.interp.data_pointer();
        let val = self.interp.tape_value(dp);
        let mut t: Vec<char> = Vec::new();
        push_str(&mut t, "  ip=");
        push_u64(&mut t, ip as u64);
        push_str(&mut t, "  op=");
        con.put(chars_to_string(&t), Tone::Plain);
        con.put(desc, Tone::YellowBold);
        let mut t: Vec<char> = Vec::new();
        push_str(&mut t, "  dp=");
        push_u64(&mut t, dp as u64);
        push_str(&mut t, "  val=");
        push_u64(&mut t, val as u64);
        con.put(chars_to_string(&t), Tone::Plain);
        match self.location(ip) {
            Some(l) => {
                con.text("  ");
                con.put(l, Tone::Dimmed);
            },
            None => {},
        }
        con.text("\n");
        self.window(con, dp, 3);
        assert(con@ =~= base + status_pieces(self@));
    }
}

// ---------------------------------------------------------------------------
// Running the program
// ---------------------------------------------------------------------------

/// Whether the program waits for a byte of input that has not come yet.
pub open spec fn wants_input(m: Machine) -> bool {
    !machine_done(m) && m.ops[m.ip as int] == Instr::Input && m.input_ptr >= m.input.len()
}

/// The pieces that show the program's new output, and the machine without it.
pub open spec fn flushed(m: Machine) -> (Seq<(Seq<char>, Tone)>, Machine) {
    if m.output.len() > 0 {
        (seq![plain(utf8_lossy(m.output))], Machine { output: Seq::empty(), ..m })
    } else {
        (seq![], m)
    }
}

/// The end of a run of steps: the status, or that the program finished.
pub open spec fn steps_end(v: DebugView) -> (DebugView, Seq<(Seq<char>, Tone)>, Flow) {
    (
        DebugView { pending: Pending::Idle, ..v },
        if !machine_done(v.m) { status_pieces(v) } else { seq![plain("Program finished.\n"@)] },
        Flow::Ready,
    )
}

/// Take up to `n` more steps, showing the program's output after each; stop
/// to wait for input, or at an error.
pub open spec fn steps_spec(v: DebugView, n: nat) -> (DebugView, Seq<(Seq<char>, Tone)>, Flow)
    decreases n,
{
    if n == 0 {
        steps_end(v)
    } else if machine_done(v.m) {
        let (v2, p, f) = steps_end(v);
        (v2, seq![plain("Program has ended.\n"@)] + p, f)
    } else if wants_input(v.m) {
        (DebugView { pending: Pending::Steps(n as usize), ..v }, seq![], Flow::NeedsInput)
    } else if v.m.count >= u64::MAX {
        (DebugView { pending: Pending::Idle, ..v }, seq![], Flow::Failed(fault_message(Fault::CounterExhausted)))
    } else {
        let (m2, fault) = step_spec(v.m);
        match fault {
            Some(f) => (DebugView { m: m2, pending: Pending::Idle, ..v }, seq![], Flow::Failed(fault_message(f))),
            None => {
                let (out, m3) = flushed(m2);
                let (v4, p4, f4) = steps_spec(DebugView { m: m3, ..v }, (n - 1) as nat);
                (v4, out + p4, f4)
            },
        }
    }
}

/// The first conditional breakpoint from `k` on at op `ip` whose condition
/// holds of its cell.
pub open spec fn cond_hit(conds: Seq<(usize, usize, BreakCondition)>, ip: nat, tape: Seq<u8>, k: int) -> Option<int>
    decreases conds.len() - k,
{
    if k < 0 || k >= conds.len() {
        None
    } else if conds[k].0 == ip && cond_holds(conds[k].2, tape[conds[k].1 as int]) {
        Some(k)
    } else {
        cond_hit(conds, ip, tape, k + 1)
    }
}

/// The watchpoints after a step, what they report, and whether any value
/// changed.
pub open spec fn watch_check(ws: Seq<(usize, u8)>, tape: Seq<u8>) -> (Seq<(usize, u8)>, Seq<(Seq<char>, Tone)>, bool)
    decreases ws.len(),
{
    if ws.len() == 0 {
        (seq![], seq![], false)
    } else {
        let (w2, p, h) = watch_check(ws.drop_last(), tape);
        let (c, last) = ws.last();
        let cur = tape[c as int];
        if cur != last {
            (
                w2.push((c, cur)),
                p + seq![
                    ("Watchpoint triggered"@, Tone::RedBold),
                    plain(" cell["@ + decimal(c as nat) + "] changed: "@ + decimal(last as nat) + " → "@ + decimal(cur as nat) + "\n"@),
                ],
                true,
            )
        } else {
            (w2.push((c, last)), p, h)
        }
    }
}

/// Where running stops before the next step: at the end of the program, at
/// a breakpoint, or at the first conditional breakpoint whose condition
/// holds; with what is shown there.
pub open spec fn stop_here(v: DebugView) -> Option<(DebugView, Seq<(Seq<char>, Tone)>)> {
    let idle = DebugView { pending: Pending::Idle, ..v };
    let ip = v.m.ip;
    if machine_done(v.m) {
        Some((idle, seq![plain("Program finished.\n"@)]))
    } else if v.bps.contains(ip as usize) {
        Some((idle, seq![("Hit breakpoint"@, Tone::RedBold), plain(" at "@ + decimal(ip) + ".\n"@)] + status_pieces(idle)))
    } else {
        match cond_hit(v.conds, ip, v.m.tape, 0) {
            Some(k) => {
                let (op, cell, c) = v.conds[k];
                Some((
                    idle,
                    seq![
                        ("Hit conditional breakpoint"@, Tone::RedBold),
                        plain(" at op "@ + decimal(ip) + " (cell["@ + decimal(cell as nat) + "]="@ + decimal(v.m.tape[cell as int] as nat) + " "@ + cond_text(c) + ")\n"@),
                    ] + status_pieces(idle),
                ))
            },
            None => None,
        }
    }
}

/// Run until the program ends, reaches a breakpoint or a conditional
/// breakpoint whose condition holds, or changes a watched cell; stop to wait
/// for input, or at an error.
pub open spec fn continue_spec(v: DebugView) -> (DebugView, Seq<(Seq<char>, Tone)>, Flow)
    decreases u64::MAX - v.m.count,
{
    match stop_here(v) {
        Some((v2, p)) => (v2, p, Flow::Ready),
        None => if wants_input(v.m) {
            (DebugView { pending: Pending::Running, ..v }, seq![], Flow::NeedsInput)
        } else if v.m.count >= u64::MAX {
            (DebugView { pending: Pending::Idle, ..v }, seq![], Flow::Failed(fault_message(Fault::CounterExhausted)))
        } else if machine_done(v.m) || !(v.m.dp < v.m.tape.len() && v.m.touched.len() == v.m.tape.len()) {
            (DebugView { pending: Pending::Idle, ..v }, seq![], Flow::Ready)
        } else {
            proof {
                lemma_step_shape(v.m);
            }
            let (m2, fault) = step_spec(v.m);
            match fault {
                Some(f) => (DebugView { m: m2, pending: Pending::Idle, ..v }, seq![], Flow::Failed(fault_message(f))),
                None => {
                    let (out, m3) = flushed(m2);
                    let (ws, wp, hit) = watch_check(v.watches, m3.tape);
                    let v2 = DebugView { m: m3, watches: ws, ..v };
                    if hit {
                        (DebugView { pending: Pending::Idle, ..v2 }, out + wp + status_pieces(v2), Flow::Ready)
                    } else {
                        let (v5, p5, f5) = continue_spec(v2);
                        (v5, out + p5, f5)
                    }
                },
            }
        },
    }
}

proof fn lemma_cond_hit(conds: Seq<(usize, usize, BreakCondition)>, ip: nat, tape: Seq<u8>, j: int)
    requires
        0 <= j,
    ensures
        cond_hit(conds, ip, tape, j) matches Some(k) ==> j <= k < conds.len(),
    decreases conds.len() - j,
{
    if j < conds.len() {
        lemma_cond_hit(conds, ip, tape, j + 1);
    }
}

enum RunEnd {
    Ready,
    NeedsInput,
    Failed(OgreError),
}

spec fn run_end_flow(r: RunEnd) -> Flow {
    match r {
        RunEnd::Ready => Flow::Ready,
        RunEnd::NeedsInput => Flow::NeedsInput,
        RunEnd::Failed(e) => Flow::Failed(error_message(e)),
    }
}

impl Debugger {
    /// Show and drop the program's new output.
    fn flush(&mut self, con: &mut Console)
        requires
            old(self).wf(),
        ensures
            final(self).wf(),
            final(con)@ == old(con)@ + flushed(old(self)@.m).0,
            final(self)@ == (DebugView { m: flushed(old(self)@.m).1, ..old(self)@ }),
    {
        if self.interp.output().len() > 0 {
            let o = self.interp.output_as_string();
            con.put(o, Tone::Plain);
            self.interp.clear_output();
            assert(self@ =~= (DebugView { m: flushed(old(self)@.m).1, ..old(self)@ }));
        }
    }

    fn take_step(&mut self) -> (r: Result<(), OgreError>)
        requires
            old(self).wf(),
            !machine_done(old(self)@.m),
            old(self)@.m.count < u64::MAX,
        ensures
            final(self)@ == (DebugView { m: step_spec(old(self)@.m).0, ..old(self)@ }),
            match step_spec(old(self)@.m).1 {
                None => r is Ok && final(self).wf(),
                Some(f) => r is Err && error_message(r->Err_0) == fault_message(f),
            },
    {
        proof {
            self.interp.lemma_wf_pointer();
            lemma_step_shape(self@.m);
        }
        let r = self.interp.step();
        proof {
            self.interp.lemma_wf_pointer();
        }
        assert(self@ =~= (DebugView { m: step_spec(old(self)@.m).0, ..old(self)@ }));
        match r {
            Ok(_) => Ok(()),
            Err(e) => Err(e),
        }
    }

    fn run_steps(&mut self, con: &mut Console, n: usize) -> (r: RunEnd)
        requires
            old(self).wf(),
        ensures
            ({
                let (v, p, f) = steps_spec(old(self)@, n as nat);
                &&& final(self)@ == v
                &&& final(con)@ == old(con)@ + p
                &&& run_end_flow(r) == f
                &&& f !is Failed ==> final(self).wf()
            }),
    {
        let ghost target = steps_spec(old(self)@, n as nat);
        let ghost base = con@;
        let mut left = n;
        loop
            invariant
                self.wf(),
                target == steps_spec(old(self)@, n as nat),
                base == old(con)@,
                steps_spec(self@, left as nat).0 == target.0,
                steps_spec(self@, left as nat).2 == target.2,
                con@ + steps_spec(self@, left as nat).1 == base + target.1,
            decreases left,
        {
            let ghost cur = self@;
            if left == 0 || self.interp.is_done() {
                if left != 0 {
                    con.text("Program has ended.\n");
                }
                let ghost before = con@;
                self.pending = Pending::Idle;
                if !self.interp.is_done() {
                    self.status(con);
                } else {
                    con.text("Program finished.\n");
                }
                proof {
                    assert(self@ =~= steps_spec(cur, left as nat).0);
                    assert(con@ =~= base + target.1);
                }
                return RunEnd::Ready;
            }
            if self.interp.needs_input() {
                self.pending = Pending::Steps(left);
                assert(self@ =~= steps_spec(cur, left as nat).0);
                assert(con@ =~= base + target.1);
                return RunEnd::NeedsInput;
            }
            if self.interp.instructions() == u64::MAX {
                self.pending = Pending::Idle;
                assert(self@ =~= steps_spec(cur, left as nat).0);
                assert(con@ =~= base + target.1);
                return RunEnd::Failed(OgreError::Timeout(u64::MAX));
            }
            let ghost before_step = self@;
            match self.take_step() {
                Err(e) => {
                    self.pending = Pending::Idle;
                    assert(self@ =~= steps_spec(cur, left as nat).0);
                    assert(con@ =~= base + target.1);
                    return RunEnd::Failed(e);
                },
                Ok(()) => {},
            }
            let ghost before_flush = con@;
            self.flush(con);
            proof {
                assert(before_flush + flushed(step_spec(before_step.m).0).0 + steps_spec(self@, (left - 1) as nat).1
                    =~= before_flush + (flushed(step_spec(before_step.m).0).0 + steps_spec(self@, (left - 1) as nat).1));
            }
            left = left - 1;
        }
    }
}

proof fn lemma_watch_check_quiet(ws: Seq<(usize, u8)>, tape: Seq<u8>)
    ensures
        !watch_check(ws, tape).2 ==> watch_check(ws, tape).1 == Seq::<(Seq<char>, Tone)>::empty(),
    decreases ws.len(),
{
    if ws.len() > 0 {
        lemma_watch_check_quiet(ws.drop_last(), tape);
    }
}

proof fn lemma_watch_check_len(ws: Seq<(usize, u8)>, tape: Seq<u8>)
    ensures
        watch_check(ws, tape).0.len() == ws.len(),
        forall|k: int| 0 <= k < ws.len() ==> (#[trigger] watch_check(ws, tape).0[k]).0 == ws[k].0,
    decreases ws.len(),
{
    if ws.len() > 0 {
        lemma_watch_check_len(ws.drop_last(), tape);
    }
}

impl Debugger {
    fn first_cond(&self) -> (r: Option<usize>)
        requires
            self.wf(),
        ensures
            match r {
                Some(k) => cond_hit(self@.conds, self@.m.ip, self@.m.tape, 0) == Some(k as int),
                None => cond_hit(self@.conds, self@.m.ip, self@.m.tape, 0) is None,
            },
    {
        let ip = self.interp.code_pointer();
        let mut k: usize = 0;
        while k < self.conds.len()
            invariant
                self.wf(),
                ip == self@.m.ip,
                k <= self.conds@.len(),
                cond_hit(self@.conds, ip as nat, self@.m.tape, 0) == cond_hit(self@.conds, ip as nat, self@.m.tape, k as int),
            decreases self.conds@.len() - k,
        {
            let cb = self.conds[k];
            assert(self@.conds[k as int] == (cb.op_index, cb.cell, cb.condition));
            assert(view_ok(self@));
            if cb.op_index == ip {
                let v = self.interp.tape_value(cb.cell);
                if cb.condition.matches(v) {
                    return Some(k);
                }
            }
            k += 1;
        }
        None
    }

    fn check_watches(&mut self, con: &mut Console) -> (hit: bool)
        requires
            old(self).wf(),
        ensures
            final(self).wf(),
            ({
                let (ws, p, h) = watch_check(old(self)@.watches, old(self)@.m.tape);
                &&& final(self)@ == (DebugView { watches: ws, ..old(self)@ })
                &&& final(con)@ == old(con)@ + p
                &&& hit == h
            }),
    {
        let ghost orig = self@.watches;
        let ghost tape = self@.m.tape;
        let ghost base = con@;
        let mut hit = false;
        let mut k: usize = 0;
        proof {
            lemma_watch_check_len(orig, tape);
            assert(view_ok(self@));
            assert forall|j: int| 0 <= j < orig.len() implies #[trigger] orig[j].0 < tape.len() by {
                assert(self@.watches[j].0 < self@.m.tape.len());
            }
            assert(watch_check(orig.take(0), tape).0 =~= seq![]);
            assert(self@.watches =~= watch_check(orig.take(0), tape).0 + orig.skip(0));
        }
        while k < self.watches.len()
            invariant
                self.wf(),
                orig == old(self)@.watches,
                tape == old(self)@.m.tape,
                base == old(con)@,
                self@ == (DebugView { watches: self@.watches, ..old(self)@ }),
                self@.watches.len() == orig.len(),
                k <= orig.len(),
                self@.watches == watch_check(orig.take(k as int), tape).0 + orig.skip(k as int),
                con@ == base + watch_check(orig.take(k as int), tape).1,
                hit == watch_check(orig.take(k as int), tape).2,
                forall|j: int| 0 <= j < orig.len() ==> #[trigger] self@.watches[j].0 == orig[j].0,
                forall|j: int| 0 <= j < orig.len() ==> #[trigger] orig[j].0 < tape.len(),
            decreases orig.len() - k,
        {
            let w = self.watches[k];
            assert(self@.watches[k as int] == (w.cell, w.last_value));
            proof {
                lemma_watch_check_len(orig.take(k as int), tape);
                assert(self@.watches[k as int] == orig[k as int]);
                assert(orig.take(k + 1).drop_last() =~= orig.take(k as int));
                assert(orig.take(k + 1).last() == orig[k as int]);
                assert(orig[k as int].0 < tape.len());
            }
            let cur = self.interp.tape_value(w.cell);
            if cur != w.last_value {
                con.put(String::from_str("Watchpoint triggered"), Tone::RedBold);
                let mut t: Vec<char> = Vec::new();
                push_str(&mut t, " cell[");
                push_u64(&mut t, w.cell as u64);
                push_str(&mut t, "] changed: ");
                push_u64(&mut t, w.last_value as u64);
                push_str(&mut t, " → ");
                push_u64(&mut t, cur as u64);
                push_str(&mut t, "\n");
                con.put(chars_to_string(&t), Tone::Plain);
                let ghost before = self.watches@;
                self.watches.set(k, Watchpoint { cell: w.cell, last_value: cur });
                assert(watches_view(self.watches@) =~= watches_view(before).update(k as int, (w.cell, cur)));
                hit = true;
            }
            proof {
                assert(self@.watches =~= watch_check(orig.take(k + 1), tape).0 + orig.skip(k + 1));
                assert(con@ =~= base + watch_check(orig.take(k + 1), tape).1);
                assert forall|j: int| 0 <= j < self@.watches.len() implies #[trigger] self@.watches[j].0 < self@.m.tape.len() by {
                    assert(self@.watches[j].0 == orig[j].0);
                    assert(orig[j].0 < tape.len());
                }
                assert(self@.m == old(self)@.m);
                assert(self@.bps == old(self)@.bps);
                assert(self@.conds == old(self)@.conds);
                assert(view_ok(old(self)@));
                assert(view_ok(self@));
            }
            k += 1;
        }
        assert(orig.take(k as int) =~= orig);
        assert(self@.watches =~= watch_check(orig, tape).0);
        assert(self@ =~= (DebugView { watches: watch_check(orig, tape).0, ..old(self)@ }));
        hit
    }
}

impl Debugger {
    fn has_breakpoint(&self, ip: usize) -> (r: bool)
        ensures
            r == self@.bps.contains(ip),
    {
        let mut k: usize = 0;
        while k < self.breakpoints.len()
            invariant
                k <= self@.bps.len(),
                forall|j: int| 0 <= j < k ==> self@.bps[j] != ip,
            decreases self@.bps.len() - k,
        {
            if self.breakpoints[k] == ip {
                assert(self@.bps[k as int] == ip);
                return true;
            }
            k += 1;
        }
        false
    }

    /// Stop before the next step where running has to: see `stop_here`.
    fn check_stop(&mut self, con: &mut Console) -> (stopped: bool)
        requires
            old(self).wf(),
        ensures
            final(self).wf(),
            match stop_here(old(self)@) {
                Some((v, p)) => stopped && final(self)@ == v && final(con)@ == old(con)@ + p,
                None => !stopped && final(self)@ == old(self)@ && final(con)@ == old(con)@,
            },
    {
        let ghost cur = self@;
        let ghost base = con@;
        if self.interp.is_done() {
            self.pending = Pending::Idle;
            con.text("Program finished.\n");
            assert(self@ =~= stop_here(cur)->Some_0.0);
            return true;
        }
        let ip = self.interp.code_pointer();
        if self.has_breakpoint(ip) {
            self.pending = Pending::Idle;
            con.put(String::from_str("Hit breakpoint"), Tone::RedBold);
            con.put(num_text(" at ", ip as u64, ".\n"), Tone::Plain);
            self.status(con);
            assert(self@ =~= stop_here(cur)->Some_0.0);
            assert(con@ =~= base + stop_here(cur)->Some_0.1);
            return true;
        }
        proof {
            lemma_cond_hit(self@.conds, self@.m.ip, self@.m.tape, 0);
        }
        match self.first_cond() {
            Some(k) => {
                let cb = self.conds[k];
                proof {
                    assert(self@.conds[k as int] == (cb.op_index, cb.cell, cb.condition));
                    assert(view_ok(self@));
                    assert(self@.conds[k as int].1 < self@.m.tape.len());
                }
                let v = self.interp.tape_value(cb.cell);
                self.pending = Pending::Idle;
                con.put(String::from_str("Hit conditional breakpoint"), Tone::RedBold);
                let mut t: Vec<char> = Vec::new();
                push_str(&mut t, " at op ");
                push_u64(&mut t, ip as u64);
                push_str(&mut t, " (cell[");
                push_u64(&mut t, cb.cell as u64);
                push_str(&mut t, "]=");
                push_u64(&mut t, v as u64);
                push_str(&mut t, " ");
                let d = cb.condition.display();
                push_str(&mut t, d.as_str());
                push_str(&mut t, ")\n");
                let ghost tv = t@;
                con.put(chars_to_string(&t), Tone::Plain);
                self.status(con);
                proof {
                    let (op, cell, c) = cur.conds[k as int];
                    assert(cell == cb.cell && c == cb.condition);
                    assert(tv =~= " at op "@ + decimal(cur.m.ip) + " (cell["@ + decimal(cell as nat) + "]="@
                        + decimal(cur.m.tape[cell as int] as nat) + " "@ + cond_text(c) + ")\n"@);
                    let idle = DebugView { pending: Pending::Idle, ..cur };
                    assert(self@ =~= idle);
                    assert(!machine_done(cur.m));
                    assert(!cur.bps.contains(cur.m.ip as usize));
                    assert(cond_hit(cur.conds, cur.m.ip, cur.m.tape, 0) == Some(k as int));
                    assert(con@ =~= base + (seq![("Hit conditional breakpoint"@, Tone::RedBold), plain(tv)] + status_pieces(idle)));
                }
                assert(self@ =~= stop_here(cur)->Some_0.0);
                assert(con@ =~= base + stop_here(cur)->Some_0.1);
                true
            },
            None => false,
        }
    }

    /// Take a step while running, show the output, and check the watchpoints.
    fn run_one(&mut self, con: &mut Console) -> (r: Result<bool, OgreError>)
        requires
            old(self).wf(),
            !machine_done(old(self)@.m),
            old(self)@.m.count < u64::MAX,
        ensures
            match step_spec(old(self)@.m).1 {
                Some(f) => r is Err && error_message(r->Err_0) == fault_message(f)
                    && final(self)@ == (DebugView { m: step_spec(old(self)@.m).0, ..old(self)@ })
                    && final(con)@ == old(con)@,
                None => {
                    let (out, m3) = flushed(step_spec(old(self)@.m).0);
                    let (ws, wp, hit) = watch_check(old(self)@.watches, m3.tape);
                    &&& final(self).wf()
                    &&& r == Ok::<bool, OgreError>(hit)
                    &&& final(self)@ == (DebugView { m: m3, watches: ws, ..old(self)@ })
                    &&& final(con)@ == old(con)@ + out + wp
                },
            },
    {
        self.take_step()?;
        self.flush(con);
        let hit = self.check_watches(con);
        Ok(hit)
    }

    #[verifier::rlimit(40)]
    fn run_continue(&mut self, con: &mut Console) -> (r: RunEnd)
        requires
            old(self).wf(),
        ensures
            ({
                let (v, p, f) = continue_spec(old(self)@);
                &&& final(self)@ == v
                &&& final(con)@ == old(con)@ + p
                &&& run_end_flow(r) == f
                &&& f !is Failed ==> final(self).wf()
            }),
    {
        let ghost target = continue_spec(old(self)@);
        let ghost base = con@;
        loop
            invariant
                self.wf(),
                target == continue_spec(old(self)@),
                base == old(con)@,
                continue_spec(self@).0 == target.0,
                continue_spec(self@).2 == target.2,
                con@ + continue_spec(self@).1 == base + target.1,
            decreases u64::MAX - self@.m.count,
        {
            let ghost cur = self@;
            let ghost c0 = con@;
            proof {
                self.interp.lemma_wf_pointer();
            }
            if self.check_stop(con) {
                assert(con@ =~= base + target.1);
                return RunEnd::Ready;
            }
            if self.interp.needs_input() {
                self.pending = Pending::Running;
                assert(self@ =~= continue_spec(cur).0);
                assert(con@ =~= base + target.1);
                return RunEnd::NeedsInput;
            }
            if self.interp.instructions() == u64::MAX {
                self.pending = Pending::Idle;
                assert(self@ =~= continue_spec(cur).0);
                assert(con@ =~= base + target.1);
                return RunEnd::Failed(OgreError::Timeout(u64::MAX));
            }
            proof {
                lemma_step_shape(cur.m);
            }
            match self.run_one(con) {
                Err(e) => {
                    self.pending = Pending::Idle;
                    assert(self@ =~= continue_spec(cur).0);
                    assert(con@ =~= base + target.1);
                    return RunEnd::Failed(e);
                },
                Ok(hit) => {
                    if hit {
                        self.pending = Pending::Idle;
                        self.status(con);
                        assert(self@ =~= continue_spec(cur).0);
                        assert(con@ =~= base + target.1);
                        return RunEnd::Ready;
                    }
                    proof {
                        let (out, m3) = flushed(step_spec(cur.m).0);
                        lemma_watch_check_quiet(cur.watches, m3.tape);
                        let wp = watch_check(cur.watches, m3.tape).1;
                        assert(wp =~= Seq::<(Seq<char>, Tone)>::empty());
                        assert(c0 + out + wp + continue_spec(self@).1 =~= c0 + (out + continue_spec(self@).1));
                    }
                },
            }
        }
    }
}

// ---------------------------------------------------------------------------
// The set of breakpoints
// ---------------------------------------------------------------------------

/// The first position from `i` on whose breakpoint is not below `k`.
pub open spec fn first_at_least(s: Seq<usize>, k: usize, i: int) -> int
    decreases s.len() - i,
{
    if 0 <= i < s.len() && s[i] < k {
        first_at_least(s, k, i + 1)
    } else {
        i
    }
}

/// The breakpoints with `k` among them, still in increasing order.
pub open spec fn with_breakpoint(s: Seq<usize>, k: usize) -> Seq<usize> {
    let i = first_at_least(s, k, 0);
    if i < s.len() && s[i] == k {
        s
    } else {
        s.insert(i, k)
    }
}

/// The breakpoints without `k`.
pub open spec fn without_breakpoint(s: Seq<usize>, k: usize) -> Seq<usize> {
    let i = first_at_least(s, k, 0);
    if i < s.len() && s[i] == k {
        s.remove(i)
    } else {
        s
    }
}

pub proof fn lemma_first_at_least(s: Seq<usize>, k: usize, i: int)
    requires
        0 <= i <= s.len(),
    ensures
        i <= first_at_least(s, k, i) <= s.len(),
        forall|j: int| i <= j < first_at_least(s, k, i) ==> #[trigger] s[j] < k,
        first_at_least(s, k, i) < s.len() ==> s[first_at_least(s, k, i)] >= k,
    decreases s.len() - i,
{
    if i < s.len() && s[i] < k {
        lemma_first_at_least(s, k, i + 1);
    }
}

/// The position from which `first_at_least` starts does not matter as long
/// as every breakpoint before the answer is below `k`.
proof fn lemma_first_at_least_is(s: Seq<usize>, k: usize, i: int, j: int)
    requires
        0 <= j <= i <= s.len(),
        forall|x: int| j <= x < i ==> #[trigger] s[x] < k,
        i < s.len() ==> s[i] >= k,
    ensures
        first_at_least(s, k, j) == i,
    decreases i - j,
{
    if j < i {
        lemma_first_at_least_is(s, k, i, j + 1);
    }
}

proof fn lemma_breakpoint_found(s: Seq<usize>, k: usize)
    requires
        increasing(s),
    ensures
        ({
            let i = first_at_least(s, k, 0);
            s.contains(k) <==> (i < s.len() && s[i] == k)
        }),
{
    let i = first_at_least(s, k, 0);
    lemma_first_at_least(s, k, 0);
    if s.contains(k) {
        let j = choose|j: int| 0 <= j < s.len() && s[j] == k;
        if j < i {
            assert(s[j] < k);
        } else if j > i {
            assert(s[i] < s[j]);
        }
    }
}

pub proof fn lemma_with_breakpoint(s: Seq<usize>, k: usize)
    requires
        increasing(s),
    ensures
        increasing(with_breakpoint(s, k)),
        forall|x: usize| with_breakpoint(s, k).contains(x) <==> (s.contains(x) || x == k),
{
    let i = first_at_least(s, k, 0);
    lemma_first_at_least(s, k, 0);
    lemma_breakpoint_found(s, k);
    if !(i < s.len() && s[i] == k) {
        let w = s.insert(i, k);
        assert forall|a: int, b: int| 0 <= a < b < w.len() implies w[a] < w[b] by {
            if b < i {
            } else if b == i {
                assert(w[a] == s[a]);
            } else if a < i {
                assert(w[b] == s[b - 1]);
                assert(s[a] < k);
                assert(s[i] >= k);
                if b - 1 > i {
                    assert(s[i] < s[b - 1]);
                }
            } else if a == i {
                assert(w[b] == s[b - 1]);
                if b - 1 > i {
                    assert(s[i] < s[b - 1]);
                }
            } else {
                assert(w[a] == s[a - 1] && w[b] == s[b - 1]);
            }
        }
        assert forall|x: usize| w.contains(x) <==> (s.contains(x) || x == k) by {
            if w.contains(x) {
                let j = choose|j: int| 0 <= j < w.len() && w[j] == x;
                if j < i {
                    assert(s[j] == x);
                } else if j > i {
                    assert(s[j - 1] == x);
                }
            }
            if s.contains(x) {
                let j = choose|j: int| 0 <= j < s.len() && s[j] == x;
                if j < i {
                    assert(w[j] == x);
                } else {
                    assert(w[j + 1] == x);
                }
            }
            if x == k {
                assert(w[i] == k);
            }
        }
    }
}

pub proof fn lemma_without_breakpoint(s: Seq<usize>, k: usize)
    requires
        increasing(s),
    ensures
        increasing(without_breakpoint(s, k)),
        forall|x: usize| without_breakpoint(s, k).contains(x) <==> (s.contains(x) && x != k),
{
    let i = first_at_least(s, k, 0);
    lemma_first_at_least(s, k, 0);
    lemma_breakpoint_found(s, k);
    if i < s.len() && s[i] == k {
        let w = s.remove(i);
        assert forall|a: int, b: int| 0 <= a < b < w.len() implies w[a] < w[b] by {
            if b < i {
            } else if a < i {
                assert(w[b] == s[b + 1]);
            } else {
                assert(w[a] == s[a + 1] && w[b] == s[b + 1]);
            }
        }
        assert forall|x: usize| w.contains(x) <==> (s.contains(x) && x != k) by {
            if w.contains(x) {
                let j = choose|j: int| 0 <= j < w.len() && w[j] == x;
                if j < i {
                    assert(s[j] == x);
                    assert(s[j] < s[i]);
                } else {
                    assert(s[j + 1] == x);
                    assert(s[i] < s[j + 1]);
                }
            }
            if s.contains(x) && x != k {
                let j = choose|j: int| 0 <= j < s.len() && s[j] == x;
                if j < i {
                    assert(w[j] == x);
                } else {
                    assert(j != i);
                    assert(w[j - 1] == x);
                }
            }
        }
    }
}

/// Setting a breakpoint that was not set and then deleting it leaves the
/// breakpoints as they were.
pub proof fn law_breakpoint_set_then_deleted(s: Seq<usize>, k: usize)
    requires
        increasing(s),
        !s.contains(k),
    ensures
        without_breakpoint(with_breakpoint(s, k), k) == s,
{
    let i = first_at_least(s, k, 0);
    lemma_first_at_least(s, k, 0);
    lemma_breakpoint_found(s, k);
    let w = s.insert(i, k);
    assert(with_breakpoint(s, k) == w);
    assert forall|x: int| 0 <= x < i implies #[trigger] w[x] < k by {
        assert(w[x] == s[x]);
    }
    lemma_first_at_least_is(w, k, i, 0);
    assert(w.remove(i) =~= s);
}

/// Deleting a breakpoint that was set and then setting it again leaves the
/// breakpoints as they were.
pub proof fn law_breakpoint_deleted_then_set(s: Seq<usize>, k: usize)
    requires
        increasing(s),
        s.contains(k),
    ensures
        with_breakpoint(without_breakpoint(s, k), k) == s,
{
    let i = first_at_least(s, k, 0);
    lemma_first_at_least(s, k, 0);
    lemma_breakpoint_found(s, k);
    let w = s.remove(i);
    assert(without_breakpoint(s, k) == w);
    assert forall|x: int| 0 <= x < i implies #[trigger] w[x] < k by {
        assert(w[x] == s[x]);
    }
    if i < w.len() {
        assert(w[i] == s[i + 1]);
        assert(s[i] < s[i + 1]);
    }
    lemma_first_at_least_is(w, k, i, 0);
    assert(w.insert(i, k) =~= s);
}

// ---------------------------------------------------------------------------
// What each command shows and does
// ---------------------------------------------------------------------------

/// The list of commands.
pub open spec fn help_text() -> Seq<char> {
    "Commands:\n  step [n]                     Execute 1 or n instructions\n  continue / c                 Run until breakpoint or end\n  breakpoint <n>               Set breakpoint at op index n\n  breakpoint list              List all breakpoints\n  breakpoint delete <n>        Remove breakpoint n\n  cbreak <op> <cell> <cond> <val>  Conditional breakpoint\n    conditions: eq, ne, gt, lt\n  cbreak list                  List conditional breakpoints\n  cbreak delete <n>            Remove conditional breakpoint n\n  watch <cell>                 Watch cell for value changes\n  watch list                   List watchpoints\n  watch delete <n>             Remove watchpoint n\n  jump <n>                     Move code pointer to n\n  peek [n]                     Show memory around ptr (or cell n)\n  show instruction [n]         Show current (or nth) instruction\n  show memory                  Dump memory cells\n  where                        Show current source location\n  exit / quit / q              Quit debugger\n"@
}

/// A line of a breakpoint listing.
pub open spec fn bp_line(v: DebugView, bp: usize) -> Seq<(Seq<char>, Tone)> {
    seq![plain("  "@), ("breakpoint"@, Tone::Red), plain(" "@ + decimal(bp as nat) + " → "@ + desc_at(v.m, bp as nat))]
        + (match loc_at(v, bp as nat) {
        Some(l) => if l.len() > 0 { seq![plain("  "@), (l, Tone::Dimmed)] } else { seq![] },
        None => seq![],
    }) + seq![plain("\n"@)]
}

/// The lines of the first `n` breakpoints.
pub open spec fn bp_lines(v: DebugView, n: int) -> Seq<(Seq<char>, Tone)>
    decreases n,
{
    if n <= 0 || n > v.bps.len() {
        seq![]
    } else {
        bp_lines(v, n - 1) + bp_line(v, v.bps[n - 1])
    }
}

/// The lines of the first `n` conditional breakpoints.
pub open spec fn cond_lines(cs: Seq<(usize, usize, BreakCondition)>, n: int) -> Seq<(Seq<char>, Tone)>
    decreases n,
{
    if n <= 0 || n > cs.len() {
        seq![]
    } else {
        let (op, cell, c) = cs[n - 1];
        cond_lines(cs, n - 1) + seq![
            plain("  #"@ + decimal((n - 1) as nat) + ": op "@ + decimal(op as nat) + " when cell["@ + decimal(cell as nat)
                + "] "@ + cond_text(c) + "\n"@),
        ]
    }
}

/// The lines of the first `n` watchpoints, with the current values of their
/// cells.
pub open spec fn watch_lines(ws: Seq<(usize, u8)>, tape: Seq<u8>, n: int) -> Seq<(Seq<char>, Tone)>
    decreases n,
{
    if n <= 0 || n > ws.len() {
        seq![]
    } else {
        let (cell, last) = ws[n - 1];
        watch_lines(ws, tape, n - 1) + seq![
            plain("  #"@ + decimal((n - 1) as nat) + ": cell["@ + decimal(cell as nat) + "] last="@ + decimal(last as nat)
                + " current="@ + decimal(tape[cell as int] as nat) + "\n"@),
        ]
    }
}

/// An op of the context shown around op `idx`; `idx` itself is marked.
pub open spec fn context_piece(m: Machine, idx: nat, i: int) -> (Seq<char>, Tone) {
    if i == idx {
        ("["@ + desc_at(m, i as nat) + "]"@, Tone::YellowBold)
    } else {
        plain(desc_at(m, i as nat))
    }
}

/// The ops `start..k` of the context around op `idx`, a space apart.
pub open spec fn context_pieces(m: Machine, idx: nat, start: int, k: int) -> Seq<(Seq<char>, Tone)>
    decreases k - start,
{
    if k <= start {
        seq![]
    } else {
        context_pieces(m, idx, start, k - 1) + (if k - 1 > start { seq![plain(" "@)] } else { seq![] }) + seq![
            context_piece(m, idx, k - 1),
        ]
    }
}

/// Op `idx` with up to three ops before it and three after it.
pub open spec fn instruction_pieces(v: DebugView, idx: nat) -> Seq<(Seq<char>, Tone)> {
    let m = v.m;
    if idx >= m.ops.len() {
        seq![("Index "@ + decimal(idx) + " out of range."@, Tone::Red), plain("\n"@)]
    } else {
        let start: int = if idx >= 3 { idx - 3 } else { 0 };
        let end: int = if idx + 4 <= m.ops.len() { (idx + 4) as int } else { m.ops.len() as int };
        seq![plain("  op "@ + decimal(idx) + ": "@), (desc_at(m, idx), Tone::YellowBold), plain(" (context: "@)]
            + context_pieces(m, idx, start, end) + seq![plain(")"@)] + (match loc_at(v, idx) {
            Some(l) => seq![plain("  "@), (l, Tone::Dimmed)],
            None => seq![],
        }) + seq![plain("\n"@)]
    }
}

/// Where the code pointer is in the source.
pub open spec fn where_pieces(v: DebugView) -> Seq<(Seq<char>, Tone)> {
    match loc_at(v, v.m.ip) {
        Some(l) => seq![plain("  "@ + decimal(v.m.ip) + " → "@ + l + "\n"@)],
        None => seq![plain("  ip="@ + decimal(v.m.ip) + " (no source map)\n"@)],
    }
}

/// A one-line plain answer.
pub open spec fn say(t: Seq<char>) -> Seq<(Seq<char>, Tone)> {
    seq![plain(t)]
}

/// What a command does to the debugger, what it shows, and how the debugger
/// goes on; `line` is the command line as typed, without surrounding
/// whitespace.
pub open spec fn command_effect(v: DebugView, c: DebugCommand, line: Seq<char>) -> (DebugView, Seq<(Seq<char>, Tone)>, Flow) {
    let m = v.m;
    match c {
        DebugCommand::Nothing => (v, seq![], Flow::Ready),
        DebugCommand::Quit => (v, say("Exiting debugger.\n"@), Flow::Quit),
        DebugCommand::Help => (v, say(help_text()), Flow::Ready),
        DebugCommand::Step(n) => steps_spec(v, n as nat),
        DebugCommand::Continue => continue_spec(v),
        DebugCommand::Break(k) => (
            DebugView { bps: with_breakpoint(v.bps, k), ..v },
            seq![("Breakpoint"@, Tone::RedBold), plain(" set at op "@ + decimal(k as nat) + " ("@ + desc_at(m, k as nat) + ")\n"@)],
            Flow::Ready,
        ),
        DebugCommand::BreakList => (
            v,
            if v.bps.len() == 0 { say("No breakpoints set.\n"@) } else { bp_lines(v, v.bps.len() as int) },
            Flow::Ready,
        ),
        DebugCommand::BreakDelete(k) => (
            DebugView { bps: without_breakpoint(v.bps, k), ..v },
            if v.bps.contains(k) {
                say("Breakpoint "@ + decimal(k as nat) + " removed.\n"@)
            } else {
                say("No breakpoint at "@ + decimal(k as nat) + ".\n"@)
            },
            Flow::Ready,
        ),
        DebugCommand::Jump(k) => if k <= m.ops.len() {
            let v2 = DebugView { m: Machine { ip: k as nat, ..m }, ..v };
            (v2, say("Jumped to op "@ + decimal(k as nat) + ".\n"@) + status_pieces(v2), Flow::Ready)
        } else {
            (v, say("Index "@ + decimal(k as nat) + " out of range (max "@ + decimal(m.ops.len()) + ").\n"@), Flow::Ready)
        },
        DebugCommand::Peek(p) => (
            v,
            window_pieces(m, match p { Some(x) => x as nat, None => m.dp }, 5),
            Flow::Ready,
        ),
        DebugCommand::ShowInstruction(p) => (
            v,
            instruction_pieces(v, match p { Some(x) => x as nat, None => m.ip }),
            Flow::Ready,
        ),
        DebugCommand::ShowMemory => (v, window_pieces(m, m.dp, 10), Flow::Ready),
        DebugCommand::Where => (v, where_pieces(v), Flow::Ready),
        DebugCommand::CondBreak(op, cell, cd) => (
            DebugView { conds: v.conds.push((op, cell, cd)), ..v },
            seq![
                ("Conditional breakpoint"@, Tone::RedBold),
                plain(" #"@ + decimal(v.conds.len()) + " set at op "@ + decimal(op as nat) + " when cell["@ + decimal(cell as nat)
                    + "] "@ + cond_text(cd) + "\n"@),
            ],
            Flow::Ready,
        ),
        DebugCommand::BadOpIndex => (v, say("Invalid op index.\n"@), Flow::Ready),
        DebugCommand::BadCellIndex => (v, say("Invalid cell index.\n"@), Flow::Ready),
        DebugCommand::BadValue => (v, say("Invalid value (0-255).\n"@), Flow::Ready),
        DebugCommand::BadCondition => (v, say("Unknown condition. Use: eq, ne, gt, lt\n"@), Flow::Ready),
        DebugCommand::CondBreakList => (
            v,
            if v.conds.len() == 0 { say("No conditional breakpoints set.\n"@) } else { cond_lines(v.conds, v.conds.len() as int) },
            Flow::Ready,
        ),
        DebugCommand::CondBreakDelete(k) => if k < v.conds.len() {
            (DebugView { conds: v.conds.remove(k as int), ..v }, say("Conditional breakpoint #"@ + decimal(k as nat) + " removed.\n"@), Flow::Ready)
        } else {
            (v, say("No conditional breakpoint #"@ + decimal(k as nat) + ".\n"@), Flow::Ready)
        },
        DebugCommand::Watch(cell) => {
            let cur = m.tape[cell as int];
            (
                DebugView { watches: v.watches.push((cell, cur)), ..v },
                seq![
                    ("Watchpoint"@, Tone::RedBold),
                    plain(" #"@ + decimal(v.watches.len()) + " on cell["@ + decimal(cell as nat) + "] (current value: "@
                        + decimal(cur as nat) + ")\n"@),
                ],
                Flow::Ready,
            )
        },
        DebugCommand::WatchList => (
            v,
            if v.watches.len() == 0 {
                say("No watchpoints set.\n"@)
            } else {
                watch_lines(v.watches, m.tape, v.watches.len() as int)
            },
            Flow::Ready,
        ),
        DebugCommand::WatchDelete(k) => if k < v.watches.len() {
            (DebugView { watches: v.watches.remove(k as int), ..v }, say("Watchpoint #"@ + decimal(k as nat) + " removed.\n"@), Flow::Ready)
        } else {
            (v, say("No watchpoint #"@ + decimal(k as nat) + ".\n"@), Flow::Ready)
        },
        DebugCommand::TooLarge => (v, seq![], Flow::Ready),
        DebugCommand::Unknown => (v, say("Unknown command: '"@ + line + "'. Type 'help' for commands.\n"@), Flow::Ready),
    }
}

/// The commands the debugger cannot carry out: a breakpoint or watchpoint
/// number too large for a `usize`, a watchpoint or conditional breakpoint on
/// a cell beyond the tape, and a memory window whose end is past `usize::MAX`.
pub open spec fn refused(v: DebugView, c: DebugCommand) -> bool {
    match c {
        DebugCommand::TooLarge => true,
        DebugCommand::Watch(cell) => cell >= v.m.tape.len(),
        DebugCommand::CondBreak(_, cell, _) => cell >= v.m.tape.len(),
        DebugCommand::Peek(Some(x)) => x + 6 > usize::MAX,
        _ => false,
    }
}

/// The command a line asks for.
pub open spec fn line_command(line: Seq<char>) -> DebugCommand {
    command_of(words(trim(line)))
}

impl Debugger {
    fn breakpoint_position(&self, k: usize) -> (i: usize)
        ensures
            i == first_at_least(self@.bps, k, 0),
    {
        let mut i: usize = 0;
        while i < self.breakpoints.len() && self.breakpoints[i] < k
            invariant
                i <= self@.bps.len(),
                first_at_least(self@.bps, k, 0) == first_at_least(self@.bps, k, i as int),
            decreases self@.bps.len() - i,
        {
            i += 1;
        }
        i
    }

    fn add_breakpoint(&mut self, k: usize)
        requires
            old(self).wf(),
        ensures
            final(self).wf(),
            final(self)@ == (DebugView { bps: with_breakpoint(old(self)@.bps, k), ..old(self)@ }),
    {
        let i = self.breakpoint_position(k);
        proof {
            lemma_first_at_least(self@.bps, k, 0);
            lemma_with_breakpoint(self@.bps, k);
        }
        if i < self.breakpoints.len() && self.breakpoints[i] == k {
            return;
        }
        self.breakpoints.insert(i, k);
        assert(self@ =~= (DebugView { bps: with_breakpoint(old(self)@.bps, k), ..old(self)@ }));
    }

    fn delete_breakpoint(&mut self, k: usize) -> (found: bool)
        requires
            old(self).wf(),
        ensures
            final(self).wf(),
            found == old(self)@.bps.contains(k),
            final(self)@ == (DebugView { bps: without_breakpoint(old(self)@.bps, k), ..old(self)@ }),
    {
        let i = self.breakpoint_position(k);
        proof {
            lemma_first_at_least(self@.bps, k, 0);
            lemma_without_breakpoint(self@.bps, k);
            lemma_breakpoint_found(self@.bps, k);
        }
        if i < self.breakpoints.len() && self.breakpoints[i] == k {
            self.breakpoints.remove(i);
            assert(self@ =~= (DebugView { bps: without_breakpoint(old(self)@.bps, k), ..old(self)@ }));
            return true;
        }
        false
    }

    fn list_breakpoints(&self, con: &mut Console)
        requires
            self.wf(),
        ensures
            final(con)@ == old(con)@ + if self@.bps.len() == 0 {
                say("No breakpoints set.\n"@)
            } else {
                bp_lines(self@, self@.bps.len() as int)
            },
    {
        if self.breakpoints.len() == 0 {
            con.text("No breakpoints set.\n");
            return;
        }
        let ghost base = con@;
        let mut k: usize = 0;
        while k < self.breakpoints.len()
            invariant
                self.wf(),
                k <= self@.bps.len(),
                con@ == base + bp_lines(self@, k as int),
            decreases self@.bps.len() - k,
        {
            let bp = self.breakpoints[k];
            let ghost before = con@;
            con.text("  ");
            con.put(String::from_str("breakpoint"), Tone::Red);
            let mut t: Vec<char> = Vec::new();
            push_str(&mut t, " ");
            push_u64(&mut t, bp as u64);
            push_str(&mut t, " → ");
            let d = self.interp.op_description(bp);
            push_str(&mut t, d.as_str());
            con.put(chars_to_string(&t), Tone::Plain);
            match self.location(bp) {
                Some(l) => {
                    if !l.as_str().is_empty() {
                        con.text("  ");
                        con.put(l, Tone::Dimmed);
                    }
                },
                None => {},
            }
            con.text("\n");
            proof {
                assert(self@.bps[k as int] == bp);
                assert(con@ =~= before + bp_line(self@, bp));
                assert(bp_lines(self@, k + 1) == bp_lines(self@, k as int) + bp_line(self@, self@.bps[k as int]));
                assert(con@ =~= base + bp_lines(self@, k + 1));
            }
            k += 1;
        }
    }
}

impl Debugger {
    fn add_cond(&mut self, con: &mut Console, op: usize, cell: usize, cd: BreakCondition)
        requires
            old(self).wf(),
            cell < old(self)@.m.tape.len(),
        ensures
            final(self).wf(),
            final(self)@ == command_effect(old(self)@, DebugCommand::CondBreak(op, cell, cd), seq![]).0,
            final(con)@ == old(con)@ + command_effect(old(self)@, DebugCommand::CondBreak(op, cell, cd), seq![]).1,
    {
        let ghost base = con@;
        let n = self.conds.len();
        con.put(String::from_str("Conditional breakpoint"), Tone::RedBold);
        let mut t: Vec<char> = Vec::new();
        push_str(&mut t, " #");
        push_u64(&mut t, n as u64);
        push_str(&mut t, " set at op ");
        push_u64(&mut t, op as u64);
        push_str(&mut t, " when cell[");
        push_u64(&mut t, cell as u64);
        push_str(&mut t, "] ");
        let d = cd.display();
        push_str(&mut t, d.as_str());
        push_str(&mut t, "\n");
        con.put(chars_to_string(&t), Tone::Plain);
        let ghost before = self.conds@;
        self.conds.push(CondBreakpoint { op_index: op, cell, condition: cd });
        proof {
            assert(conds_view(self.conds@) =~= conds_view(before).push((op, cell, cd)));
            assert(self@ =~= command_effect(old(self)@, DebugCommand::CondBreak(op, cell, cd), seq![]).0);
            assert(con@ =~= base + command_effect(old(self)@, DebugCommand::CondBreak(op, cell, cd), seq![]).1);
        }
    }

    fn list_conds(&self, con: &mut Console)
        requires
            self.wf(),
        ensures
            final(con)@ == old(con)@ + command_effect(self@, DebugCommand::CondBreakList, seq![]).1,
    {
        if self.conds.len() == 0 {
            con.text("No conditional breakpoints set.\n");
            return;
        }
        let ghost base = con@;
        let mut k: usize = 0;
        while k < self.conds.len()
            invariant
                self.wf(),
                k <= self@.conds.len(),
                con@ == base + cond_lines(self@.conds, k as int),
            decreases self@.conds.len() - k,
        {
            let cb = self.conds[k];
            let mut t: Vec<char> = Vec::new();
            push_str(&mut t, "  #");
            push_u64(&mut t, k as u64);
            push_str(&mut t, ": op ");
            push_u64(&mut t, cb.op_index as u64);
            push_str(&mut t, " when cell[");
            push_u64(&mut t, cb.cell as u64);
            push_str(&mut t, "] ");
            let d = cb.condition.display();
            push_str(&mut t, d.as_str());
            push_str(&mut t, "\n");
            con.put(chars_to_string(&t), Tone::Plain);
            proof {
                assert(self@.conds[k as int] == (cb.op_index, cb.cell, cb.condition));
                assert(con@ =~= base + cond_lines(self@.conds, k + 1));
            }
            k += 1;
        }
    }

    fn delete_cond(&mut self, con: &mut Console, k: usize)
        requires
            old(self).wf(),
        ensures
            final(self).wf(),
            final(self)@ == command_effect(old(self)@, DebugCommand::CondBreakDelete(k), seq![]).0,
            final(con)@ == old(con)@ + command_effect(old(self)@, DebugCommand::CondBreakDelete(k), seq![]).1,
    {
        if k < self.conds.len() {
            let ghost before = self.conds@;
            self.conds.remove(k);
            con.put(num_text("Conditional breakpoint #", k as u64, " removed.\n"), Tone::Plain);
            proof {
                assert(conds_view(self.conds@) =~= conds_view(before).remove(k as int));
                assert(self@ =~= command_effect(old(self)@, DebugCommand::CondBreakDelete(k), seq![]).0);
                assert(view_ok(old(self)@));
                assert forall|j: int| 0 <= j < self@.conds.len() implies #[trigger] self@.conds[j].1 < self@.m.tape.len() by {
                    if j < k {
                        assert(self@.conds[j] == old(self)@.conds[j]);
                    } else {
                        assert(self@.conds[j] == old(self)@.conds[j + 1]);
                    }
                }
            }
        } else {
            con.put(num_text("No conditional breakpoint #", k as u64, ".\n"), Tone::Plain);
        }
    }

    fn add_watch(&mut self, con: &mut Console, cell: usize)
        requires
            old(self).wf(),
            cell < old(self)@.m.tape.len(),
        ensures
            final(self).wf(),
            final(self)@ == command_effect(old(self)@, DebugCommand::Watch(cell), seq![]).0,
            final(con)@ == old(con)@ + command_effect(old(self)@, DebugCommand::Watch(cell), seq![]).1,
    {
        let ghost base = con@;
        let cur = self.interp.tape_value(cell);
        let n = self.watches.len();
        let ghost before = self.watches@;
        self.watches.push(Watchpoint { cell, last_value: cur });
        con.put(String::from_str("Watchpoint"), Tone::RedBold);
        let mut t: Vec<char> = Vec::new();
        push_str(&mut t, " #");
        push_u64(&mut t, n as u64);
        push_str(&mut t, " on cell[");
        push_u64(&mut t, cell as u64);
        push_str(&mut t, "] (current value: ");
        push_u64(&mut t, cur as u64);
        push_str(&mut t, ")\n");
        con.put(chars_to_string(&t), Tone::Plain);
        proof {
            assert(watches_view(self.watches@) =~= watches_view(before).push((cell, cur)));
            assert(self@ =~= command_effect(old(self)@, DebugCommand::Watch(cell), seq![]).0);
            assert(con@ =~= base + command_effect(old(self)@, DebugCommand::Watch(cell), seq![]).1);
        }
    }

    fn list_watches(&self, con: &mut Console)
        requires
            self.wf(),
        ensures
            final(con)@ == old(con)@ + command_effect(self@, DebugCommand::WatchList, seq![]).1,
    {
        if self.watches.len() == 0 {
            con.text("No watchpoints set.\n");
            return;
        }
        let ghost base = con@;
        let mut k: usize = 0;
        while k < self.watches.len()
            invariant
                self.wf(),
                k <= self@.watches.len(),
                con@ == base + watch_lines(self@.watches, self@.m.tape, k as int),
            decreases self@.watches.len() - k,
        {
            let w = self.watches[k];
            proof {
                assert(self@.watches[k as int] == (w.cell, w.last_value));
                assert(view_ok(self@));
                assert(self@.watches[k as int].0 < self@.m.tape.len());
            }
            let cur = self.interp.tape_value(w.cell);
            let mut t: Vec<char> = Vec::new();
            push_str(&mut t, "  #");
            push_u64(&mut t, k as u64);
            push_str(&mut t, ": cell[");
            push_u64(&mut t, w.cell as u64);
            push_str(&mut t, "] last=");
            push_u64(&mut t, w.last_value as u64);
            push_str(&mut t, " current=");
            push_u64(&mut t, cur as u64);
            push_str(&mut t, "\n");
            con.put(chars_to_string(&t), Tone::Plain);
            proof {
                assert(con@ =~= base + watch_lines(self@.watches, self@.m.tape, k + 1));
            }
            k += 1;
        }
    }

    fn delete_watch(&mut self, con: &mut Console, k: usize)
        requires
            old(self).wf(),
        ensures
            final(self).wf(),
            final(self)@ == command_effect(old(self)@, DebugCommand::WatchDelete(k), seq![]).0,
            final(con)@ == old(con)@ + command_effect(old(self)@, DebugCommand::WatchDelete(k), seq![]).1,
    {
        if k < self.watches.len() {
            let ghost before = self.watches@;
            self.watches.remove(k);
            con.put(num_text("Watchpoint #", k as u64, " removed.\n"), Tone::Plain);
            proof {
                assert(watches_view(self.watches@) =~= watches_view(before).remove(k as int));
                assert(self@ =~= command_effect(old(self)@, DebugCommand::WatchDelete(k), seq![]).0);
                assert(view_ok(old(self)@));
                assert forall|j: int| 0 <= j < self@.watches.len() implies #[trigger] self@.watches[j].0 < self@.m.tape.len() by {
                    if j < k {
                        assert(self@.watches[j] == old(self)@.watches[j]);
                    } else {
                        assert(self@.watches[j] == old(self)@.watches[j + 1]);
                    }
                }
            }
        } else {
            con.put(num_text("No watchpoint #", k as u64, ".\n"), Tone::Plain);
        }
    }
}

impl Debugger {
    #[verifier::rlimit(40)]
    fn show_instruction(&self, con: &mut Console, idx: usize)
        requires
            self.wf(),
        ensures
            final(con)@ == old(con)@ + instruction_pieces(self@, idx as nat),
    {
        let ghost m = self@.m;
        let ghost base = con@;
        let len = self.interp.code_len();
        if idx >= len {
            con.put(num_text("Index ", idx as u64, " out of range."), Tone::Red);
            con.text("\n");
            assert(con@ =~= base + instruction_pieces(self@, idx as nat));
            return;
        }
        let mut t: Vec<char> = Vec::new();
        push_str(&mut t, "  op ");
        push_u64(&mut t, idx as u64);
        push_str(&mut t, ": ");
        con.put(chars_to_string(&t), Tone::Plain);
        con.put(self.interp.op_description(idx), Tone::YellowBold);
        con.text(" (context: ");
        let ghost open = con@;
        let start: usize = if idx >= 3 { idx - 3 } else { 0 };
        let end: usize = if len - idx >= 4 { idx + 4 } else { len };
        let mut i: usize = start;
        while i < end
            invariant
                self.wf(),
                m == self@.m,
                start <= i <= end,
                end <= m.ops.len(),
                con@ == open + context_pieces(m, idx as nat, start as int, i as int),
            decreases end - i,
        {
            if i > start {
                con.text(" ");
            }
            let d = self.interp.op_description(i);
            if i == idx {
                let mut b: Vec<char> = Vec::new();
                b.push('[');
                push_str(&mut b, d.as_str());
                b.push(']');
                con.put(chars_to_string(&b), Tone::YellowBold);
                proof {
                    reveal_strlit("[");
                    reveal_strlit("]");
                    assert(b@ =~= "["@ + desc_at(m, i as nat) + "]"@);
                }
            } else {
                con.put(d, Tone::Plain);
            }
            assert(con@ =~= open + context_pieces(m, idx as nat, start as int, i + 1));
            i += 1;
        }
        con.text(")");
        match self.location(idx) {
            Some(l) => {
                con.text("  ");
                con.put(l, Tone::Dimmed);
            },
            None => {},
        }
        con.text("\n");
        assert(con@ =~= base + instruction_pieces(self@, idx as nat));
    }

    fn show_where(&self, con: &mut Console)
        ensures
            final(con)@ == old(con)@ + where_pieces(self@),
    {
        let ip = self.interp.code_pointer();
        let mut t: Vec<char> = Vec::new();
        match self.location(ip) {
            Some(l) => {
                push_str(&mut t, "  ");
                push_u64(&mut t, ip as u64);
                push_str(&mut t, " → ");
                push_str(&mut t, l.as_str());
                push_str(&mut t, "\n");
            },
            None => {
                push_str(&mut t, "  ip=");
                push_u64(&mut t, ip as u64);
                push_str(&mut t, " (no source map)\n");
            },
        }
        con.put(chars_to_string(&t), Tone::Plain);
    }
}

/// Where a run of steps or a continue that waited for input goes on.
pub open spec fn resume_effect(v: DebugView) -> (DebugView, Seq<(Seq<char>, Tone)>, Flow) {
    match v.pending {
        Pending::Steps(n) => steps_spec(v, n as nat),
        Pending::Running => continue_spec(v),
        Pending::Idle => (v, seq![], Flow::Ready),
    }
}

/// What the debugger shows when it starts.
pub open spec fn banner_pieces(v: DebugView) -> Seq<(Seq<char>, Tone)> {
    say("ogre debugger — type 'help' for commands\n"@) + (if v.locs is Some {
        say("  (source map loaded — showing file/line/function info)\n"@)
    } else {
        seq![]
    }) + status_pieces(v)
}

fn reply_of(con: Console, end: RunEnd) -> (r: Reply)
    ensures
        pieces_view(r.pieces@) == con@,
        reply_flow(r) == run_end_flow(end),
{
    match end {
        RunEnd::Ready => Reply { pieces: con.pieces, needs_input: false, quit: false, error: None },
        RunEnd::NeedsInput => Reply { pieces: con.pieces, needs_input: true, quit: false, error: None },
        RunEnd::Failed(e) => Reply { pieces: con.pieces, needs_input: false, quit: false, error: Some(e) },
    }
}

impl Debugger {
    /// What the debugger shows when it starts: its name, whether a source
    /// map is loaded, and the status.
    pub fn banner(&self) -> (r: Vec<(String, Tone)>)
        requires
            self.wf(),
        ensures
            pieces_view(r@) == banner_pieces(self@),
    {
        let mut con = Console::new();
        con.text("ogre debugger — type 'help' for commands\n");
        if self.source_map.is_some() {
            con.text("  (source map loaded — showing file/line/function info)\n");
        }
        self.status(&mut con);
        assert(con@ =~= banner_pieces(self@));
        con.pieces
    }

    /// Whether the debugger cannot carry out the command on `line`: see
    /// `refused`.
    pub fn refuses(&self, line: &str) -> (r: bool)
        ensures
            r == refused(self@, line_command(line@)),
    {
        let chars = str_to_chars(line);
        let t = trimmed(&chars);
        let c = command_from(&t);
        match c {
            DebugCommand::TooLarge => true,
            DebugCommand::Watch(cell) => cell >= self.interp.tape().len(),
            DebugCommand::CondBreak(_, cell, _) => cell >= self.interp.tape().len(),
            DebugCommand::Peek(Some(x)) => x > usize::MAX - 6,
            _ => false,
        }
    }

    /// Carry out the command on `line`.
    #[verifier::rlimit(60)]
    pub fn handle_line(&mut self, line: &str) -> (r: Reply)
        requires
            old(self).wf(),
            old(self)@.pending == Pending::Idle,
            !refused(old(self)@, line_command(line@)),
        ensures
            ({
                let (v, p, f) = command_effect(old(self)@, line_command(line@), trim(line@));
                &&& final(self)@ == v
                &&& pieces_view(r.pieces@) == p
                &&& reply_flow(r) == f
                &&& f !is Failed ==> final(self).wf()
            }),
    {
        let chars = str_to_chars(line);
        let t = trimmed(&chars);
        let c = command_from(&t);
        let mut con = Console::new();
        let ghost v0 = self@;
        proof {
            self.interp.lemma_wf_pointer();
        }
        match c {
            DebugCommand::Nothing => {},
            DebugCommand::Quit => {
                con.text("Exiting debugger.\n");
                return Reply { pieces: con.pieces, needs_input: false, quit: true, error: None };
            },
            DebugCommand::Help => {
                con.text("Commands:\n  step [n]                     Execute 1 or n instructions\n  continue / c                 Run until breakpoint or end\n  breakpoint <n>               Set breakpoint at op index n\n  breakpoint list              List all breakpoints\n  breakpoint delete <n>        Remove breakpoint n\n  cbreak <op> <cell> <cond> <val>  Conditional breakpoint\n    conditions: eq, ne, gt, lt\n  cbreak list                  List conditional breakpoints\n  cbreak delete <n>            Remove conditional breakpoint n\n  watch <cell>                 Watch cell for value changes\n  watch list                   List watchpoints\n  watch delete <n>             Remove watchpoint n\n  jump <n>                     Move code pointer to n\n  peek [n]                     Show memory around ptr (or cell n)\n  show instruction [n]         Show current (or nth) instruction\n  show memory                  Dump memory cells\n  where                        Show current source location\n  exit / quit / q              Quit debugger\n");
            },
            DebugCommand::Step(n) => {
                let end = self.run_steps(&mut con, n);
                return reply_of(con, end);
            },
            DebugCommand::Continue => {
                let end = self.run_continue(&mut con);
                return reply_of(con, end);
            },
            DebugCommand::Break(k) => {
                self.add_breakpoint(k);
                con.put(String::from_str("Breakpoint"), Tone::RedBold);
                let mut s: Vec<char> = Vec::new();
                push_str(&mut s, " set at op ");
                push_u64(&mut s, k as u64);
                push_str(&mut s, " (");
                let d = self.interp.op_description(k);
                push_str(&mut s, d.as_str());
                push_str(&mut s, ")\n");
                con.put(chars_to_string(&s), Tone::Plain);
            },
            DebugCommand::BreakList => {
                self.list_breakpoints(&mut con);
            },
            DebugCommand::BreakDelete(k) => {
                if self.delete_breakpoint(k) {
                    con.put(num_text("Breakpoint ", k as u64, " removed.\n"), Tone::Plain);
                } else {
                    con.put(num_text("No breakpoint at ", k as u64, ".\n"), Tone::Plain);
                }
            },
            DebugCommand::Jump(k) => {
                let len = self.interp.code_len();
                if k <= len {
                    self.interp.set_code_pointer(k);
                    con.put(num_text("Jumped to op ", k as u64, ".\n"), Tone::Plain);
                    assert(view_ok(self@));
                    self.status(&mut con);
                } else {
                    let mut s: Vec<char> = Vec::new();
                    push_str(&mut s, "Index ");
                    push_u64(&mut s, k as u64);
                    push_str(&mut s, " out of range (max ");
                    push_u64(&mut s, len as u64);
                    push_str(&mut s, ").\n");
                    con.put(chars_to_string(&s), Tone::Plain);
                }
            },
            DebugCommand::Peek(p) => {
                let center = match p {
                    Some(x) => x,
                    None => self.interp.data_pointer(),
                };
                self.window(&mut con, center, 5);
            },
            DebugCommand::ShowInstruction(p) => {
                let idx = match p {
                    Some(x) => x,
                    None => self.interp.code_pointer(),
                };
                self.show_instruction(&mut con, idx);
            },
            DebugCommand::ShowMemory => {
                let dp = self.interp.data_pointer();
                self.window(&mut con, dp, 10);
            },
            DebugCommand::Where => {
                self.show_where(&mut con);
            },
            DebugCommand::CondBreak(op, cell, cd) => {
                self.add_cond(&mut con, op, cell, cd);
            },
            DebugCommand::BadOpIndex => {
                con.text("Invalid op index.\n");
            },
            DebugCommand::BadCellIndex => {
                con.text("Invalid cell index.\n");
            },
            DebugCommand::BadValue => {
                con.text("Invalid value (0-255).\n");
            },
            DebugCommand::BadCondition => {
                con.text("Unknown condition. Use: eq, ne, gt, lt\n");
            },
            DebugCommand::CondBreakList => {
                self.list_conds(&mut con);
            },
            DebugCommand::CondBreakDelete(k) => {
                self.delete_cond(&mut con, k);
            },
            DebugCommand::Watch(cell) => {
                self.add_watch(&mut con, cell);
            },
            DebugCommand::WatchList => {
                self.list_watches(&mut con);
            },
            DebugCommand::WatchDelete(k) => {
                self.delete_watch(&mut con, k);
            },
            DebugCommand::TooLarge => {},
            DebugCommand::Unknown => {
                let mut s: Vec<char> = Vec::new();
                push_str(&mut s, "Unknown command: '");
                push_chars(&mut s, &t);
                push_str(&mut s, "'. Type 'help' for commands.\n");
                con.put(chars_to_string(&s), Tone::Plain);
            },
        }
        assert(self@ =~= command_effect(v0, c, t@).0);
        assert(con@ =~= command_effect(v0, c, t@).1);
        Reply { pieces: con.pieces, needs_input: false, quit: false, error: None }
    }

    /// Hand the program the byte it waits for, and go on with what was
    /// pending.
    pub fn supply_input(&mut self, byte: u8) -> (r: Reply)
        requires
            old(self).wf(),
        ensures
            ({
                let v1 = DebugView { m: Machine { input: old(self)@.m.input.push(byte), ..old(self)@.m }, ..old(self)@ };
                let (v, p, f) = resume_effect(v1);
                &&& final(self)@ == v
                &&& pieces_view(r.pieces@) == p
                &&& reply_flow(r) == f
                &&& f !is Failed ==> final(self).wf()
            }),
    {
        self.interp.push_input(byte);
        let mut con = Console::new();
        proof {
            self.interp.lemma_wf_pointer();
            assert(view_ok(self@));
        }
        match self.pending {
            Pending::Steps(n) => {
                let end = self.run_steps(&mut con, n);
                reply_of(con, end)
            },
            Pending::Running => {
                let end = self.run_continue(&mut con);
                reply_of(con, end)
            },
            Pending::Idle => Reply { pieces: con.pieces, needs_input: false, quit: false, error: None },
        }
    }
}

/// `breakpoint N` on an op without a breakpoint, then `breakpoint delete N`,
/// leaves the debugger as it was.
pub proof fn law_break_then_delete_restores(v: DebugView, k: usize, l1: Seq<char>, l2: Seq<char>)
    requires
        view_ok(v),
        !v.bps.contains(k),
    ensures
        command_effect(command_effect(v, DebugCommand::Break(k), l1).0, DebugCommand::BreakDelete(k), l2).0 == v,
{
    law_breakpoint_set_then_deleted(v.bps, k);
}

/// A conditional breakpoint added and then deleted by its number leaves the
/// debugger as it was.
pub proof fn law_cbreak_then_delete_restores(
    v: DebugView,
    op: usize,
    cell: usize,
    c: BreakCondition,
    l1: Seq<char>,
    l2: Seq<char>,
)
    requires
        v.conds.len() < usize::MAX,
    ensures
        command_effect(
            command_effect(v, DebugCommand::CondBreak(op, cell, c), l1).0,
            DebugCommand::CondBreakDelete(v.conds.len() as usize),
            l2,
        ).0 == v,
{
    let v1 = command_effect(v, DebugCommand::CondBreak(op, cell, c), l1).0;
    assert(v1.conds.remove(v.conds.len() as int) =~= v.conds);
    assert(command_effect(v1, DebugCommand::CondBreakDelete(v.conds.len() as usize), l2).0 =~= v);
}

/// A watchpoint added and then deleted by its number leaves the debugger as
/// it was.
pub proof fn law_watch_then_delete_restores(v: DebugView, cell: usize, l1: Seq<char>, l2: Seq<char>)
    requires
        v.watches.len() < usize::MAX,
    ensures
        command_effect(
            command_effect(v, DebugCommand::Watch(cell), l1).0,
            DebugCommand::WatchDelete(v.watches.len() as usize),
            l2,
        ).0 == v,
{
    let v1 = command_effect(v, DebugCommand::Watch(cell), l1).0;
    assert(v1.watches.remove(v.watches.len() as int) =~= v.watches);
    assert(command_effect(v1, DebugCommand::WatchDelete(v.watches.len() as usize), l2).0 =~= v);
}

/// Commands that only look leave the debugger unchanged.
pub proof fn law_looking_changes_nothing(v: DebugView, c: DebugCommand, l: Seq<char>)
    requires
        c is BreakList || c is CondBreakList || c is WatchList || c is Peek || c is ShowInstruction
            || c is ShowMemory || c is Where || c is Help || c is Nothing || c is Unknown,
    ensures
        command_effect(v, c, l).0 == v,
        command_effect(v, c, l).2 == Flow::Ready,
{
}

} // verus!

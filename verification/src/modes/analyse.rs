use vstd::prelude::*;

use super::ir::{
    Instr, Op, Program, instrs, lemma_parse_moves, lemma_parse_prefix_inv, lemma_parse_prefix_moves, move_amount, lemma_total_moves_split, optimize_spec,
    parse_inv, parse_prefix, parse_source, total_moves,
};
use crate::error::error_message;
use crate::console::{pieces_view, Tone};
use crate::text::{chars_to_string, decimal, is_bf_char, push_i64, push_str, push_usize, signed_decimal, str_to_chars};

verus! {

/// What the static analysis finds in a program.
pub struct AnalysisReport {
    pub bracket_errors: Vec<String>,
    pub total_inputs: usize,
    pub total_outputs: usize,
    /// None if loops prevent static analysis.
    pub ptr_end_offset: Option<i64>,
    pub has_clear_idiom: bool,
    pub clear_idiom_count: usize,
    pub has_dead_code: bool,
    pub dead_code_positions: Vec<usize>,
    pub has_cancellation: bool,
    pub cancellation_positions: Vec<usize>,
    pub unbalanced_pointer: bool,
    pub max_loop_depth: usize,
    pub total_ops: usize,
    pub optimized_ops: usize,
}

/// The value of an [`AnalysisReport`].
pub struct AnalysisView {
    pub bracket_errors: Seq<Seq<char>>,
    pub total_inputs: nat,
    pub total_outputs: nat,
    pub ptr_end_offset: Option<int>,
    pub has_clear_idiom: bool,
    pub clear_idiom_count: nat,
    pub has_dead_code: bool,
    pub dead_code_positions: Seq<usize>,
    pub has_cancellation: bool,
    pub cancellation_positions: Seq<usize>,
    pub unbalanced_pointer: bool,
    pub max_loop_depth: nat,
    pub total_ops: nat,
    pub optimized_ops: nat,
}

impl View for AnalysisReport {
    type V = AnalysisView;

    open spec fn view(&self) -> AnalysisView {
        AnalysisView {
            bracket_errors: self.bracket_errors@.map_values(|s: String| s@),
            total_inputs: self.total_inputs as nat,
            total_outputs: self.total_outputs as nat,
            ptr_end_offset: match self.ptr_end_offset {
                Some(o) => Some(o as int),
                None => None,
            },
            has_clear_idiom: self.has_clear_idiom,
            clear_idiom_count: self.clear_idiom_count as nat,
            has_dead_code: self.has_dead_code,
            dead_code_positions: self.dead_code_positions@,
            has_cancellation: self.has_cancellation,
            cancellation_positions: self.cancellation_positions@,
            unbalanced_pointer: self.unbalanced_pointer,
            max_loop_depth: self.max_loop_depth as nat,
            total_ops: self.total_ops as nat,
            optimized_ops: self.optimized_ops as nat,
        }
    }
}

/// Inputs, outputs, pointer offset, and whether a loop made the offset unknown,
/// over a sequence of instructions.
pub open spec fn ops_io(ops: Seq<Instr>) -> (nat, nat, int, bool)
    decreases ops.len(),
{
    if ops.len() == 0 {
        (0, 0, 0, false)
    } else {
        let (i, o, p, ind) = ops_io(ops.drop_last());
        match ops.last() {
            Instr::Input => (i + 1, o, p, ind),
            Instr::Output => (i, o + 1, p, ind),
            Instr::Right(n) => if !ind { (i, o, p + n, ind) } else { (i, o, p, ind) },
            Instr::Left(n) => if !ind { (i, o, p - n, ind) } else { (i, o, p, ind) },
            Instr::JumpIfZero(_) => (i, o, p, true),
            Instr::JumpIfNonZero(_) => (i, o, p, true),
            _ => (i, o, p, ind),
        }
    }
}

/// The same counts over raw source characters.
pub open spec fn chars_io(s: Seq<char>) -> (nat, nat, int, bool)
    decreases s.len(),
{
    if s.len() == 0 {
        (0, 0, 0, false)
    } else {
        let (i, o, p, ind) = chars_io(s.drop_last());
        let c = s.last();
        if c == ',' {
            (i + 1, o, p, ind)
        } else if c == '.' {
            (i, o + 1, p, ind)
        } else if c == '>' && !ind {
            (i, o, p + 1, ind)
        } else if c == '<' && !ind {
            (i, o, p - 1, ind)
        } else if c == '[' || c == ']' {
            (i, o, p, true)
        } else {
            (i, o, p, ind)
        }
    }
}

/// The number of `[-]` and `[+]` in a text.
pub open spec fn clear_count(s: Seq<char>) -> nat
    decreases s.len(),
{
    if s.len() < 3 {
        0
    } else {
        let n = s.len() as int;
        clear_count(s.drop_last()) + if s[n - 3] == '[' && (s[n - 2] == '-' || s[n - 2] == '+') && s[n - 1] == ']' {
            1nat
        } else {
            0nat
        }
    }
}

pub open spec fn is_move_char(c: char) -> bool {
    c == '+' || c == '-' || c == '>' || c == '<'
}

/// The last brainfuck command before position `n`, with its position
/// (comment characters are skipped).
pub open spec fn last_command(s: Seq<char>, n: int) -> Option<(int, char)>
    decreases n,
{
    if n <= 0 || n > s.len() {
        None
    } else if is_bf_char(s[n - 1]) {
        Some((n - 1, s[n - 1]))
    } else {
        last_command(s, n - 1)
    }
}

/// Whether two adjacent moves undo each other.
pub open spec fn cancels(a: char, b: char) -> bool {
    (a == '+' && b == '-') || (a == '-' && b == '+') || (a == '>' && b == '<') || (a == '<' && b == '>')
}

/// The positions of the first character of each cancelling pair of `s[..n]`:
/// two moves that undo each other with no other command between them
/// (comment characters are skipped; `.`, `,`, `[` and `]` separate).
pub open spec fn cancel_positions(s: Seq<char>, n: int) -> Seq<usize>
    decreases n,
{
    if n <= 0 || n > s.len() {
        Seq::empty()
    } else {
        let rest = cancel_positions(s, n - 1);
        let c = s[n - 1];
        if is_move_char(c) {
            match last_command(s, n - 1) {
                Some((j, p)) => if cancels(p, c) { rest.push(j as usize) } else { rest },
                None => rest,
            }
        } else {
            rest
        }
    }
}

/// The brainfuck commands of `s[..n]` with their positions.
pub open spec fn commands(s: Seq<char>, n: int) -> Seq<(int, char)>
    decreases n,
{
    if n <= 0 || n > s.len() {
        Seq::empty()
    } else if is_bf_char(s[n - 1]) {
        commands(s, n - 1).push((n - 1, s[n - 1]))
    } else {
        commands(s, n - 1)
    }
}

/// The index of the `]` that closes the loop read from command `i` at `depth`.
pub open spec fn close_index(cmds: Seq<(int, char)>, i: int, depth: int) -> Option<int>
    decreases cmds.len() - i,
{
    if i < 0 || i >= cmds.len() {
        None
    } else if cmds[i].1 == '[' {
        close_index(cmds, i + 1, depth + 1)
    } else if cmds[i].1 == ']' {
        if depth - 1 == 0 { Some(i) } else { close_index(cmds, i + 1, depth - 1) }
    } else {
        close_index(cmds, i + 1, depth)
    }
}

/// Code after a loop that is always entered (`+[` at the start) and never left.
pub open spec fn dead_positions(s: Seq<char>) -> Seq<usize> {
    let cmds = commands(s, s.len() as int);
    if cmds.len() >= 2 && cmds[0].1 == '+' && cmds[1].1 == '[' {
        match close_index(cmds, 1, 0) {
            Some(ci) => if ci + 1 < cmds.len() { seq![cmds[ci + 1].0 as usize] } else { Seq::empty() },
            None => Seq::empty(),
        }
    } else {
        Seq::empty()
    }
}

/// The deepest nesting of `[` in a text (unmatched `]` are ignored), and the
/// depth at its end.
pub open spec fn depth_scan(s: Seq<char>) -> (nat, nat)
    decreases s.len(),
{
    if s.len() == 0 {
        (0, 0)
    } else {
        let (mx, d) = depth_scan(s.drop_last());
        let c = s.last();
        if c == '[' {
            (if d + 1 > mx { d + 1 } else { mx }, d + 1)
        } else if c == ']' {
            (mx, if d > 0 { (d - 1) as nat } else { 0 })
        } else {
            (mx, d)
        }
    }
}

/// The number of brainfuck commands in a text.
pub open spec fn command_count(s: Seq<char>) -> nat {
    s.filter(|c: char| is_bf_char(c)).len()
}

/// The full report for a source text.
pub open spec fn analysis(code: Seq<char>) -> AnalysisView {
    let parsed = parse_source(code);
    let (inputs, outputs, offset, ind) = match parsed {
        Ok(p) => ops_io(p),
        Err(_) => chars_io(code),
    };
    let ptr = if ind { None } else { Some(offset) };
    let clears = match parsed {
        Ok(_) => clear_count(code),
        Err(_) => 0,
    };
    let cancel = match parsed {
        Ok(_) => cancel_positions(code, code.len() as int),
        Err(_) => Seq::empty(),
    };
    let dead = match parsed {
        Ok(_) => dead_positions(code),
        Err(_) => Seq::empty(),
    };
    AnalysisView {
        bracket_errors: match parsed {
            Ok(_) => Seq::empty(),
            Err(e) => seq![error_message(e)],
        },
        total_inputs: inputs,
        total_outputs: outputs,
        ptr_end_offset: ptr,
        has_clear_idiom: clears > 0,
        clear_idiom_count: clears,
        has_dead_code: dead.len() > 0,
        dead_code_positions: dead,
        has_cancellation: cancel.len() > 0,
        cancellation_positions: cancel,
        unbalanced_pointer: match ptr {
            Some(o) => o != 0,
            None => false,
        },
        max_loop_depth: depth_scan(code).0,
        total_ops: command_count(code),
        optimized_ops: match parsed {
            Ok(p) => optimize_spec(p).len(),
            Err(_) => command_count(code),
        },
    }
}

proof fn lemma_chars_io_bounds(s: Seq<char>)
    ensures
        chars_io(s).0 <= s.len(),
        chars_io(s).1 <= s.len(),
        -s.len() <= chars_io(s).2 <= s.len(),
    decreases s.len(),
{
    if s.len() > 0 {
        lemma_chars_io_bounds(s.drop_last());
    }
}

proof fn lemma_command_count_push(s: Seq<char>, c: char)
    ensures
        command_count(s.push(c)) == command_count(s) + if is_bf_char(c) { 1nat } else { 0nat },
{
    assert(s.push(c).filter(|c: char| is_bf_char(c)) =~= if is_bf_char(c) {
        s.filter(|c: char| is_bf_char(c)).push(c)
    } else {
        s.filter(|c: char| is_bf_char(c))
    }) by {
        s.lemma_filter_push(c, |c: char| is_bf_char(c));
    }
}

/// Inputs, outputs and pointer offset over the ops of a parsed program.
fn scan_ops(ops: &Vec<Op>) -> (r: (usize, usize, i64, bool))
    requires
        total_moves(instrs(ops@)) <= isize::MAX,
    ensures
        r.0 as nat == ops_io(instrs(ops@)).0,
        r.1 as nat == ops_io(instrs(ops@)).1,
        r.2 as int == ops_io(instrs(ops@)).2,
        r.3 == ops_io(instrs(ops@)).3,
{
    let ghost all = instrs(ops@);
    let mut inputs: usize = 0;
    let mut outputs: usize = 0;
    let mut offset: i64 = 0;
    let mut ind = false;
    let mut k: usize = 0;
    while k < ops.len()
        invariant
            all == instrs(ops@),
            k <= ops@.len(),
            total_moves(all) <= isize::MAX,
            (inputs as nat, outputs as nat, offset as int, ind) == ops_io(all.take(k as int)),
            inputs <= k,
            outputs <= k,
            -(total_moves(all.take(k as int)) as int) <= offset <= total_moves(all.take(k as int)),
        decreases ops@.len() - k,
    {
        proof {
            assert(all.take(k + 1).drop_last() =~= all.take(k as int));
            assert(all.take(k + 1).last() == ops@[k as int]@);
            lemma_total_moves_split(all, k + 1);
        }
        match &ops[k] {
            Op::Input => {
                inputs += 1;
            },
            Op::Output => {
                outputs += 1;
            },
            Op::Right(n) => {
                if !ind {
                    offset = offset + (*n as i64);
                }
            },
            Op::Left(n) => {
                if !ind {
                    offset = offset - (*n as i64);
                }
            },
            Op::JumpIfZero(_) => {
                ind = true;
            },
            Op::JumpIfNonZero(_) => {
                ind = true;
            },
            _ => {},
        }
        k += 1;
    }
    proof {
        assert(all.take(k as int) =~= all);
    }
    (inputs, outputs, offset, ind)
}

/// The analysis of a source text.
pub fn analyse_source(code: &str) -> (report: AnalysisReport)
    requires
        code@.len() <= isize::MAX,
    ensures
        report@ == analysis(code@),
{
    let chars = str_to_chars(code);
    proof {
        lemma_parse_moves(code@);
    }
    let parsed = Program::from_source(code);
    let mut bracket_errors: Vec<String> = Vec::new();
    let (inputs, outputs, offset, ind) = match &parsed {
        Ok(p) => scan_ops(&p.ops),
        Err(e) => {
            bracket_errors.push(e.message());
            scan_chars(&chars)
        },
    };
    let ptr_end_offset: Option<i64> = if ind { None } else { Some(offset) };
    let (clears, cancel, dead) = match &parsed {
        Ok(_) => (count_clear_idioms(&chars), detect_cancellation_positions(&chars), detect_dead_code_positions(&chars)),
        Err(_) => (0, Vec::new(), Vec::new()),
    };
    let max_loop_depth = compute_max_loop_depth(&chars);
    let total_ops = count_commands(&chars);
    let optimized_ops = match parsed {
        Ok(p) => {
            let mut q = p;
            q.optimize();
            q.ops.len()
        },
        Err(_) => total_ops,
    };
    let unbalanced_pointer = match ptr_end_offset {
        Some(o) => o != 0,
        None => false,
    };
    let report = AnalysisReport {
        bracket_errors,
        total_inputs: inputs,
        total_outputs: outputs,
        ptr_end_offset,
        has_clear_idiom: clears > 0,
        clear_idiom_count: clears,
        has_dead_code: dead.len() > 0,
        dead_code_positions: dead,
        has_cancellation: cancel.len() > 0,
        cancellation_positions: cancel,
        unbalanced_pointer,
        max_loop_depth,
        total_ops,
        optimized_ops,
    };
    assert(report@.bracket_errors =~= analysis(code@).bracket_errors);
    report
}

/// Inputs, outputs and pointer offset over raw characters.
fn scan_chars(chars: &Vec<char>) -> (r: (usize, usize, i64, bool))
    requires
        chars@.len() <= isize::MAX,
    ensures
        (r.0 as nat, r.1 as nat, r.2 as int, r.3) == chars_io(chars@),
{
    let mut inputs: usize = 0;
    let mut outputs: usize = 0;
    let mut offset: i64 = 0;
    let mut ind = false;
    let mut k: usize = 0;
    while k < chars.len()
        invariant
            k <= chars@.len(),
            chars@.len() <= isize::MAX,
            (inputs as nat, outputs as nat, offset as int, ind) == chars_io(chars@.take(k as int)),
        decreases chars@.len() - k,
    {
        proof {
            assert(chars@.take(k + 1).drop_last() =~= chars@.take(k as int));
            lemma_chars_io_bounds(chars@.take(k as int));
        }
        let c = chars[k];
        if c == ',' {
            inputs += 1;
        } else if c == '.' {
            outputs += 1;
        } else if c == '>' && !ind {
            offset += 1;
        } else if c == '<' && !ind {
            offset -= 1;
        } else if c == '[' || c == ']' {
            ind = true;
        }
        k += 1;
    }
    assert(chars@.take(k as int) =~= chars@);
    (inputs, outputs, offset, ind)
}

fn compute_max_loop_depth(chars: &Vec<char>) -> (r: usize)
    ensures
        r as nat == depth_scan(chars@).0,
{
    let mut depth: usize = 0;
    let mut max_depth: usize = 0;
    let mut k: usize = 0;
    while k < chars.len()
        invariant
            k <= chars@.len(),
            (max_depth as nat, depth as nat) == depth_scan(chars@.take(k as int)),
            depth <= k,
            max_depth <= k,
        decreases chars@.len() - k,
    {
        proof {
            assert(chars@.take(k + 1).drop_last() =~= chars@.take(k as int));
        }
        let c = chars[k];
        if c == '[' {
            depth += 1;
            if depth > max_depth {
                max_depth = depth;
            }
        } else if c == ']' {
            if depth > 0 {
                depth -= 1;
            }
        }
        k += 1;
    }
    assert(chars@.take(k as int) =~= chars@);
    max_depth
}

fn count_clear_idioms(chars: &Vec<char>) -> (r: usize)
    ensures
        r as nat == clear_count(chars@),
{
    let mut count: usize = 0;
    let mut k: usize = 0;
    while k < chars.len()
        invariant
            k <= chars@.len(),
            count as nat == clear_count(chars@.take(k as int)),
            count <= k,
        decreases chars@.len() - k,
    {
        proof {
            assert(chars@.take(k + 1).drop_last() =~= chars@.take(k as int));
        }
        if k >= 2 && chars[k - 2] == '[' && (chars[k - 1] == '-' || chars[k - 1] == '+') && chars[k] == ']' {
            count += 1;
        }
        k += 1;
    }
    assert(chars@.take(k as int) =~= chars@);
    count
}

fn detect_cancellation_positions(chars: &Vec<char>) -> (r: Vec<usize>)
    ensures
        r@ == cancel_positions(chars@, chars@.len() as int),
{
    let mut positions: Vec<usize> = Vec::new();
    let mut last: Option<(usize, char)> = None;
    let mut k: usize = 0;
    while k < chars.len()
        invariant
            k <= chars@.len(),
            positions@ == cancel_positions(chars@, k as int),
            match last {
                Some((j, c)) => last_command(chars@, k as int) == Some((j as int, c)),
                None => last_command(chars@, k as int) is None,
            },
        decreases chars@.len() - k,
    {
        let c = chars[k];
        if c == '+' || c == '-' || c == '>' || c == '<' {
            match last {
                Some((j, p)) => {
                    if (p == '+' && c == '-') || (p == '-' && c == '+') || (p == '>' && c == '<') || (p == '<' && c
                        == '>') {
                        positions.push(j);
                    }
                },
                None => {},
            }
        }
        if crate::text::bf_char(c) {
            last = Some((k, c));
        }
        k += 1;
    }
    positions
}

/// The brainfuck commands of a text with their positions.
fn command_list(chars: &Vec<char>) -> (r: Vec<(usize, char)>)
    ensures
        r@.len() == commands(chars@, chars@.len() as int).len(),
        forall|i: int| 0 <= i < r@.len() ==> (#[trigger] r@[i]).0 as int == commands(chars@, chars@.len() as int)[i].0
            && r@[i].1 == commands(chars@, chars@.len() as int)[i].1,
{
    let mut r: Vec<(usize, char)> = Vec::new();
    let mut k: usize = 0;
    while k < chars.len()
        invariant
            k <= chars@.len(),
            r@.len() == commands(chars@, k as int).len(),
            forall|i: int| 0 <= i < r@.len() ==> (#[trigger] r@[i]).0 as int == commands(chars@, k as int)[i].0
                && r@[i].1 == commands(chars@, k as int)[i].1,
        decreases chars@.len() - k,
    {
        if crate::text::bf_char(chars[k]) {
            r.push((k, chars[k]));
        }
        k += 1;
    }
    r
}

fn detect_dead_code_positions(chars: &Vec<char>) -> (r: Vec<usize>)
    ensures
        r@ == dead_positions(chars@),
{
    let cmds = command_list(chars);
    let ghost sc = commands(chars@, chars@.len() as int);
    let mut positions: Vec<usize> = Vec::new();
    if cmds.len() >= 2 && cmds[0].1 == '+' && cmds[1].1 == '[' {
        let mut depth: usize = 0;
        let mut close: Option<usize> = None;
        let mut i: usize = 1;
        while i < cmds.len()
            invariant_except_break
                close is None,
                1 <= i <= cmds@.len(),
                sc.len() == cmds@.len(),
                forall|x: int| 0 <= x < cmds@.len() ==> (#[trigger] cmds@[x]).0 as int == sc[x].0 && cmds@[x].1 == sc[x].1,
                depth <= i,
                i == 1 ==> depth == 0,
                i > 1 ==> depth >= 1,
                sc[1].1 == '[',
                close_index(sc, 1, 0) == close_index(sc, i as int, depth as int),
            ensures
                match close {
                    Some(ci) => close_index(sc, 1, 0) == Some(ci as int) && ci < cmds@.len(),
                    None => close_index(sc, 1, 0) is None,
                },
            decreases cmds@.len() - i,
        {
            let c = cmds[i].1;
            if c == '[' {
                depth += 1;
            } else if c == ']' {
                if depth == 1 {
                    close = Some(i);
                    break;
                }
                depth -= 1;
            }
            i += 1;
        }
        match close {
            Some(ci) => {
                if ci + 1 < cmds.len() {
                    positions.push(cmds[ci + 1].0);
                }
            },
            None => {},
        }
    }
    assert(positions@ =~= dead_positions(chars@));
    positions
}

fn count_commands(chars: &Vec<char>) -> (r: usize)
    ensures
        r as nat == command_count(chars@),
{
    let mut n: usize = 0;
    let mut k: usize = 0;
    while k < chars.len()
        invariant
            k <= chars@.len(),
            n as nat == command_count(chars@.take(k as int)),
            n <= k,
        decreases chars@.len() - k,
    {
        proof {
            assert(chars@.take(k + 1) =~= chars@.take(k as int).push(chars@[k as int]));
            lemma_command_count_push(chars@.take(k as int), chars@[k as int]);
        }
        if crate::text::bf_char(chars[k]) {
            n += 1;
        }
        k += 1;
    }
    assert(chars@.take(k as int) =~= chars@);
    n
}

// ---------------------------------------------------------------------------
// The report as shown
// ---------------------------------------------------------------------------

/// How many times `c` occurs in `s`.
pub open spec fn char_count(s: Seq<char>, c: char) -> nat
    decreases s.len(),
{
    if s.len() == 0 {
        0
    } else {
        char_count(s.drop_last(), c) + if s.last() == c { 1nat } else { 0nat }
    }
}

/// A line of plain text.
pub open spec fn plain_line(t: Seq<char>) -> Seq<(Seq<char>, Tone)> {
    seq![(t, Tone::Plain)]
}

/// Positions, comma separated.
pub open spec fn position_list(ps: Seq<usize>) -> Seq<char>
    decreases ps.len(),
{
    if ps.len() == 0 {
        Seq::empty()
    } else {
        position_list(ps.drop_last()) + (if ps.len() > 1 { ", "@ } else { Seq::empty() }) + decimal(ps.last() as nat)
    }
}

/// The lines of the bracket errors.
pub open spec fn error_lines(errs: Seq<Seq<char>>) -> Seq<Seq<(Seq<char>, Tone)>>
    decreases errs.len(),
{
    if errs.len() == 0 {
        seq![]
    } else {
        error_lines(errs.drop_last()) + seq![seq![("  "@, Tone::Plain), ("ERROR:"@, Tone::Red), (" "@ + errs.last(), Tone::Plain)]]
    }
}

/// The first lines of the report: the bracket errors, or that the brackets
/// are fine.
pub open spec fn analysis_head(r: AnalysisView) -> Seq<Seq<(Seq<char>, Tone)>> {
    if r.bracket_errors.len() > 0 {
        seq![seq![("=== ERRORS ==="@, Tone::RedBold)]] + error_lines(r.bracket_errors)
    } else {
        seq![seq![("Brackets: "@, Tone::Plain), ("OK"@, Tone::Green)]]
    }
}

/// The input and output counts and the pointer's net offset.
pub open spec fn analysis_io(r: AnalysisView) -> Seq<Seq<(Seq<char>, Tone)>> {
    seq![
        plain_line("Input operations (,):  "@ + decimal(r.total_inputs)),
        plain_line("Output operations (.): "@ + decimal(r.total_outputs)),
        match r.ptr_end_offset {
            Some(o) => plain_line("Data pointer net offset: "@ + signed_decimal(o)),
            None => plain_line("Data pointer: indeterminate (program contains loops)"@),
        },
    ]
}

/// The counts of the file's commands.
pub open spec fn analysis_counts(source: Seq<char>) -> Seq<Seq<(Seq<char>, Tone)>> {
    seq![
        plain_line(Seq::empty()),
        plain_line("=== VERBOSE ==="@),
        plain_line("  > (move right): "@ + decimal(char_count(source, '>'))),
        plain_line("  < (move left):  "@ + decimal(char_count(source, '<'))),
        plain_line("  + (increment):  "@ + decimal(char_count(source, '+'))),
        plain_line("  - (decrement):  "@ + decimal(char_count(source, '-'))),
        plain_line("  [ (loop open):  "@ + decimal(char_count(source, '['))),
        plain_line("  ] (loop close): "@ + decimal(char_count(source, ']'))),
    ]
}

/// The complexity metrics.
pub open spec fn analysis_metrics(r: AnalysisView, reduction: Seq<char>) -> Seq<Seq<(Seq<char>, Tone)>> {
    seq![
        plain_line(Seq::empty()),
        plain_line("=== COMPLEXITY METRICS ==="@),
        plain_line("  Max loop nesting depth: "@ + decimal(r.max_loop_depth)),
        plain_line("  Total BF instructions: "@ + decimal(r.total_ops)),
        plain_line("  Optimized IR ops: "@ + decimal(r.optimized_ops)),
    ] + if r.total_ops > 0 { seq![plain_line("  Optimization reduction: "@ + reduction + "%"@)] } else { seq![] }
}

/// The deeper findings.
pub open spec fn analysis_deep(r: AnalysisView) -> Seq<Seq<(Seq<char>, Tone)>> {
    seq![plain_line(Seq::empty()), plain_line("=== DEEP ANALYSIS ==="@)] + (if r.has_clear_idiom {
        seq![plain_line("  Found "@ + decimal(r.clear_idiom_count) + " clear idiom(s) ([-] or [+])"@)]
    } else {
        seq![]
    }) + (if r.has_cancellation {
        seq![
            plain_line(
                "  Found "@ + decimal(r.cancellation_positions.len()) + " cancellation(s) at position(s): "@ + position_list(
                    r.cancellation_positions,
                ),
            ),
        ]
    } else {
        seq![]
    }) + (if r.has_dead_code {
        seq![
            seq![
                ("  "@, Tone::Plain),
                ("Warning:"@, Tone::Yellow),
                (" unreachable code after position(s): "@ + position_list(r.dead_code_positions), Tone::Plain),
            ],
        ]
    } else {
        seq![]
    }) + (match r.ptr_end_offset {
        Some(o) => if r.unbalanced_pointer {
            seq![
                seq![
                    ("  "@, Tone::Plain),
                    ("Warning"@, Tone::Yellow),
                    (": data pointer ends at offset "@ + signed_decimal(o) + " from start"@, Tone::Plain),
                ],
            ]
        } else {
            seq![]
        },
        None => seq![],
    })
}

/// The lines that `analyse` shows for a report on a file whose text is
/// `source`; `verbose` adds the counts of the file's commands, metrics and
/// the deeper findings. `reduction` is the share of ops that optimization
/// removes, as shown.
pub open spec fn analysis_lines(r: AnalysisView, source: Seq<char>, verbose: bool, reduction: Seq<char>) -> Seq<
    Seq<(Seq<char>, Tone)>,
> {
    analysis_head(r) + analysis_io(r) + if verbose {
        analysis_counts(source) + analysis_metrics(r, reduction) + analysis_deep(r)
    } else {
        seq![]
    }
}

/// The values of a list of lines.
pub open spec fn lines_view(v: Seq<Vec<(String, Tone)>>) -> Seq<Seq<(Seq<char>, Tone)>> {
    v.map_values(|l: Vec<(String, Tone)>| pieces_view(l@))
}

fn line_of(text: Vec<char>) -> (l: Vec<(String, Tone)>)
    ensures
        pieces_view(l@) == plain_line(text@),
{
    let l = vec![(chars_to_string(&text), Tone::Plain)];
    assert(pieces_view(l@) =~= plain_line(text@));
    l
}

fn text_line(pre: &str, n: usize) -> (l: Vec<(String, Tone)>)
    ensures
        pieces_view(l@) == plain_line(pre@ + decimal(n as nat)),
{
    let mut t: Vec<char> = Vec::new();
    push_str(&mut t, pre);
    push_usize(&mut t, n);
    line_of(t)
}

fn count_char(s: &Vec<char>, c: char) -> (n: usize)
    ensures
        n == char_count(s@, c),
{
    let mut n: usize = 0;
    let mut k: usize = 0;
    while k < s.len()
        invariant
            k <= s@.len(),
            n == char_count(s@.take(k as int), c),
            n <= k,
        decreases s@.len() - k,
    {
        assert(s@.take(k + 1).drop_last() =~= s@.take(k as int));
        if s[k] == c {
            n += 1;
        }
        k += 1;
    }
    assert(s@.take(k as int) =~= s@);
    n
}

fn push_positions(out: &mut Vec<char>, ps: &Vec<usize>)
    ensures
        final(out)@ == old(out)@ + position_list(ps@),
{
    let ghost base = out@;
    let mut k: usize = 0;
    while k < ps.len()
        invariant
            k <= ps@.len(),
            out@ == base + position_list(ps@.take(k as int)),
        decreases ps@.len() - k,
    {
        assert(ps@.take(k + 1).drop_last() =~= ps@.take(k as int));
        if k > 0 {
            push_str(out, ", ");
        }
        push_usize(out, ps[k]);
        k += 1;
        assert(out@ =~= base + position_list(ps@.take(k as int)));
    }
    assert(ps@.take(k as int) =~= ps@);
}

struct Lines {
    v: Vec<Vec<(String, Tone)>>,
}

impl Lines {
    spec fn view(&self) -> Seq<Seq<(Seq<char>, Tone)>> {
        lines_view(self.v@)
    }

    fn new() -> (l: Self)
        ensures
            l.view() == Seq::<Seq<(Seq<char>, Tone)>>::empty(),
    {
        let l = Lines { v: Vec::new() };
        assert(l.view() =~= Seq::<Seq<(Seq<char>, Tone)>>::empty());
        l
    }

    fn push(&mut self, line: Vec<(String, Tone)>)
        ensures
            final(self).view() == old(self).view().push(pieces_view(line@)),
    {
        self.v.push(line);
        assert(lines_view(self.v@) =~= lines_view(old(self).v@).push(pieces_view(line@)));
    }

    fn text(&mut self, t: Vec<char>)
        ensures
            final(self).view() == old(self).view().push(plain_line(t@)),
    {
        self.push(line_of(t));
    }

    fn text_num(&mut self, pre: &str, n: usize)
        ensures
            final(self).view() == old(self).view().push(plain_line(pre@ + decimal(n as nat))),
    {
        self.push(text_line(pre, n));
    }

    fn three(&mut self, a: &str, at: Tone, b: &str, bt: Tone, c: Vec<char>)
        ensures
            final(self).view() == old(self).view().push(seq![(a@, at), (b@, bt), (c@, Tone::Plain)]),
    {
        let mut l: Vec<(String, Tone)> = Vec::new();
        l.push((String::from_str(a), at));
        l.push((String::from_str(b), bt));
        l.push((chars_to_string(&c), Tone::Plain));
        assert(pieces_view(l@) =~= seq![(a@, at), (b@, bt), (c@, Tone::Plain)]);
        self.push(l);
    }
}

fn head_lines(report: &AnalysisReport, out: &mut Lines)
    ensures
        final(out).view() == old(out).view() + analysis_head(report@),
{
    let ghost rv = report@;
    let ghost base = out.view();
    if report.bracket_errors.len() > 0 {
        let mut l: Vec<(String, Tone)> = Vec::new();
        l.push((String::from_str("=== ERRORS ==="), Tone::RedBold));
        assert(pieces_view(l@) =~= seq![("=== ERRORS ==="@, Tone::RedBold)]);
        out.push(l);
        let ghost top = out.view();
        let mut k: usize = 0;
        while k < report.bracket_errors.len()
            invariant
                rv == report@,
                k <= rv.bracket_errors.len(),
                out.view() == top + error_lines(rv.bracket_errors.take(k as int)),
            decreases rv.bracket_errors.len() - k,
        {
            assert(rv.bracket_errors.take(k + 1).drop_last() =~= rv.bracket_errors.take(k as int));
            let mut t: Vec<char> = Vec::new();
            push_str(&mut t, " ");
            push_str(&mut t, report.bracket_errors[k].as_str());
            out.three("  ", Tone::Plain, "ERROR:", Tone::Red, t);
            k += 1;
            assert(out.view() =~= top + error_lines(rv.bracket_errors.take(k as int)));
        }
        assert(rv.bracket_errors.take(k as int) =~= rv.bracket_errors);
        assert(out.view() =~= base + analysis_head(rv));
    } else {
        let mut l: Vec<(String, Tone)> = Vec::new();
        l.push((String::from_str("Brackets: "), Tone::Plain));
        l.push((String::from_str("OK"), Tone::Green));
        assert(pieces_view(l@) =~= seq![("Brackets: "@, Tone::Plain), ("OK"@, Tone::Green)]);
        out.push(l);
        assert(out.view() =~= base + analysis_head(rv));
    }
}

fn io_lines(report: &AnalysisReport, out: &mut Lines)
    ensures
        final(out).view() == old(out).view() + analysis_io(report@),
{
    let ghost base = out.view();
    out.text_num("Input operations (,):  ", report.total_inputs);
    out.text_num("Output operations (.): ", report.total_outputs);
    match report.ptr_end_offset {
        Some(o) => {
            let mut t: Vec<char> = Vec::new();
            push_str(&mut t, "Data pointer net offset: ");
            push_i64(&mut t, o);
            out.text(t);
        },
        None => {
            out.text(str_to_chars("Data pointer: indeterminate (program contains loops)"));
        },
    }
    assert(out.view() =~= base + analysis_io(report@));
}

fn count_lines(source: &str, out: &mut Lines)
    ensures
        final(out).view() == old(out).view() + analysis_counts(source@),
{
    let ghost base = out.view();
    let src = str_to_chars(source);
    out.text(Vec::new());
    out.text(str_to_chars("=== VERBOSE ==="));
    out.text_num("  > (move right): ", count_char(&src, '>'));
    out.text_num("  < (move left):  ", count_char(&src, '<'));
    out.text_num("  + (increment):  ", count_char(&src, '+'));
    out.text_num("  - (decrement):  ", count_char(&src, '-'));
    out.text_num("  [ (loop open):  ", count_char(&src, '['));
    out.text_num("  ] (loop close): ", count_char(&src, ']'));
    assert(out.view() =~= base + analysis_counts(source@));
}

fn metric_lines(report: &AnalysisReport, pct: &String, out: &mut Lines)
    ensures
        final(out).view() == old(out).view() + analysis_metrics(report@, pct@),
{
    let ghost base = out.view();
    out.text(Vec::new());
    out.text(str_to_chars("=== COMPLEXITY METRICS ==="));
    out.text_num("  Max loop nesting depth: ", report.max_loop_depth);
    out.text_num("  Total BF instructions: ", report.total_ops);
    out.text_num("  Optimized IR ops: ", report.optimized_ops);
    if report.total_ops > 0 {
        let mut t: Vec<char> = Vec::new();
        push_str(&mut t, "  Optimization reduction: ");
        push_str(&mut t, pct.as_str());
        push_str(&mut t, "%");
        out.text(t);
    }
    assert(out.view() =~= base + analysis_metrics(report@, pct@));
}

fn deep_lines(report: &AnalysisReport, out: &mut Lines)
    ensures
        final(out).view() == old(out).view() + analysis_deep(report@),
{
    let ghost base = out.view();
    out.text(Vec::new());
    out.text(str_to_chars("=== DEEP ANALYSIS ==="));
    let ghost a = out.view();
    if report.has_clear_idiom {
        let mut t: Vec<char> = Vec::new();
        push_str(&mut t, "  Found ");
        push_usize(&mut t, report.clear_idiom_count);
        push_str(&mut t, " clear idiom(s) ([-] or [+])");
        out.text(t);
    }
    let ghost b = out.view();
    if report.has_cancellation {
        let mut t: Vec<char> = Vec::new();
        push_str(&mut t, "  Found ");
        push_usize(&mut t, report.cancellation_positions.len());
        push_str(&mut t, " cancellation(s) at position(s): ");
        push_positions(&mut t, &report.cancellation_positions);
        out.text(t);
    }
    let ghost c = out.view();
    if report.has_dead_code {
        let mut t: Vec<char> = Vec::new();
        push_str(&mut t, " unreachable code after position(s): ");
        push_positions(&mut t, &report.dead_code_positions);
        out.three("  ", Tone::Plain, "Warning:", Tone::Yellow, t);
    }
    match report.ptr_end_offset {
        Some(o) => if report.unbalanced_pointer {
            let mut t: Vec<char> = Vec::new();
            push_str(&mut t, ": data pointer ends at offset ");
            push_i64(&mut t, o);
            push_str(&mut t, " from start");
            out.three("  ", Tone::Plain, "Warning", Tone::Yellow, t);
        },
        None => {},
    }
    assert(out.view() =~= base + analysis_deep(report@));
}

/// The lines that `analyse` shows: see `analysis_lines`. `percent` renders
/// the share of ops that optimization removes, given the counts of
/// optimized ops and of commands; it is called only when verbose and there
/// are commands.
pub fn report_lines<F: Fn(usize, usize) -> String>(report: &AnalysisReport, source: &str, verbose: bool, percent: F) -> (r: Vec<
    Vec<(String, Tone)>,
>)
    requires
        forall|a: usize, b: usize| percent.requires((a, b)),
    ensures
        exists|p: String|
            (verbose && report@.total_ops > 0 ==> percent.ensures((report.optimized_ops, report.total_ops), p)) && lines_view(r@)
                == #[trigger] analysis_lines(report@, source@, verbose, p@),
{
    let mut out = Lines::new();
    head_lines(report, &mut out);
    io_lines(report, &mut out);
    let mut pct = String::new();
    if verbose {
        if report.total_ops > 0 {
            pct = percent(report.optimized_ops, report.total_ops);
        }
        count_lines(source, &mut out);
        metric_lines(report, &pct, &mut out);
        deep_lines(report, &mut out);
    }
    assert(out.view() =~= analysis_lines(report@, source@, verbose, pct@));
    assert(lines_view(out.v@) == analysis_lines(report@, source@, verbose, pct@));
    out.v
}

// ---------------------------------------------------------------------------
// The report kept at the head of a source file
// ---------------------------------------------------------------------------

/// A line with its `\r` before the line break dropped, if it has one.
pub open spec fn drop_cr(l: Seq<char>) -> Seq<char> {
    if l.len() > 0 && l.last() == '\r' { l.drop_last() } else { l }
}

/// The finished lines of a text and the line still open at its end.
pub open spec fn line_state(s: Seq<char>) -> (Seq<Seq<char>>, Seq<char>)
    decreases s.len(),
{
    if s.len() == 0 {
        (Seq::empty(), Seq::empty())
    } else {
        let (ls, cur) = line_state(s.drop_last());
        if s.last() == '\n' {
            (ls.push(drop_cr(cur)), Seq::empty())
        } else {
            (ls, cur.push(s.last()))
        }
    }
}

/// The lines of a text as `str::lines` gives them: split at `\n` (a `\r`
/// before it dropped), with no empty line after a final line break.
pub open spec fn text_lines(s: Seq<char>) -> Seq<Seq<char>> {
    let (ls, cur) = line_state(s);
    if cur.len() > 0 { ls.push(cur) } else { ls }
}

/// A line of a report header: empty, or starting with `# `.
pub open spec fn header_line(l: Seq<char>) -> bool {
    l.len() == 0 || (l.len() >= 2 && l[0] == '#' && l[1] == ' ')
}

/// The lines from the first one that is not a header line on.
pub open spec fn drop_header(ls: Seq<Seq<char>>) -> Seq<Seq<char>>
    decreases ls.len(),
{
    if ls.len() > 0 && header_line(ls[0]) {
        drop_header(ls.skip(1))
    } else {
        ls
    }
}

/// Each line followed by a line break.
pub open spec fn lines_text(ls: Seq<Seq<char>>) -> Seq<char>
    decreases ls.len(),
{
    if ls.len() == 0 {
        Seq::empty()
    } else {
        lines_text(ls.drop_last()) + ls.last() + seq!['\n']
    }
}

/// A source without the report header that an earlier in-place analysis put
/// at its head: the lines after the leading header lines, each ended by a line
/// break.
pub open spec fn strip_header_spec(s: Seq<char>) -> Seq<char> {
    lines_text(drop_header(text_lines(s)))
}

proof fn lemma_drop_header_push(ls: Seq<Seq<char>>, l: Seq<char>)
    ensures
        drop_header(ls.push(l)) == if drop_header(ls).len() == 0 {
            if header_line(l) { Seq::<Seq<char>>::empty() } else { seq![l] }
        } else {
            drop_header(ls).push(l)
        },
    decreases ls.len(),
{
    if ls.len() == 0 {
        assert(ls.push(l) =~= seq![l]);
        assert(seq![l].skip(1) =~= Seq::<Seq<char>>::empty());
        assert(drop_header(Seq::<Seq<char>>::empty()) == Seq::<Seq<char>>::empty());
    } else if header_line(ls[0]) {
        assert(ls.push(l)[0] == ls[0]);
        assert(ls.push(l).skip(1) =~= ls.skip(1).push(l));
        lemma_drop_header_push(ls.skip(1), l);
    } else {
        assert(ls.push(l)[0] == ls[0]);
    }
}

/// Add one finished line to the kept text.
fn keep_line(out: &mut Vec<char>, skipping: &mut bool, line: &Vec<char>, ls: Ghost<Seq<Seq<char>>>)
    requires
        old(out)@ == lines_text(drop_header(ls@)),
        *old(skipping) == (drop_header(ls@).len() == 0),
    ensures
        final(out)@ == lines_text(drop_header(ls@.push(line@))),
        *final(skipping) == (drop_header(ls@.push(line@)).len() == 0),
{
    proof {
        lemma_drop_header_push(ls@, line@);
    }
    let header = line.len() == 0 || (line.len() >= 2 && line[0] == '#' && line[1] == ' ');
    if *skipping && header {
        return;
    }
    let ghost before = out@;
    *skipping = false;
    let mut k: usize = 0;
    while k < line.len()
        invariant
            k <= line@.len(),
            out@ == before + line@.take(k as int),
        decreases line@.len() - k,
    {
        out.push(line[k]);
        proof {
            assert(line@.take(k + 1) =~= line@.take(k as int).push(line@[k as int]));
        }
        k += 1;
    }
    out.push('\n');
    proof {
        assert(line@.take(k as int) =~= line@);
        if drop_header(ls@).len() == 0 {
            assert(seq![line@].drop_last() =~= Seq::<Seq<char>>::empty());
            assert(lines_text(Seq::<Seq<char>>::empty()) == Seq::<char>::empty());
        } else {
            assert(drop_header(ls@).push(line@).drop_last() =~= drop_header(ls@));
        }
        assert(out@ =~= lines_text(drop_header(ls@.push(line@))));
    }
}

/// Remove the report header that an in-place analysis put at the head of a
/// source: leading lines that are empty or start with `# ` go, and each line
/// after them is ended by a line break.
pub fn strip_report_header(source: &str) -> (r: String)
    ensures
        r@ == strip_header_spec(source@),
{
    let chars = str_to_chars(source);
    let mut out: Vec<char> = Vec::new();
    let mut skipping = true;
    let mut cur: Vec<char> = Vec::new();
    let ghost mut ls: Seq<Seq<char>> = Seq::empty();
    let mut k: usize = 0;
    while k < chars.len()
        invariant
            k <= chars@.len(),
            chars@ == source@,
            line_state(chars@.take(k as int)) == (ls, cur@),
            out@ == lines_text(drop_header(ls)),
            skipping == (drop_header(ls).len() == 0),
        decreases chars@.len() - k,
    {
        proof {
            assert(chars@.take(k + 1).drop_last() =~= chars@.take(k as int));
        }
        let c = chars[k];
        if c == '\n' {
            if cur.len() > 0 && cur[cur.len() - 1] == '\r' {
                cur.pop();
            }
            keep_line(&mut out, &mut skipping, &cur, Ghost(ls));
            proof {
                ls = ls.push(cur@);
            }
            cur = Vec::new();
        } else {
            cur.push(c);
        }
        k += 1;
    }
    assert(chars@.take(k as int) =~= source@);
    if cur.len() > 0 {
        keep_line(&mut out, &mut skipping, &cur, Ghost(ls));
    }
    chars_to_string(&out)
}

// ---------------------------------------------------------------------------
// What the input and output counts count
// ---------------------------------------------------------------------------

/// How often `c` occurs in a text.
pub open spec fn occurrences(s: Seq<char>, c: char) -> nat
    decreases s.len(),
{
    if s.len() == 0 {
        0
    } else {
        occurrences(s.drop_last(), c) + if s.last() == c { 1nat } else { 0nat }
    }
}

proof fn lemma_occurrences_push(s: Seq<char>, x: char, c: char)
    ensures
        occurrences(s.push(x), c) == occurrences(s, c) + if x == c { 1nat } else { 0nat },
{
    assert(s.push(x).drop_last() =~= s);
}

/// How many `Input` and `Output` ops a program has.
pub open spec fn io_ops(ops: Seq<Instr>) -> (nat, nat)
    decreases ops.len(),
{
    if ops.len() == 0 {
        (0, 0)
    } else {
        let (i, o) = io_ops(ops.drop_last());
        (i + if ops.last() is Input { 1nat } else { 0nat }, o + if ops.last() is Output { 1nat } else { 0nat })
    }
}

proof fn lemma_io_ops_push(ops: Seq<Instr>, x: Instr)
    ensures
        io_ops(ops.push(x)) == (
            io_ops(ops).0 + if x is Input { 1nat } else { 0nat },
            io_ops(ops).1 + if x is Output { 1nat } else { 0nat },
        ),
{
    assert(ops.push(x).drop_last() =~= ops);
}

proof fn lemma_io_ops_update(ops: Seq<Instr>, k: int, x: Instr)
    requires
        0 <= k < ops.len(),
        !(ops[k] is Input) && !(ops[k] is Output),
        !(x is Input) && !(x is Output),
    ensures
        io_ops(ops.update(k, x)) == io_ops(ops),
    decreases ops.len(),
{
    let u = ops.update(k, x);
    if k < ops.len() - 1 {
        lemma_io_ops_update(ops.drop_last(), k, x);
        assert(u.drop_last() =~= ops.drop_last().update(k, x));
        lemma_io_ops_push(ops.drop_last(), ops.last());
        lemma_io_ops_push(u.drop_last(), u.last());
        assert(ops.drop_last().push(ops.last()) =~= ops);
        assert(u.drop_last().push(u.last()) =~= u);
    } else {
        assert(u.drop_last() =~= ops.drop_last());
        lemma_io_ops_push(ops.drop_last(), ops.last());
        lemma_io_ops_push(u.drop_last(), u.last());
        assert(ops.drop_last().push(ops.last()) =~= ops);
        assert(u.drop_last().push(u.last()) =~= u);
    }
}

proof fn lemma_ops_io_counts(ops: Seq<Instr>)
    ensures
        ops_io(ops).0 == io_ops(ops).0,
        ops_io(ops).1 == io_ops(ops).1,
    decreases ops.len(),
{
    if ops.len() == 0 {

    } else {
        lemma_ops_io_counts(ops.drop_last());
        lemma_io_ops_push(ops.drop_last(), ops.last());
        assert(ops.drop_last().push(ops.last()) =~= ops);
    }
}

proof fn lemma_chars_io_counts(s: Seq<char>)
    ensures
        chars_io(s).0 == occurrences(s, ','),
        chars_io(s).1 == occurrences(s, '.'),
    decreases s.len(),
{
    if s.len() == 0 {

    } else {
        lemma_chars_io_counts(s.drop_last());
        lemma_occurrences_push(s.drop_last(), s.last(), ',');
        lemma_occurrences_push(s.drop_last(), s.last(), '.');
        assert(s.drop_last().push(s.last()) =~= s);
    }
}

proof fn lemma_parse_io(src: Seq<char>)
    requires
        src.len() < usize::MAX,
        parse_prefix(src) is Some,
    ensures
        io_ops(parse_prefix(src)->Some_0.0) == (occurrences(src, ','), occurrences(src, '.')),
    decreases src.len(),
{
    if src.len() == 0 {
        assert(src =~= Seq::<char>::empty());
    } else {
        let d = src.drop_last();
        let c = src.last();
        assert(d.push(c) =~= src);
        lemma_parse_io(d);
        lemma_occurrences_push(d, c, ',');
        lemma_occurrences_push(d, c, '.');
        let (ops, stack) = parse_prefix(d)->Some_0;
        let n = ops.len() as int;
        if (c == '+' && n > 0 && ops.last() is Add) || (c == '-' && n > 0 && ops.last() is Sub)
            || (c == '>' && n > 0 && ops.last() is Right) || (c == '<' && n > 0 && ops.last() is Left) {
            let o2 = parse_prefix(src)->Some_0.0;
            lemma_io_ops_update(ops, n - 1, o2[n - 1]);
            assert(o2 =~= ops.update(n - 1, o2[n - 1]));
        } else if c == ']' {
            lemma_parse_prefix_inv(d);
            reveal(parse_inv);
            let open = stack.last();
            assert(stack[stack.len() - 1] == open);
            lemma_io_ops_update(ops, open, Instr::JumpIfZero(n as usize));
            lemma_io_ops_push(ops.update(open, Instr::JumpIfZero(n as usize)), Instr::JumpIfNonZero(open as usize));
        } else if c == '+' || c == '-' || c == '>' || c == '<' || c == '.' || c == ',' || c == '[' {
            let o2 = parse_prefix(src)->Some_0.0;
            assert(o2 =~= ops.push(o2.last()));
            lemma_io_ops_push(ops, o2.last());
        }
    }
}

/// Law: the report counts every `,` as an input and every `.` as an output of
/// the source, whether or not they stand in loops and whether or not the
/// source parses.
pub proof fn law_io_counts(code: Seq<char>)
    requires
        code.len() <= isize::MAX,
    ensures
        analysis(code).total_inputs == occurrences(code, ','),
        analysis(code).total_outputs == occurrences(code, '.'),
{
    match parse_source(code) {
        Ok(p) => {
            lemma_ops_io_counts(p);
            lemma_parse_io(code);
        },
        Err(_) => {
            lemma_chars_io_counts(code);
        },
    }
}

/// The parse of a source without loops ends with no open bracket, and its
/// pointer offset is the number of `>` less the number of `<`, known at the end.
proof fn lemma_parse_shift(src: Seq<char>)
    requires
        src.len() < usize::MAX,
        forall|i: int| 0 <= i < src.len() ==> src[i] != '[' && src[i] != ']',
    ensures
        parse_prefix(src) is Some,
        parse_prefix(src)->Some_0.1.len() == 0,
        ops_io(parse_prefix(src)->Some_0.0).2 == occurrences(src, '>') - occurrences(src, '<'),
        !ops_io(parse_prefix(src)->Some_0.0).3,
    decreases src.len(),
{
    if src.len() == 0 {
        assert(src =~= Seq::<char>::empty());
    } else {
        let d = src.drop_last();
        let c = src.last();
        assert(d.push(c) =~= src);
        assert forall|i: int| 0 <= i < d.len() implies d[i] != '[' && d[i] != ']' by {
            assert(d[i] == src[i]);
        }
        lemma_parse_shift(d);
        lemma_occurrences_push(d, c, '>');
        lemma_occurrences_push(d, c, '<');
        lemma_parse_prefix_moves(d);
        let (ops, stack) = parse_prefix(d)->Some_0;
        let n = ops.len() as int;
        assert(c != '[' && c != ']');
        let o2 = parse_prefix(src)->Some_0.0;
        if (c == '+' && n > 0 && ops.last() is Add) || (c == '-' && n > 0 && ops.last() is Sub)
            || (c == '>' && n > 0 && ops.last() is Right) || (c == '<' && n > 0 && ops.last() is Left) {
            assert(o2.drop_last() =~= ops.drop_last());
            assert(ops.len() > 0 && ops =~= ops.drop_last().push(ops.last()));
            assert(total_moves(ops) == total_moves(ops.drop_last()) + move_amount(ops.last()));
        } else if c == '+' || c == '-' || c == '>' || c == '<' || c == '.' || c == ',' {
            assert(o2.drop_last() =~= ops);
        } else {
            assert(o2 == ops);
        }
    }
}

/// Law: for a source without loops, the report gives the pointer's offset at
/// the end as the number of `>` less the number of `<`, and flags the pointer
/// as unbalanced exactly when those numbers differ.
pub proof fn law_pointer_offset_without_loops(code: Seq<char>)
    requires
        code.len() <= isize::MAX,
        forall|i: int| 0 <= i < code.len() ==> code[i] != '[' && code[i] != ']',
    ensures
        analysis(code).ptr_end_offset == Some(occurrences(code, '>') - occurrences(code, '<')),
        analysis(code).unbalanced_pointer == (occurrences(code, '>') != occurrences(code, '<')),
{
    lemma_parse_shift(code);
}

/// Whether a program holds a jump.
pub open spec fn has_jump(ops: Seq<Instr>) -> bool {
    exists|i: int| 0 <= i < ops.len() && (ops[i] is JumpIfZero || ops[i] is JumpIfNonZero)
}

proof fn lemma_jump_unknown(ops: Seq<Instr>)
    requires
        has_jump(ops),
    ensures
        ops_io(ops).3,
    decreases ops.len(),
{
    let d = ops.drop_last();
    let x = ops.last();
    if !(x is JumpIfZero || x is JumpIfNonZero) {
        let i = choose|i: int| 0 <= i < ops.len() && (ops[i] is JumpIfZero || ops[i] is JumpIfNonZero);
        assert(i < ops.len() - 1);
        assert(d[i] == ops[i]);
        lemma_jump_unknown(d);
    }
}

proof fn lemma_parse_has_jump(src: Seq<char>, j: int)
    requires
        parse_prefix(src) is Some,
        0 <= j < src.len(),
        src[j] == '[',
    ensures
        has_jump(parse_prefix(src)->Some_0.0),
    decreases src.len(),
{
    let d = src.drop_last();
    let c = src.last();
    assert(d.push(c) =~= src);
    let o2 = parse_prefix(src)->Some_0.0;
    if c == '[' || c == ']' {
        assert(o2.last() is JumpIfZero || o2.last() is JumpIfNonZero);
        assert(o2[o2.len() - 1] == o2.last());
    } else {
        assert(j < src.len() - 1 && d[j] == '[');
        lemma_parse_has_jump(d, j);
        let ops = parse_prefix(d)->Some_0.0;
        let i = choose|i: int| 0 <= i < ops.len() && (ops[i] is JumpIfZero || ops[i] is JumpIfNonZero);
        assert(o2.len() >= ops.len());
        assert(o2[i] == ops[i]);
    }
}

/// Law: for a source that parses and holds a loop, the report leaves the
/// pointer's offset at the end unknown and does not flag it as unbalanced.
pub proof fn law_pointer_offset_unknown_with_loops(code: Seq<char>, j: int)
    requires
        parse_source(code) is Ok,
        0 <= j < code.len(),
        code[j] == '[',
    ensures
        analysis(code).ptr_end_offset is None,
        !analysis(code).unbalanced_pointer,
{
    lemma_parse_has_jump(code, j);
    lemma_jump_unknown(parse_source(code)->Ok_0);
}

} // verus!

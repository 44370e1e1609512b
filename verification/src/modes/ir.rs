use vstd::prelude::*;

use crate::error::OgreError;
use crate::text::{chars_to_string, is_bf_char, push_repeat, push_str, repeat_char, str_to_chars};

verus! {

/// A single bytecode operation in the IR.
#[derive(Debug, Clone, PartialEq, Eq)]
pub enum Op {
    Add(u8),
    Sub(u8),
    Right(usize),
    Left(usize),
    Output,
    Input,
    JumpIfZero(usize),
    JumpIfNonZero(usize),
    Clear,
    /// Move current cell's value to cell at `data_ptr + offset`, zeroing current cell.
    /// Recognized from patterns like `[->+<]` (MoveAdd(1)) or `[->>+<<]` (MoveAdd(2)).
    MoveAdd(isize),
    /// Move current cell's value by subtracting it from cell at `data_ptr + offset`.
    /// Recognized from patterns like `[->-<]` (MoveSub(1)).
    MoveSub(isize),
    /// Set current cell to a specific value (replaces Clear + Add sequences).
    Assign(u8),
    /// Scan right until a zero cell is found: `[>]`.
    ScanRight,
    /// Scan left until a zero cell is found: `[<]`.
    ScanLeft,
    /// Multiply-move: multiply current cell by factor and add to cell at offset.
    /// `[->+++<]` becomes MultiplyMove(1, 3). Zeroes current cell.
    /// Vec contains (offset, factor) pairs for multi-target multiply moves.
    MultiplyMove(Vec<(isize, u8)>),
}

/// The mathematical value of an [`Op`]: the same operation, with the targets of a
/// multiply-move as a sequence.
pub enum Instr {
    Add(u8),
    Sub(u8),
    Right(usize),
    Left(usize),
    Output,
    Input,
    JumpIfZero(usize),
    JumpIfNonZero(usize),
    Clear,
    MoveAdd(isize),
    MoveSub(isize),
    Assign(u8),
    ScanRight,
    ScanLeft,
    MultiplyMove(Seq<(isize, u8)>),
}

impl View for Op {
    type V = Instr;

    open spec fn view(&self) -> Instr {
        match self {
            Op::Add(n) => Instr::Add(*n),
            Op::Sub(n) => Instr::Sub(*n),
            Op::Right(n) => Instr::Right(*n),
            Op::Left(n) => Instr::Left(*n),
            Op::Output => Instr::Output,
            Op::Input => Instr::Input,
            Op::JumpIfZero(t) => Instr::JumpIfZero(*t),
            Op::JumpIfNonZero(t) => Instr::JumpIfNonZero(*t),
            Op::Clear => Instr::Clear,
            Op::MoveAdd(o) => Instr::MoveAdd(*o),
            Op::MoveSub(o) => Instr::MoveSub(*o),
            Op::Assign(n) => Instr::Assign(*n),
            Op::ScanRight => Instr::ScanRight,
            Op::ScanLeft => Instr::ScanLeft,
            Op::MultiplyMove(v) => Instr::MultiplyMove(v@),
        }
    }
}

/// The instructions of a sequence of ops.
pub open spec fn instrs(ops: Seq<Op>) -> Seq<Instr> {
    ops.map_values(|o: Op| o@)
}

/// A copy of an op with the same value.
pub fn copy_op(op: &Op) -> (r: Op)
    ensures
        r@ == op@,
{
    match op {
        Op::Add(n) => Op::Add(*n),
        Op::Sub(n) => Op::Sub(*n),
        Op::Right(n) => Op::Right(*n),
        Op::Left(n) => Op::Left(*n),
        Op::Output => Op::Output,
        Op::Input => Op::Input,
        Op::JumpIfZero(t) => Op::JumpIfZero(*t),
        Op::JumpIfNonZero(t) => Op::JumpIfNonZero(*t),
        Op::Clear => Op::Clear,
        Op::MoveAdd(o) => Op::MoveAdd(*o),
        Op::MoveSub(o) => Op::MoveSub(*o),
        Op::Assign(n) => Op::Assign(*n),
        Op::ScanRight => Op::ScanRight,
        Op::ScanLeft => Op::ScanLeft,
        Op::MultiplyMove(v) => {
            let mut w: Vec<(isize, u8)> = Vec::new();
            let mut i: usize = 0;
            while i < v.len()
                invariant
                    i <= v.len(),
                    w@ == v@.take(i as int),
                decreases v.len() - i,
            {
                w.push(v[i]);
                i += 1;
                assert(w@ =~= v@.take(i as int));
            }
            assert(v@.take(v@.len() as int) =~= v@);
            Op::MultiplyMove(w)
        },
    }
}

/// A compiled brainfuck program represented as a sequence of IR operations.
#[derive(Debug, Clone)]
pub struct Program {
    pub ops: Vec<Op>,
}

impl View for Program {
    type V = Seq<Instr>;

    open spec fn view(&self) -> Seq<Instr> {
        instrs(self.ops@)
    }
}

// ---------------------------------------------------------------------------
// Parsing
// ---------------------------------------------------------------------------

/// One character of the parse: the ops so far and the stack of open `[` positions.
/// `None` when a `]` has no open `[`.
pub open spec fn parse_char(ops: Seq<Instr>, stack: Seq<int>, c: char) -> Option<(Seq<Instr>, Seq<int>)> {
    let n = ops.len();
    if c == '+' {
        if n > 0 && ops.last() is Add {
            Some((ops.update(n - 1, Instr::Add(vstd::wrapping::u8_specs::wrapping_add(ops.last()->Add_0, 1))), stack))
        } else {
            Some((ops.push(Instr::Add(1)), stack))
        }
    } else if c == '-' {
        if n > 0 && ops.last() is Sub {
            Some((ops.update(n - 1, Instr::Sub(vstd::wrapping::u8_specs::wrapping_add(ops.last()->Sub_0, 1))), stack))
        } else {
            Some((ops.push(Instr::Sub(1)), stack))
        }
    } else if c == '>' {
        if n > 0 && ops.last() is Right {
            Some((ops.update(n - 1, Instr::Right((ops.last()->Right_0 + 1) as usize)), stack))
        } else {
            Some((ops.push(Instr::Right(1)), stack))
        }
    } else if c == '<' {
        if n > 0 && ops.last() is Left {
            Some((ops.update(n - 1, Instr::Left((ops.last()->Left_0 + 1) as usize)), stack))
        } else {
            Some((ops.push(Instr::Left(1)), stack))
        }
    } else if c == '.' {
        Some((ops.push(Instr::Output), stack))
    } else if c == ',' {
        Some((ops.push(Instr::Input), stack))
    } else if c == '[' {
        Some((ops.push(Instr::JumpIfZero(0)), stack.push(n as int)))
    } else if c == ']' {
        if stack.len() == 0 {
            None
        } else {
            let open = stack.last();
            Some((ops.update(open, Instr::JumpIfZero(n as usize)).push(Instr::JumpIfNonZero(open as usize)), stack.drop_last()))
        }
    } else {
        Some((ops, stack))
    }
}

/// The parse of a prefix of the source: ops and open-bracket stack, or `None`
/// once an unmatched `]` has been seen.
pub open spec fn parse_prefix(src: Seq<char>) -> Option<(Seq<Instr>, Seq<int>)>
    decreases src.len(),
{
    if src.len() == 0 {
        Some((Seq::empty(), Seq::empty()))
    } else {
        match parse_prefix(src.drop_last()) {
            None => None,
            Some((ops, stack)) => parse_char(ops, stack, src.last()),
        }
    }
}

/// What `Program::from_source` yields for a source text.
pub open spec fn parse_source(src: Seq<char>) -> Result<Seq<Instr>, OgreError> {
    match parse_prefix(src) {
        None => Err(OgreError::UnmatchedCloseBracket),
        Some((ops, stack)) => if stack.len() > 0 {
            Err(OgreError::UnmatchedOpenBracket(stack.last() as usize))
        } else {
            Ok(ops)
        },
    }
}

/// Every jump names its partner: `[` at `i` jumps to a later `]` that jumps back to `i`.
pub open spec fn jumps_paired(ops: Seq<Instr>) -> bool {
    &&& forall|i: int| 0 <= i < ops.len() && (#[trigger] ops[i]) is JumpIfZero ==> {
        let t = ops[i]->JumpIfZero_0 as int;
        &&& i < t < ops.len()
        &&& ops[t] == Instr::JumpIfNonZero(i as usize)
    }
    &&& forall|i: int| 0 <= i < ops.len() && (#[trigger] ops[i]) is JumpIfNonZero ==> {
        let t = ops[i]->JumpIfNonZero_0 as int;
        &&& 0 <= t < i
        &&& ops[t] == Instr::JumpIfZero(i as usize)
    }
}

/// The shape of the parse state mid-way: stacked `[` still await their partner.
#[verifier::opaque]
pub open spec fn parse_inv(ops: Seq<Instr>, stack: Seq<int>) -> bool {
    &&& forall|k: int| 0 <= k < stack.len() ==> 0 <= #[trigger] stack[k] < ops.len() && ops[stack[k]] is JumpIfZero
    &&& forall|k: int, l: int| 0 <= k < l < stack.len() ==> #[trigger] stack[k] < #[trigger] stack[l]
    &&& forall|i: int| 0 <= i < ops.len() && (#[trigger] ops[i]) is JumpIfZero && !stack.contains(i) ==> {
        let t = ops[i]->JumpIfZero_0 as int;
        &&& i < t < ops.len()
        &&& ops[t] == Instr::JumpIfNonZero(i as usize)
    }
    &&& forall|i: int| 0 <= i < ops.len() && (#[trigger] ops[i]) is JumpIfNonZero ==> {
        let t = ops[i]->JumpIfNonZero_0 as int;
        &&& 0 <= t < i
        &&& ops[t] == Instr::JumpIfZero(i as usize)
        &&& !stack.contains(t)
    }
}

proof fn lemma_parse_char_inv(ops: Seq<Instr>, stack: Seq<int>, c: char)
    requires
        parse_inv(ops, stack),
        ops.len() < usize::MAX,
    ensures
        parse_char(ops, stack, c) matches Some((o2, s2)) ==> parse_inv(o2, s2),
{
    reveal(parse_inv);
    let n = ops.len() as int;
    if let Some((o2, s2)) = parse_char(ops, stack, c) {
        if c == ']' {
            let open = stack.last();
            assert forall|k: int| 0 <= k < s2.len() implies 0 <= #[trigger] s2[k] < o2.len() && o2[s2[k]] is JumpIfZero by {
                assert(s2[k] == stack[k]);
                assert(stack[k] < open);
            }
            assert forall|i: int| 0 <= i < o2.len() && (#[trigger] o2[i]) is JumpIfZero && !s2.contains(i) implies ({
                let t = o2[i]->JumpIfZero_0 as int;
                &&& i < t < o2.len()
                &&& o2[t] == Instr::JumpIfNonZero(i as usize)
            }) by {
                if i != open {
                    assert(ops[i] is JumpIfZero);
                    if stack.contains(i) {
                        let k = choose|k: int| 0 <= k < stack.len() && stack[k] == i;
                        if k < stack.len() - 1 {
                            assert(s2[k] == i);
                        }
                    }
                }
            }
            assert forall|i: int| 0 <= i < o2.len() && (#[trigger] o2[i]) is JumpIfNonZero implies ({
                let t = o2[i]->JumpIfNonZero_0 as int;
                &&& 0 <= t < i
                &&& o2[t] == Instr::JumpIfZero(i as usize)
                &&& !s2.contains(t)
            }) by {
                let t = o2[i]->JumpIfNonZero_0 as int;
                if i < n {
                    assert(ops[i] is JumpIfNonZero);
                    assert(t != open);
                    if s2.contains(t) {
                        let k = choose|k: int| 0 <= k < s2.len() && s2[k] == t;
                        assert(stack[k] == t);
                    }
                } else {
                    assert(t == open);
                    if s2.contains(t) {
                        let k = choose|k: int| 0 <= k < s2.len() && s2[k] == t;
                        assert(stack[k] < open);
                    }
                }
            }
        } else if c == '[' {
            assert forall|k: int| 0 <= k < s2.len() implies 0 <= #[trigger] s2[k] < o2.len() && o2[s2[k]] is JumpIfZero by {
                if k < stack.len() {
                    assert(s2[k] == stack[k]);
                }
            }
            assert forall|i: int| 0 <= i < o2.len() && (#[trigger] o2[i]) is JumpIfZero && !s2.contains(i) implies ({
                let t = o2[i]->JumpIfZero_0 as int;
                &&& i < t < o2.len()
                &&& o2[t] == Instr::JumpIfNonZero(i as usize)
            }) by {
                if i == n {
                    assert(s2[s2.len() - 1] == n);
                } else {
                    if stack.contains(i) {
                        let k = choose|k: int| 0 <= k < stack.len() && stack[k] == i;
                        assert(s2[k] == i);
                    }
                }
            }
            assert forall|i: int| 0 <= i < o2.len() && (#[trigger] o2[i]) is JumpIfNonZero implies ({
                let t = o2[i]->JumpIfNonZero_0 as int;
                &&& 0 <= t < i
                &&& o2[t] == Instr::JumpIfZero(i as usize)
                &&& !s2.contains(t)
            }) by {
                assert(ops[i] is JumpIfNonZero);
                let t = o2[i]->JumpIfNonZero_0 as int;
                if s2.contains(t) {
                    let k = choose|k: int| 0 <= k < s2.len() && s2[k] == t;
                    if k < stack.len() {
                        assert(stack[k] == t);
                    }
                }
            }
        } else if c == '+' || c == '-' || c == '>' || c == '<' {
            assert forall|k: int| 0 <= k < s2.len() implies 0 <= #[trigger] s2[k] < o2.len() && o2[s2[k]] is JumpIfZero by {
                assert(ops[stack[k]] is JumpIfZero);
            }
            assert forall|i: int| 0 <= i < o2.len() && (#[trigger] o2[i]) is JumpIfZero && !s2.contains(i) implies ({
                let t = o2[i]->JumpIfZero_0 as int;
                &&& i < t < o2.len()
                &&& o2[t] == Instr::JumpIfNonZero(i as usize)
            }) by {
                assert(ops[i] is JumpIfZero);
            }
            assert forall|i: int| 0 <= i < o2.len() && (#[trigger] o2[i]) is JumpIfNonZero implies ({
                let t = o2[i]->JumpIfNonZero_0 as int;
                &&& 0 <= t < i
                &&& o2[t] == Instr::JumpIfZero(i as usize)
                &&& !s2.contains(t)
            }) by {
                assert(ops[i] is JumpIfNonZero);
            }
        } else {
            assert forall|k: int| 0 <= k < s2.len() implies 0 <= #[trigger] s2[k] < o2.len() && o2[s2[k]] is JumpIfZero by {
                assert(ops[stack[k]] is JumpIfZero);
            }
            assert forall|i: int| 0 <= i < o2.len() && (#[trigger] o2[i]) is JumpIfZero && !s2.contains(i) implies ({
                let t = o2[i]->JumpIfZero_0 as int;
                &&& i < t < o2.len()
                &&& o2[t] == Instr::JumpIfNonZero(i as usize)
            }) by {
                assert(ops[i] is JumpIfZero);
            }
            assert forall|i: int| 0 <= i < o2.len() && (#[trigger] o2[i]) is JumpIfNonZero implies ({
                let t = o2[i]->JumpIfNonZero_0 as int;
                &&& 0 <= t < i
                &&& o2[t] == Instr::JumpIfZero(i as usize)
                &&& !s2.contains(t)
            }) by {
                assert(ops[i] is JumpIfNonZero);
            }
        }
    }
}

proof fn lemma_parse_char_len(ops: Seq<Instr>, stack: Seq<int>, c: char)
    requires
        parse_inv(ops, stack),
    ensures
        parse_char(ops, stack, c) is Some ==> parse_char(ops, stack, c)->Some_0.0.len() <= ops.len() + 1,
{
    reveal(parse_inv);
    let n = ops.len();
    if n > 0 {
        assert(ops.update(n - 1, Instr::Output).len() == n);
    }
    if stack.len() > 0 {
        assert(0 <= stack[stack.len() - 1] < n);
        assert(ops.update(stack.last(), Instr::JumpIfZero(n as usize)).len() == n);
    }
}

/// The parse state of every prefix has the shape `parse_inv` describes, and its
/// ops never outnumber the characters.
pub proof fn lemma_parse_prefix_inv(src: Seq<char>)
    requires
        src.len() < usize::MAX,
    ensures
        parse_prefix(src) is Some ==> parse_inv(parse_prefix(src)->Some_0.0, parse_prefix(src)->Some_0.1),
        parse_prefix(src) is Some ==> parse_prefix(src)->Some_0.0.len() <= src.len(),
    decreases src.len(),
{
    if src.len() == 0 {
        reveal(parse_inv);
    } else {
        lemma_parse_prefix_inv(src.drop_last());
        if parse_prefix(src.drop_last()) is Some {
            let (ops, stack) = parse_prefix(src.drop_last())->Some_0;
            lemma_parse_char_inv(ops, stack, src.last());
            lemma_parse_char_len(ops, stack, src.last());
        }
    }
}

/// Law: the program that `from_source` accepts has every jump paired with its partner.
pub proof fn law_parsed_jumps_paired(src: Seq<char>)
    requires
        src.len() <= isize::MAX,
        parse_source(src) is Ok,
    ensures
        jumps_paired(parse_source(src)->Ok_0),
{
    lemma_parse_prefix_inv(src);
    let (ops, stack) = parse_prefix(src)->Some_0;
    reveal(parse_inv);
    assert forall|i: int| 0 <= i < ops.len() && (#[trigger] ops[i]) is JumpIfZero implies ({
        let t = ops[i]->JumpIfZero_0 as int;
        &&& i < t < ops.len()
        &&& ops[t] == Instr::JumpIfNonZero(i as usize)
    }) by {
        assert(!stack.contains(i));
    }
}

/// Two neighbouring ops that a parse would have merged into one.
pub open spec fn same_run(a: Instr, b: Instr) -> bool {
    (a is Add && b is Add) || (a is Sub && b is Sub) || (a is Right && b is Right) || (a is Left && b is Left)
}

/// The number of `[` ops.
pub open spec fn open_ops(ops: Seq<Instr>) -> nat
    decreases ops.len(),
{
    if ops.len() == 0 {
        0
    } else {
        open_ops(ops.drop_last()) + if ops.last() is JumpIfZero { 1nat } else { 0nat }
    }
}

/// The number of `[` in a text.
pub open spec fn open_chars(s: Seq<char>) -> nat
    decreases s.len(),
{
    if s.len() == 0 {
        0
    } else {
        open_chars(s.drop_last()) + if s.last() == '[' { 1nat } else { 0nat }
    }
}

proof fn lemma_open_ops_update(ops: Seq<Instr>, k: int, x: Instr)
    requires
        0 <= k < ops.len(),
        (ops[k] is JumpIfZero) == (x is JumpIfZero),
    ensures
        open_ops(ops.update(k, x)) == open_ops(ops),
    decreases ops.len(),
{
    let u = ops.update(k, x);
    if k < ops.len() - 1 {
        assert(u.drop_last() =~= ops.drop_last().update(k, x));
        lemma_open_ops_update(ops.drop_last(), k, x);
    } else {
        assert(u.drop_last() =~= ops.drop_last());
    }
}

proof fn lemma_open_ops_push(ops: Seq<Instr>, x: Instr)
    ensures
        open_ops(ops.push(x)) == open_ops(ops) + if x is JumpIfZero { 1nat } else { 0nat },
{
    assert(ops.push(x).drop_last() =~= ops);
}

proof fn lemma_parse_shape(src: Seq<char>)
    requires
        src.len() <= isize::MAX,
        parse_prefix(src) is Some,
    ensures
        ({
            let ops = parse_prefix(src)->Some_0.0;
            &&& forall|i: int| 0 <= i < ops.len() - 1 ==> !same_run(#[trigger] ops[i], ops[i + 1])
            &&& open_ops(ops) == open_chars(src)
        }),
    decreases src.len(),
{
    let d = src.drop_last();
    if src.len() > 0 {
        lemma_parse_shape(d);
        lemma_parse_prefix_inv(d);
        reveal(parse_inv);
        let (ops, stack) = parse_prefix(d)->Some_0;
        let c = src.last();
        let n = ops.len() as int;
        let o2 = parse_prefix(src)->Some_0.0;
        if (c == '+' && n > 0 && ops.last() is Add) || (c == '-' && n > 0 && ops.last() is Sub)
            || (c == '>' && n > 0 && ops.last() is Right) || (c == '<' && n > 0 && ops.last() is Left) {
            assert(o2 == ops.update(n - 1, o2[n - 1]));
            assert(same_run(ops[n - 1], o2[n - 1]));
            lemma_open_ops_update(ops, n - 1, o2[n - 1]);
            assert forall|i: int| 0 <= i < o2.len() - 1 implies !same_run(#[trigger] o2[i], o2[i + 1]) by {
                assert(!same_run(ops[i], ops[i + 1]));
            }
        } else if c == ']' {
            let open = stack.last();
            assert(stack[stack.len() - 1] == open);
            let u = ops.update(open, Instr::JumpIfZero(n as usize));
            lemma_open_ops_update(ops, open, Instr::JumpIfZero(n as usize));
            lemma_open_ops_push(u, Instr::JumpIfNonZero(open as usize));
            assert forall|i: int| 0 <= i < o2.len() - 1 implies !same_run(#[trigger] o2[i], o2[i + 1]) by {
                if i + 1 < n && i != open && i + 1 != open {
                    assert(!same_run(ops[i], ops[i + 1]));
                }
            }
        } else if c == '+' || c == '-' || c == '>' || c == '<' || c == '.' || c == ',' || c == '[' {
            let x = o2.last();
            assert(o2 =~= ops.push(x));
            lemma_open_ops_push(ops, x);
            assert forall|i: int| 0 <= i < o2.len() - 1 implies !same_run(#[trigger] o2[i], o2[i + 1]) by {
                if i + 1 < n {
                    assert(!same_run(ops[i], ops[i + 1]));
                }
            }
        }
    }
}

/// Law: a parsed program holds each run of `+`, `-`, `>` or `<` in one op, so
/// no two neighbouring ops are of the same such kind, and it has one
/// `JumpIfZero` for each `[` of the source.
pub proof fn law_parsed_shape(src: Seq<char>)
    requires
        src.len() <= isize::MAX,
        parse_source(src) is Ok,
    ensures
        forall|i: int| 0 <= i < parse_source(src)->Ok_0.len() - 1 ==> !same_run(
            #[trigger] parse_source(src)->Ok_0[i],
            parse_source(src)->Ok_0[i + 1],
        ),
        open_ops(parse_source(src)->Ok_0) == open_chars(src),
{
    lemma_parse_shape(src);
}


// ---------------------------------------------------------------------------
// Programs without loops
// ---------------------------------------------------------------------------

/// An op of a program without loops, as parsing makes them.
pub open spec fn line_instr(x: Instr) -> bool {
    x is Add || x is Sub || x is Right || x is Left || x is Output || x is Input
}

pub open spec fn line_prog(s: Seq<Instr>) -> bool {
    forall|i: int| 0 <= i < s.len() ==> line_instr(#[trigger] s[i])
}

proof fn lemma_line_skip(s: Seq<Instr>, k: int)
    requires
        line_prog(s),
        0 <= k <= s.len(),
    ensures
        line_prog(s.skip(k)),
{
    assert forall|i: int| 0 <= i < s.skip(k).len() implies line_instr(#[trigger] s.skip(k)[i]) by {
        assert(s.skip(k)[i] == s[k + i]);
    }
}

proof fn lemma_line_passes(s: Seq<Instr>)
    requires
        line_prog(s),
    ensures
        clear_pass(s) == s,
        move_pass(s) == s,
        scan_pass(s) == s,
        assign_pass(s) == s,
    decreases s.len(),
{
    if s.len() > 0 {
        lemma_line_skip(s, 1);
        lemma_line_passes(s.skip(1));
        assert(line_instr(s[0]));
        assert(seq![s[0]] + s.skip(1) =~= s);
        if s.len() >= 3 {
            assert(line_instr(s[2]));
        }
        if s.len() >= 6 {
            assert(move_rewrite(s) is None);
        }
    }
}

proof fn lemma_line_mm(s: Seq<Instr>, i: int)
    requires
        line_prog(s),
    ensures
        mm_from(s, i) == s,
    decreases s.len() - i,
{
    if 0 <= i < s.len() {
        assert(line_instr(s[i]));
        lemma_line_mm(s, i + 1);
    }
}

proof fn lemma_line_reindex(s: Seq<Instr>, i: int, st: Seq<int>)
    requires
        line_prog(s),
    ensures
        reindex_from(s, i, st) == s,
    decreases s.len() - i,
{
    if 0 <= i < s.len() {
        assert(line_instr(s[i]));
        lemma_line_reindex(s, i + 1, st);
    }
}

proof fn lemma_line_merge(a: Instr, b: Instr)
    requires
        line_instr(a),
        line_instr(b),
    ensures
        merge_pair(a, b) matches Some(Some(x)) ==> line_instr(x),
{
}

pub proof fn lemma_line_cancel_once(s: Seq<Instr>)
    requires
        line_prog(s),
    ensures
        line_prog(cancel_once(s)),
    decreases s.len(),
{
    if s.len() >= 2 {
        lemma_line_skip(s, 1);
        lemma_line_skip(s, 2);
        lemma_line_cancel_once(s.skip(1));
        lemma_line_cancel_once(s.skip(2));
        assert(line_instr(s[0]) && line_instr(s[1]));
        lemma_line_merge(s[0], s[1]);
        match merge_pair(s[0], s[1]) {
            Some(m) => {
                let r = opt_seq(m) + cancel_once(s.skip(2));
                assert forall|i: int| 0 <= i < r.len() implies line_instr(#[trigger] r[i]) by {
                    if i < opt_seq(m).len() {
                    } else {
                        assert(r[i] == cancel_once(s.skip(2))[i - opt_seq(m).len()]);
                    }
                }
            },
            None => {
                let r = seq![s[0]] + cancel_once(s.skip(1));
                assert forall|i: int| 0 <= i < r.len() implies line_instr(#[trigger] r[i]) by {
                    if i > 0 {
                        assert(r[i] == cancel_once(s.skip(1))[i - 1]);
                    }
                }
            },
        }
    }
}

proof fn lemma_line_cancel_fix(s: Seq<Instr>)
    requires
        line_prog(s),
    ensures
        line_prog(cancel_fix(s)),
    decreases s.len(),
{
    if cancel_changes(s) {
        lemma_cancel_once_len(s);
        lemma_line_cancel_once(s);
        lemma_line_cancel_fix(cancel_once(s));
    }
}

/// On a program without loops the optimizer only merges neighbouring ops.
pub proof fn lemma_line_optimize(s: Seq<Instr>)
    requires
        line_prog(s),
    ensures
        optimize_spec(s) == cancel_fix(s),
        line_prog(cancel_fix(s)),
{
    lemma_line_passes(s);
    lemma_line_mm(s, 0);
    lemma_line_cancel_fix(s);
    lemma_line_passes(cancel_fix(s));
    lemma_line_reindex(cancel_fix(s), 0, Seq::empty());
}

/// Parsing a text without brackets succeeds and gives a program without loops.
pub proof fn lemma_parse_line(src: Seq<char>)
    requires
        !src.contains('['),
        !src.contains(']'),
    ensures
        parse_prefix(src) is Some,
        parse_prefix(src)->Some_0.1.len() == 0,
        line_prog(parse_prefix(src)->Some_0.0),
        parse_prefix(src)->Some_0.0.len() <= src.len(),
    decreases src.len(),
{
    if src.len() > 0 {
        let d = src.drop_last();
        assert(!d.contains('[')) by {
            if d.contains('[') {
                let k = choose|k: int| 0 <= k < d.len() && d[k] == '[';
                assert(src[k] == '[');
            }
        }
        assert(!d.contains(']')) by {
            if d.contains(']') {
                let k = choose|k: int| 0 <= k < d.len() && d[k] == ']';
                assert(src[k] == ']');
            }
        }
        lemma_parse_line(d);
        let (ops, st) = parse_prefix(d)->Some_0;
        let c = src.last();
        assert(src[src.len() - 1] == c);
        assert(c != '[' && c != ']');
        let o2 = parse_prefix(src)->Some_0.0;
        assert forall|i: int| 0 <= i < o2.len() implies line_instr(#[trigger] o2[i]) by {
            if i < ops.len() {
                if i == ops.len() - 1 && o2[i] != ops[i] {
                } else {
                    assert(o2[i] == ops[i]);
                }
            }
        }
    }
}

impl Program {
    /// Parse brainfuck source into an IR program with run-length collapsing
    /// and bracket pairing. Non-BF characters are ignored.
    pub fn from_source(source: &str) -> (r: Result<Program, OgreError>)
        ensures
            match r {
                Ok(p) => parse_source(source@) == Ok::<Seq<Instr>, OgreError>(p@),
                Err(e) => parse_source(source@) == Err::<Seq<Instr>, OgreError>(e),
            },
    {
        let chars = str_to_chars(source);
        let mut ops: Vec<Op> = Vec::new();
        let mut stack: Vec<usize> = Vec::new();
        let mut i: usize = 0;
        proof {
            reveal(parse_inv);
        }
        while i < chars.len()
            invariant
                i <= chars.len(),
                chars@ == source@,
                ops@.len() <= i,
                parse_prefix(chars@.take(i as int)) == Some((instrs(ops@), stack@.map_values(|x: usize| x as int))),
                parse_inv(instrs(ops@), stack@.map_values(|x: usize| x as int)),
                forall|k: int| 0 <= k < ops@.len() ==> (#[trigger] instrs(ops@)[k] is Right ==> instrs(ops@)[k]->Right_0 <= i)
                    && (instrs(ops@)[k] is Left ==> instrs(ops@)[k]->Left_0 <= i),
            decreases chars.len() - i,
        {
            let c = chars[i];
            let ghost pre_ops = instrs(ops@);
            let ghost pre_stack = stack@.map_values(|x: usize| x as int);
            assert(chars@.take(i + 1).drop_last() =~= chars@.take(i as int));
            let n = ops.len();
            if c == '+' {
                let last: Option<u8> = if n > 0 { match &ops[n - 1] { Op::Add(m) => Some(*m), _ => None } } else { None };
                if let Some(m) = last {
                    ops.set(n - 1, Op::Add(m.wrapping_add(1)));
                } else {
                    ops.push(Op::Add(1));
                }
            } else if c == '-' {
                let last: Option<u8> = if n > 0 { match &ops[n - 1] { Op::Sub(m) => Some(*m), _ => None } } else { None };
                if let Some(m) = last {
                    ops.set(n - 1, Op::Sub(m.wrapping_add(1)));
                } else {
                    ops.push(Op::Sub(1));
                }
            } else if c == '>' {
                let last: Option<usize> = if n > 0 { match &ops[n - 1] { Op::Right(m) => Some(*m), _ => None } } else { None };
                if let Some(m) = last {
                    assert(instrs(ops@)[n - 1] == Instr::Right(m));
                    ops.set(n - 1, Op::Right(m + 1));
                } else {
                    ops.push(Op::Right(1));
                }
            } else if c == '<' {
                let last: Option<usize> = if n > 0 { match &ops[n - 1] { Op::Left(m) => Some(*m), _ => None } } else { None };
                if let Some(m) = last {
                    assert(instrs(ops@)[n - 1] == Instr::Left(m));
                    ops.set(n - 1, Op::Left(m + 1));
                } else {
                    ops.push(Op::Left(1));
                }
            } else if c == '.' {
                ops.push(Op::Output);
            } else if c == ',' {
                ops.push(Op::Input);
            } else if c == '[' {
                ops.push(Op::JumpIfZero(0));
                stack.push(n);
            } else if c == ']' {
                if stack.len() == 0 {
                    proof {
                        lemma_prefix_none_stays(chars@, i as int + 1);
                    }
                    return Err(OgreError::UnmatchedCloseBracket);
                }
                proof {
                    reveal(parse_inv);
                    assert(pre_stack[pre_stack.len() - 1] < pre_ops.len());
                }
                let open = stack.pop().unwrap();
                ops.set(open, Op::JumpIfZero(n));
                ops.push(Op::JumpIfNonZero(open));
            }
            proof {
                lemma_parse_char_inv(pre_ops, pre_stack, c);
                lemma_parse_char_len(pre_ops, pre_stack, c);
                assert(instrs(ops@) =~= parse_char(pre_ops, pre_stack, c)->Some_0.0);
                assert(stack@.map_values(|x: usize| x as int) =~= parse_char(pre_ops, pre_stack, c)->Some_0.1);
            }
            i += 1;
        }
        assert(chars@.take(chars@.len() as int) =~= chars@);
        if stack.len() > 0 {
            let pos = stack[stack.len() - 1];
            return Err(OgreError::UnmatchedOpenBracket(pos));
        }
        Ok(Program { ops })
    }
}

/// Once a `]` is unmatched, every longer prefix is rejected too.
proof fn lemma_prefix_none_stays(src: Seq<char>, k: int)
    requires
        0 < k <= src.len(),
        parse_prefix(src.take(k)) is None,
    ensures
        parse_prefix(src) is None,
    decreases src.len() - k,
{
    if k < src.len() {
        assert(src.take(k + 1).drop_last() =~= src.take(k));
        lemma_prefix_none_stays(src, k + 1);
    } else {
        assert(src.take(k) =~= src);
    }
}


// ---------------------------------------------------------------------------
// Back to brainfuck text
// ---------------------------------------------------------------------------

/// `|o|` for an offset.
pub open spec fn offset_abs(o: isize) -> nat {
    if o < 0 { (-(o as int)) as nat } else { o as nat }
}

/// The moves that reach the cell at offset `o`.
pub open spec fn moves_there(o: isize) -> Seq<char> {
    if o > 0 { repeat_char('>', o as nat) } else { repeat_char('<', offset_abs(o)) }
}

/// The moves that come back from the cell at offset `o`.
pub open spec fn moves_back(o: isize) -> Seq<char> {
    if o > 0 { repeat_char('<', o as nat) } else { repeat_char('>', offset_abs(o)) }
}

/// The loop body text of a multiply-move's targets.
pub open spec fn targets_text(ts: Seq<(isize, u8)>) -> Seq<char>
    decreases ts.len(),
{
    if ts.len() == 0 {
        Seq::empty()
    } else {
        targets_text(ts.drop_last()) + moves_there(ts.last().0) + repeat_char('+', ts.last().1 as nat)
            + moves_back(ts.last().0)
    }
}

/// The brainfuck text of one instruction.
pub open spec fn op_text(op: Instr) -> Seq<char> {
    match op {
        Instr::Add(n) => repeat_char('+', n as nat),
        Instr::Sub(n) => repeat_char('-', n as nat),
        Instr::Right(n) => repeat_char('>', n as nat),
        Instr::Left(n) => repeat_char('<', n as nat),
        Instr::Output => seq!['.'],
        Instr::Input => seq![','],
        Instr::JumpIfZero(_) => seq!['['],
        Instr::JumpIfNonZero(_) => seq![']'],
        Instr::Clear => seq!['[', '-', ']'],
        Instr::MoveAdd(o) => seq!['[', '-'] + moves_there(o) + seq!['+'] + moves_back(o) + seq![']'],
        Instr::MoveSub(o) => seq!['[', '-'] + moves_there(o) + seq!['-'] + moves_back(o) + seq![']'],
        Instr::Assign(n) => seq!['[', '-', ']'] + repeat_char('+', n as nat),
        Instr::ScanRight => seq!['[', '>', ']'],
        Instr::ScanLeft => seq!['[', '<', ']'],
        Instr::MultiplyMove(ts) => seq!['[', '-'] + targets_text(ts) + seq![']'],
    }
}

/// The brainfuck text of a sequence of instructions.
pub open spec fn ops_text(ops: Seq<Instr>) -> Seq<char>
    decreases ops.len(),
{
    if ops.len() == 0 {
        Seq::empty()
    } else {
        ops_text(ops.drop_last()) + op_text(ops.last())
    }
}

/// The brainfuck characters of a text, in order (comments dropped).
pub open spec fn bf_filter(s: Seq<char>) -> Seq<char>
    decreases s.len(),
{
    if s.len() == 0 {
        Seq::empty()
    } else if is_bf_char(s.last()) {
        bf_filter(s.drop_last()).push(s.last())
    } else {
        bf_filter(s.drop_last())
    }
}

fn push_moves_there(out: &mut Vec<char>, o: isize)
    ensures
        final(out)@ == old(out)@ + moves_there(o),
{
    if o > 0 {
        push_repeat(out, '>', o as usize);
    } else {
        let a: usize = if o == isize::MIN { (isize::MAX as usize) + 1 } else { (-o) as usize };
        push_repeat(out, '<', a);
    }
}

fn push_moves_back(out: &mut Vec<char>, o: isize)
    ensures
        final(out)@ == old(out)@ + moves_back(o),
{
    if o > 0 {
        push_repeat(out, '<', o as usize);
    } else {
        let a: usize = if o == isize::MIN { (isize::MAX as usize) + 1 } else { (-o) as usize };
        push_repeat(out, '>', a);
    }
}

/// Append the brainfuck text of one op.
pub fn push_op_text(out: &mut Vec<char>, op: &Op)
    ensures
        final(out)@ == old(out)@ + op_text(op@),
{
    let ghost start = out@;
    match op {
        Op::Add(n) => push_repeat(out, '+', *n as usize),
        Op::Sub(n) => push_repeat(out, '-', *n as usize),
        Op::Right(n) => push_repeat(out, '>', *n),
        Op::Left(n) => push_repeat(out, '<', *n),
        Op::Output => out.push('.'),
        Op::Input => out.push(','),
        Op::JumpIfZero(_) => out.push('['),
        Op::JumpIfNonZero(_) => out.push(']'),
        Op::Clear => {
            out.push('[');
            out.push('-');
            out.push(']');
        },
        Op::MoveAdd(o) => {
            out.push('[');
            out.push('-');
            push_moves_there(out, *o);
            out.push('+');
            push_moves_back(out, *o);
            out.push(']');
        },
        Op::MoveSub(o) => {
            out.push('[');
            out.push('-');
            push_moves_there(out, *o);
            out.push('-');
            push_moves_back(out, *o);
            out.push(']');
        },
        Op::Assign(n) => {
            out.push('[');
            out.push('-');
            out.push(']');
            push_repeat(out, '+', *n as usize);
        },
        Op::ScanRight => {
            out.push('[');
            out.push('>');
            out.push(']');
        },
        Op::ScanLeft => {
            out.push('[');
            out.push('<');
            out.push(']');
        },
        Op::MultiplyMove(ts) => {
            out.push('[');
            out.push('-');
            let ghost mid = out@;
            let mut j: usize = 0;
            while j < ts.len()
                invariant
                    j <= ts.len(),
                    out@ == mid + targets_text(ts@.take(j as int)),
                decreases ts.len() - j,
            {
                let (o, f) = ts[j];
                push_moves_there(out, o);
                push_repeat(out, '+', f as usize);
                push_moves_back(out, o);
                proof {
                    assert(ts@.take(j + 1).drop_last() =~= ts@.take(j as int));
                }
                j += 1;
            }
            assert(ts@.take(ts@.len() as int) =~= ts@);
            out.push(']');
        },
    }
    proof {
        assert(out@ =~= start + op_text(op@));
    }
}

impl Program {
    /// Convert the IR back to a brainfuck source string.
    pub fn to_bf_string(&self) -> (s: String)
        ensures
            s@ == ops_text(self@),
    {
        let mut out: Vec<char> = Vec::new();
        let mut i: usize = 0;
        while i < self.ops.len()
            invariant
                i <= self.ops.len(),
                out@ == ops_text(self@.take(i as int)),
            decreases self.ops.len() - i,
        {
            push_op_text(&mut out, &self.ops[i]);
            proof {
                assert(self@.take(i + 1).drop_last() =~= self@.take(i as int));
            }
            i += 1;
        }
        assert(self@.take(self@.len() as int) =~= self@);
        chars_to_string(&out)
    }
}


/// No run of 256 or more `+`, nor of `-`, in a text. (Runs that long wrap the
/// 8-bit counter of one op.)
pub open spec fn no_long_run(g: Seq<char>) -> bool {
    forall|i: int|
        0 <= i && i + 256 <= g.len() ==> #[trigger] g.subrange(i, i + 256) != repeat_char('+', 256)
            && g.subrange(i, i + 256) != repeat_char('-', 256)
}

proof fn lemma_no_long_run_prefix(g: Seq<char>, h: Seq<char>)
    requires
        no_long_run(g),
        h.len() <= g.len(),
        h == g.take(h.len() as int),
    ensures
        no_long_run(h),
{
    assert forall|i: int| 0 <= i && i + 256 <= h.len() implies #[trigger] h.subrange(i, i + 256) != repeat_char('+', 256)
        && h.subrange(i, i + 256) != repeat_char('-', 256) by {
        assert(h.subrange(i, i + 256) =~= g.subrange(i, i + 256));
    }
}

proof fn lemma_bf_filter_prefix(src: Seq<char>)
    requires
        src.len() > 0,
    ensures
        bf_filter(src.drop_last()) == bf_filter(src).take(bf_filter(src.drop_last()).len() as int),
        bf_filter(src.drop_last()).len() <= bf_filter(src).len(),
{
    let f = bf_filter(src.drop_last());
    if is_bf_char(src.last()) {
        assert(f =~= f.push(src.last()).take(f.len() as int));
    } else {
        assert(f =~= f.take(f.len() as int));
    }
}

proof fn lemma_bf_filter_len(src: Seq<char>)
    ensures
        bf_filter(src).len() <= src.len(),
    decreases src.len(),
{
    if src.len() > 0 {
        lemma_bf_filter_len(src.drop_last());
    }
}

/// Replacing an instruction by one with the same text keeps the text.
proof fn lemma_text_update(ops: Seq<Instr>, k: int, x: Instr)
    requires
        0 <= k < ops.len(),
        op_text(x) == op_text(ops[k]),
    ensures
        ops_text(ops.update(k, x)) == ops_text(ops),
    decreases ops.len(),
{
    let u = ops.update(k, x);
    if k == ops.len() - 1 {
        assert(u.drop_last() =~= ops.drop_last());
    } else {
        assert(u.drop_last() =~= ops.drop_last().update(k, x));
        lemma_text_update(ops.drop_last(), k, x);
    }
}

proof fn lemma_text_push(ops: Seq<Instr>, x: Instr)
    ensures
        ops_text(ops.push(x)) == ops_text(ops) + op_text(x),
{
    assert(ops.push(x).drop_last() =~= ops);
}

/// The text of the parse of a prefix is the brainfuck of that prefix.
proof fn lemma_roundtrip(src: Seq<char>)
    requires
        src.len() < usize::MAX,
        parse_prefix(src) is Some,
        no_long_run(bf_filter(src)),
    ensures
        ops_text(parse_prefix(src)->Some_0.0) == bf_filter(src),
    decreases src.len(),
{
    if src.len() > 0 {
        let pre = src.drop_last();
        let c = src.last();
        lemma_bf_filter_prefix(src);
        lemma_no_long_run_prefix(bf_filter(src), bf_filter(pre));
        lemma_roundtrip(pre);
        lemma_parse_prefix_inv(pre);
        lemma_bf_filter_len(pre);
        let (ops, stack) = parse_prefix(pre)->Some_0;
        let f = bf_filter(pre);
        let g = bf_filter(src);
        let n = ops.len();
        assert(ops_text(ops) == f);
        if n > 0 {
            assert(ops =~= ops.drop_last().push(ops.last()));
            lemma_text_push(ops.drop_last(), ops.last());
        }
        if c == '+' {
            if n > 0 && ops.last() is Add {
                let m = ops.last()->Add_0;
                let t = ops_text(ops.drop_last());
                assert(f =~= t + repeat_char('+', m as nat));
                if m == 255 {
                    assert(g =~= f.push('+'));
                    assert(g.subrange(t.len() as int, t.len() as int + 256) =~= repeat_char('+', 256));
                } else {
                    let x = Instr::Add((m + 1) as u8);
                    assert(ops.update(n - 1, x) =~= ops.drop_last().push(x));
                    lemma_text_push(ops.drop_last(), x);
                    assert(repeat_char('+', (m + 1) as nat) =~= repeat_char('+', m as nat).push('+'));
                    assert(g =~= f.push('+'));
                }
            } else {
                lemma_text_push(ops, Instr::Add(1));
                assert(repeat_char('+', 1) =~= seq!['+']);
            }
        } else if c == '-' {
            if n > 0 && ops.last() is Sub {
                let m = ops.last()->Sub_0;
                let t = ops_text(ops.drop_last());
                assert(f =~= t + repeat_char('-', m as nat));
                if m == 255 {
                    assert(g =~= f.push('-'));
                    assert(g.subrange(t.len() as int, t.len() as int + 256) =~= repeat_char('-', 256));
                } else {
                    let x = Instr::Sub((m + 1) as u8);
                    assert(ops.update(n - 1, x) =~= ops.drop_last().push(x));
                    lemma_text_push(ops.drop_last(), x);
                    assert(repeat_char('-', (m + 1) as nat) =~= repeat_char('-', m as nat).push('-'));
                    assert(g =~= f.push('-'));
                }
            } else {
                lemma_text_push(ops, Instr::Sub(1));
                assert(repeat_char('-', 1) =~= seq!['-']);
            }
        } else if c == '>' {
            if n > 0 && ops.last() is Right {
                let m = ops.last()->Right_0;
                let t = ops_text(ops.drop_last());
                assert(f =~= t + repeat_char('>', m as nat));
                let x = Instr::Right((m + 1) as usize);
                assert(ops.update(n - 1, x) =~= ops.drop_last().push(x));
                lemma_text_push(ops.drop_last(), x);
                assert(repeat_char('>', (m + 1) as nat) =~= repeat_char('>', m as nat).push('>'));
                assert(g =~= f.push('>'));
            } else {
                lemma_text_push(ops, Instr::Right(1));
                assert(repeat_char('>', 1) =~= seq!['>']);
            }
        } else if c == '<' {
            if n > 0 && ops.last() is Left {
                let m = ops.last()->Left_0;
                let t = ops_text(ops.drop_last());
                assert(f =~= t + repeat_char('<', m as nat));
                let x = Instr::Left((m + 1) as usize);
                assert(ops.update(n - 1, x) =~= ops.drop_last().push(x));
                lemma_text_push(ops.drop_last(), x);
                assert(repeat_char('<', (m + 1) as nat) =~= repeat_char('<', m as nat).push('<'));
                assert(g =~= f.push('<'));
            } else {
                lemma_text_push(ops, Instr::Left(1));
                assert(repeat_char('<', 1) =~= seq!['<']);
            }
        } else if c == '.' {
            lemma_text_push(ops, Instr::Output);
        } else if c == ',' {
            lemma_text_push(ops, Instr::Input);
        } else if c == '[' {
            lemma_text_push(ops, Instr::JumpIfZero(0));
        } else if c == ']' {
            reveal(parse_inv);
            let open = stack.last();
            assert(0 <= stack[stack.len() - 1] < n);
            assert(ops[open] is JumpIfZero);
            lemma_text_update(ops, open, Instr::JumpIfZero(n as usize));
            lemma_text_push(ops.update(open, Instr::JumpIfZero(n as usize)), Instr::JumpIfNonZero(open as usize));
        } else {
        }
    }
}

/// Law: converting a parsed program back to text gives the source's brainfuck,
/// comments dropped — unless a run of 256 `+` or `-` wrapped an op's counter.
pub proof fn law_text_roundtrip(src: Seq<char>)
    requires
        src.len() <= isize::MAX,
        parse_source(src) is Ok,
        no_long_run(bf_filter(src)),
    ensures
        ops_text(parse_source(src)->Ok_0) == bf_filter(src),
{
    lemma_roundtrip(src);
}


// ---------------------------------------------------------------------------
// Optimization passes
// ---------------------------------------------------------------------------

/// The total distance of all `Right` and `Left` moves.
pub open spec fn total_moves(s: Seq<Instr>) -> nat
    decreases s.len(),
{
    if s.len() == 0 {
        0
    } else {
        total_moves(s.drop_last()) + match s.last() {
            Instr::Right(n) => n as nat,
            Instr::Left(n) => n as nat,
            _ => 0,
        }
    }
}

pub open spec fn move_amount(x: Instr) -> nat {
    match x {
        Instr::Right(n) => n as nat,
        Instr::Left(n) => n as nat,
        _ => 0,
    }
}

proof fn lemma_total_moves_concat(a: Seq<Instr>, b: Seq<Instr>)
    ensures
        total_moves(a + b) == total_moves(a) + total_moves(b),
    decreases b.len(),
{
    if b.len() == 0 {
        assert(a + b =~= a);
    } else {
        assert((a + b).drop_last() =~= a + b.drop_last());
        lemma_total_moves_concat(a, b.drop_last());
    }
}

proof fn lemma_total_moves_single(x: Instr)
    ensures
        total_moves(seq![x]) == move_amount(x),
{
    assert(seq![x].drop_last() =~= Seq::<Instr>::empty());
    assert(total_moves(Seq::<Instr>::empty()) == 0);
}

/// A split of a sequence: the moves of a part never exceed those of the whole.
pub proof fn lemma_total_moves_split(s: Seq<Instr>, i: int)
    requires
        0 <= i <= s.len(),
    ensures
        total_moves(s) == total_moves(s.take(i)) + total_moves(s.skip(i)),
{
    assert(s =~= s.take(i) + s.skip(i));
    lemma_total_moves_concat(s.take(i), s.skip(i));
}

proof fn lemma_total_moves_head(s: Seq<Instr>)
    requires
        s.len() > 0,
    ensures
        total_moves(s) == move_amount(s[0]) + total_moves(s.skip(1)),
{
    lemma_total_moves_split(s, 1);
    assert(s.take(1) =~= seq![s[0]]);
    lemma_total_moves_single(s[0]);
}

fn is_jz(op: &Op) -> (r: bool)
    ensures
        r == (op@ is JumpIfZero),
{
    match op {
        Op::JumpIfZero(_) => true,
        _ => false,
    }
}

fn is_jnz(op: &Op) -> (r: bool)
    ensures
        r == (op@ is JumpIfNonZero),
{
    match op {
        Op::JumpIfNonZero(_) => true,
        _ => false,
    }
}

fn is_sub_one(op: &Op) -> (r: bool)
    ensures
        r == (op@ == Instr::Sub(1)),
{
    match op {
        Op::Sub(n) => *n == 1,
        _ => false,
    }
}

fn is_add_one(op: &Op) -> (r: bool)
    ensures
        r == (op@ == Instr::Add(1)),
{
    match op {
        Op::Add(n) => *n == 1,
        _ => false,
    }
}

fn right_amount(op: &Op) -> (r: Option<usize>)
    ensures
        r == (if op@ is Right { Some(op@->Right_0) } else { None::<usize> }),
{
    match op {
        Op::Right(n) => Some(*n),
        _ => None,
    }
}

fn left_amount(op: &Op) -> (r: Option<usize>)
    ensures
        r == (if op@ is Left { Some(op@->Left_0) } else { None::<usize> }),
{
    match op {
        Op::Left(n) => Some(*n),
        _ => None,
    }
}

/// `[-]` becomes `Clear`, scanning left to right.
pub open spec fn clear_pass(s: Seq<Instr>) -> Seq<Instr>
    decreases s.len(),
{
    if s.len() < 3 {
        s
    } else if s[0] is JumpIfZero && s[1] == Instr::Sub(1) && s[2] is JumpIfNonZero {
        seq![Instr::Clear] + clear_pass(s.skip(3))
    } else {
        seq![s[0]] + clear_pass(s.skip(1))
    }
}

/// The move loop that six instructions starting with `[-` and ending with `]` spell, if any.
pub open spec fn move_rewrite(s: Seq<Instr>) -> Option<Instr> {
    if s[0] is JumpIfZero && s[1] == Instr::Sub(1) && s[5] is JumpIfNonZero {
        if s[2] is Right && s[4] is Left && s[2]->Right_0 == s[4]->Left_0 {
            if s[3] == Instr::Add(1) {
                Some(Instr::MoveAdd(s[2]->Right_0 as isize))
            } else if s[3] == Instr::Sub(1) {
                Some(Instr::MoveSub(s[2]->Right_0 as isize))
            } else {
                None
            }
        } else if s[2] is Left && s[4] is Right && s[2]->Left_0 == s[4]->Right_0 {
            if s[3] == Instr::Add(1) {
                Some(Instr::MoveAdd((-(s[2]->Left_0 as int)) as isize))
            } else if s[3] == Instr::Sub(1) {
                Some(Instr::MoveSub((-(s[2]->Left_0 as int)) as isize))
            } else {
                None
            }
        } else {
            None
        }
    } else {
        None
    }
}

/// `[->+<]`-style loops become `MoveAdd`/`MoveSub`, scanning left to right.
pub open spec fn move_pass(s: Seq<Instr>) -> Seq<Instr>
    decreases s.len(),
{
    if s.len() < 6 {
        s
    } else {
        match move_rewrite(s) {
            Some(x) => seq![x] + move_pass(s.skip(6)),
            None => seq![s[0]] + move_pass(s.skip(1)),
        }
    }
}

/// `[>]` and `[<]` become scans, scanning left to right.
pub open spec fn scan_pass(s: Seq<Instr>) -> Seq<Instr>
    decreases s.len(),
{
    if s.len() < 3 {
        s
    } else if s[0] is JumpIfZero && s[2] is JumpIfNonZero && s[1] == Instr::Right(1) {
        seq![Instr::ScanRight] + scan_pass(s.skip(3))
    } else if s[0] is JumpIfZero && s[2] is JumpIfNonZero && s[1] == Instr::Left(1) {
        seq![Instr::ScanLeft] + scan_pass(s.skip(3))
    } else {
        seq![s[0]] + scan_pass(s.skip(1))
    }
}

impl Program {
    /// Replace `[Sub(1)]` (i.e., `[-]`) with `Clear`.
    fn optimize_clear_idiom(&mut self)
        ensures
            final(self)@ == clear_pass(old(self)@),
            total_moves(final(self)@) <= total_moves(old(self)@),
    {
        let ghost orig = self@;
        let mut out: Vec<Op> = Vec::new();
        let n = self.ops.len();
        let mut i: usize = 0;
        proof {
            assert(orig.skip(0) =~= orig);
            assert(instrs(out@) =~= Seq::<Instr>::empty());
            assert(Seq::<Instr>::empty() + orig =~= orig);
            lemma_total_moves_concat(Seq::<Instr>::empty(), orig);
        }
        while i < n
            invariant
                n == self.ops.len(),
                self@ == orig,
                i <= n,
                instrs(out@) + clear_pass(orig.skip(i as int)) == clear_pass(orig),
                total_moves(instrs(out@)) + total_moves(orig.skip(i as int)) <= total_moves(orig),
            decreases n - i,
        {
            let ghost rest = orig.skip(i as int);
            let ghost o_before = instrs(out@);
            proof {
                lemma_total_moves_head(rest);
            }
            if n - i > 2 && is_jz(&self.ops[i]) && is_sub_one(&self.ops[i + 1]) && is_jnz(&self.ops[i + 2]) {
                out.push(Op::Clear);
                proof {
                    assert(rest.skip(3) =~= orig.skip(i + 3));
                    assert(instrs(out@) =~= o_before + seq![Instr::Clear]);
                    lemma_total_moves_concat(o_before, seq![Instr::Clear]);
                    lemma_total_moves_single(Instr::Clear);
                    lemma_total_moves_split(rest, 3);
                }
                i += 3;
            } else {
                out.push(copy_op(&self.ops[i]));
                proof {
                    assert(rest.skip(1) =~= orig.skip(i + 1));
                    assert(instrs(out@) =~= o_before + seq![rest[0]]);
                    if rest.len() < 3 {
                        assert(rest =~= seq![rest[0]] + rest.skip(1));
                    }
                    lemma_total_moves_concat(o_before, seq![rest[0]]);
                    lemma_total_moves_single(rest[0]);
                }
                i += 1;
            }
        }
        proof {
            assert(orig.skip(n as int) =~= Seq::<Instr>::empty());
            assert(instrs(out@) + Seq::<Instr>::empty() =~= instrs(out@));
        }
        self.ops = out;
    }
}


proof fn lemma_total_moves_elem(s: Seq<Instr>, k: int)
    requires
        0 <= k < s.len(),
    ensures
        move_amount(s[k]) <= total_moves(s),
{
    lemma_total_moves_split(s, k);
    lemma_total_moves_head(s.skip(k));
}

/// `[-]+n` becomes `Assign(n)` and a lone `Clear` becomes `Assign(0)`.
pub open spec fn assign_pass(s: Seq<Instr>) -> Seq<Instr>
    decreases s.len(),
{
    if s.len() == 0 {
        s
    } else if s[0] == Instr::Clear {
        if s.len() >= 2 && s[1] is Add {
            seq![Instr::Assign(s[1]->Add_0)] + assign_pass(s.skip(2))
        } else {
            seq![Instr::Assign(0)] + assign_pass(s.skip(1))
        }
    } else {
        seq![s[0]] + assign_pass(s.skip(1))
    }
}

fn move_rewrite_at(ops: &Vec<Op>, i: usize) -> (r: Option<Op>)
    requires
        i + 6 <= ops.len(),
        total_moves(instrs(ops@).skip(i as int)) <= isize::MAX,
    ensures
        match r {
            Some(x) => move_rewrite(instrs(ops@).skip(i as int)) == Some(x@),
            None => move_rewrite(instrs(ops@).skip(i as int)) is None,
        },
{
    let ghost s = instrs(ops@).skip(i as int);
    assert(s[0] == ops@[i as int]@ && s[1] == ops@[i + 1]@ && s[2] == ops@[i + 2]@);
    assert(s[3] == ops@[i + 3]@ && s[4] == ops@[i + 4]@ && s[5] == ops@[i + 5]@);
    if !(is_jz(&ops[i]) && is_sub_one(&ops[i + 1]) && is_jnz(&ops[i + 5])) {
        return None;
    }
    proof {
        lemma_total_moves_elem(s, 2);
    }
    match (right_amount(&ops[i + 2]), left_amount(&ops[i + 4])) {
        (Some(a), Some(b)) => {
            if a == b {
                if is_add_one(&ops[i + 3]) {
                    return Some(Op::MoveAdd(a as isize));
                }
                if is_sub_one(&ops[i + 3]) {
                    return Some(Op::MoveSub(a as isize));
                }
            }
            return None;
        },
        _ => {},
    }
    match (left_amount(&ops[i + 2]), right_amount(&ops[i + 4])) {
        (Some(a), Some(b)) => {
            if a == b {
                if is_add_one(&ops[i + 3]) {
                    return Some(Op::MoveAdd(-(a as isize)));
                }
                if is_sub_one(&ops[i + 3]) {
                    return Some(Op::MoveSub(-(a as isize)));
                }
            }
            None
        },
        _ => None,
    }
}

impl Program {
    /// Detect `[->+<]` and `[-<+>]` move patterns and replace with `MoveAdd(offset)`.
    /// Also detects `[->-<]` for `MoveSub(offset)`.
    fn optimize_move_idiom(&mut self)
        requires
            total_moves(old(self)@) <= isize::MAX,
        ensures
            final(self)@ == move_pass(old(self)@),
            total_moves(final(self)@) <= total_moves(old(self)@),
    {
        let ghost orig = self@;
        let mut out: Vec<Op> = Vec::new();
        let n = self.ops.len();
        let mut i: usize = 0;
        proof {
            assert(orig.skip(0) =~= orig);
            assert(instrs(out@) =~= Seq::<Instr>::empty());
            assert(Seq::<Instr>::empty() + orig =~= orig);
            lemma_total_moves_concat(Seq::<Instr>::empty(), orig);
        }
        while i < n
            invariant
                n == self.ops.len(),
                self@ == orig,
                i <= n,
                total_moves(orig) <= isize::MAX,
                instrs(out@) + move_pass(orig.skip(i as int)) == move_pass(orig),
                total_moves(instrs(out@)) + total_moves(orig.skip(i as int)) <= total_moves(orig),
            decreases n - i,
        {
            let ghost rest = orig.skip(i as int);
            let ghost o_before = instrs(out@);
            proof {
                lemma_total_moves_head(rest);
                lemma_total_moves_split(orig, i as int);
                assert(instrs(self.ops@).skip(i as int) =~= rest);
            }
            let rw = if n - i >= 6 { move_rewrite_at(&self.ops, i) } else { None };
            match rw {
                Some(x) => {
                    out.push(x);
                    proof {
                        assert(rest.skip(6) =~= orig.skip(i + 6));
                        assert(instrs(out@) =~= o_before + seq![x@]);
                        lemma_total_moves_concat(o_before, seq![x@]);
                        lemma_total_moves_single(x@);
                        lemma_total_moves_split(rest, 6);
                    }
                    i += 6;
                },
                None => {
                    out.push(copy_op(&self.ops[i]));
                    proof {
                        assert(rest.skip(1) =~= orig.skip(i + 1));
                        assert(instrs(out@) =~= o_before + seq![rest[0]]);
                        if rest.len() < 6 {
                            assert(rest =~= seq![rest[0]] + rest.skip(1));
                            assert(rest.skip(1).len() < 6);
                        }
                        lemma_total_moves_concat(o_before, seq![rest[0]]);
                        lemma_total_moves_single(rest[0]);
                    }
                    i += 1;
                },
            }
        }
        proof {
            assert(orig.skip(n as int) =~= Seq::<Instr>::empty());
            assert(instrs(out@) + Seq::<Instr>::empty() =~= instrs(out@));
        }
        self.ops = out;
    }

    /// Detect `[>]` and `[<]` scan patterns.
    fn optimize_scan_idiom(&mut self)
        ensures
            final(self)@ == scan_pass(old(self)@),
            total_moves(final(self)@) <= total_moves(old(self)@),
    {
        let ghost orig = self@;
        let mut out: Vec<Op> = Vec::new();
        let n = self.ops.len();
        let mut i: usize = 0;
        proof {
            assert(orig.skip(0) =~= orig);
            assert(instrs(out@) =~= Seq::<Instr>::empty());
            assert(Seq::<Instr>::empty() + orig =~= orig);
            lemma_total_moves_concat(Seq::<Instr>::empty(), orig);
        }
        while i < n
            invariant
                n == self.ops.len(),
                self@ == orig,
                i <= n,
                instrs(out@) + scan_pass(orig.skip(i as int)) == scan_pass(orig),
                total_moves(instrs(out@)) + total_moves(orig.skip(i as int)) <= total_moves(orig),
            decreases n - i,
        {
            let ghost rest = orig.skip(i as int);
            let ghost o_before = instrs(out@);
            proof {
                lemma_total_moves_head(rest);
            }
            let mut scan: Option<Op> = None;
            if n - i > 2 && is_jz(&self.ops[i]) && is_jnz(&self.ops[i + 2]) {
                if right_amount(&self.ops[i + 1]) == Some(1usize) {
                    scan = Some(Op::ScanRight);
                } else if left_amount(&self.ops[i + 1]) == Some(1usize) {
                    scan = Some(Op::ScanLeft);
                }
            }
            match scan {
                Some(x) => {
                    out.push(x);
                    proof {
                        assert(rest.skip(3) =~= orig.skip(i + 3));
                        assert(instrs(out@) =~= o_before + seq![x@]);
                        lemma_total_moves_concat(o_before, seq![x@]);
                        lemma_total_moves_single(x@);
                        lemma_total_moves_split(rest, 3);
                    }
                    i += 3;
                },
                None => {
                    out.push(copy_op(&self.ops[i]));
                    proof {
                        assert(rest.skip(1) =~= orig.skip(i + 1));
                        assert(instrs(out@) =~= o_before + seq![rest[0]]);
                        if rest.len() < 3 {
                            assert(rest =~= seq![rest[0]] + rest.skip(1));
                        }
                        lemma_total_moves_concat(o_before, seq![rest[0]]);
                        lemma_total_moves_single(rest[0]);
                    }
                    i += 1;
                },
            }
        }
        proof {
            assert(orig.skip(n as int) =~= Seq::<Instr>::empty());
            assert(instrs(out@) + Seq::<Instr>::empty() =~= instrs(out@));
        }
        self.ops = out;
    }

    /// Replace Clear + Add(n) with Assign(n), and standalone Clear with Assign(0).
    fn optimize_set_idiom(&mut self)
        ensures
            final(self)@ == assign_pass(old(self)@),
    {
        let ghost orig = self@;
        let mut out: Vec<Op> = Vec::new();
        let n = self.ops.len();
        let mut i: usize = 0;
        proof {
            assert(orig.skip(0) =~= orig);
            assert(instrs(out@) =~= Seq::<Instr>::empty());
            assert(Seq::<Instr>::empty() + orig =~= orig);
        }
        while i < n
            invariant
                n == self.ops.len(),
                self@ == orig,
                i <= n,
                instrs(out@) + assign_pass(orig.skip(i as int)) == assign_pass(orig),
            decreases n - i,
        {
            let ghost rest = orig.skip(i as int);
            let ghost o_before = instrs(out@);
            let is_clear = match &self.ops[i] {
                Op::Clear => true,
                _ => false,
            };
            if is_clear {
                let next_add: Option<u8> = if n - i > 1 {
                    match &self.ops[i + 1] {
                        Op::Add(m) => Some(*m),
                        _ => None,
                    }
                } else {
                    None
                };
                match next_add {
                    Some(m) => {
                        out.push(Op::Assign(m));
                        proof {
                            assert(rest.skip(2) =~= orig.skip(i + 2));
                            assert(instrs(out@) =~= o_before + seq![Instr::Assign(m)]);
                        }
                        i += 2;
                    },
                    None => {
                        out.push(Op::Assign(0));
                        proof {
                            assert(rest.skip(1) =~= orig.skip(i + 1));
                            assert(instrs(out@) =~= o_before + seq![Instr::Assign(0)]);
                        }
                        i += 1;
                    },
                }
            } else {
                out.push(copy_op(&self.ops[i]));
                proof {
                    assert(rest.skip(1) =~= orig.skip(i + 1));
                    assert(instrs(out@) =~= o_before + seq![rest[0]]);
                }
                i += 1;
            }
        }
        proof {
            assert(orig.skip(n as int) =~= Seq::<Instr>::empty());
            assert(instrs(out@) + Seq::<Instr>::empty() =~= instrs(out@));
        }
        self.ops = out;
    }
}


/// The running offset and targets while reading a multiply loop's body; `None`
/// once an op that cannot be in such a body (or an add to the counter cell) is seen.
pub open spec fn mb_state(body: Seq<Instr>) -> Option<(int, Seq<(isize, u8)>)>
    decreases body.len(),
{
    if body.len() == 0 {
        Some((0, Seq::empty()))
    } else {
        match mb_state(body.drop_last()) {
            None => None,
            Some((off, ts)) => match body.last() {
                Instr::Right(n) => Some((off + n, ts)),
                Instr::Left(n) => Some((off - n, ts)),
                Instr::Add(n) => if off == 0 {
                    None
                } else {
                    Some((off, ts.push((off as isize, n))))
                },
                _ => None,
            },
        }
    }
}

/// The targets of a multiply loop's body: moves and adds only, back at the
/// start, at least one add.
pub open spec fn multiply_body(body: Seq<Instr>) -> Option<Seq<(isize, u8)>> {
    match mb_state(body) {
        Some((off, ts)) => if off == 0 && ts.len() > 0 { Some(ts) } else { None },
        None => None,
    }
}

/// Multiply loops become `MultiplyMove`, scanning from `i` on. The loop's end
/// is read from the `[`'s jump target as it stands.
pub open spec fn mm_from(ops: Seq<Instr>, i: int) -> Seq<Instr>
    decreases ops.len() - i,
{
    if i < 0 || i >= ops.len() {
        ops
    } else if ops[i] is JumpIfZero {
        let close = ops[i]->JumpIfZero_0 as int;
        if close < ops.len() && ops[close] is JumpIfNonZero && i + 1 < close && ops[i + 1] == Instr::Sub(1) {
            match multiply_body(ops.subrange(i + 2, close)) {
                Some(ts) => if !(ts.len() == 1 && ts[0].1 == 1) {
                    mm_from(ops.take(i) + seq![Instr::MultiplyMove(ts)] + ops.skip(close + 1), i + 1)
                } else {
                    mm_from(ops, i + 1)
                },
                None => mm_from(ops, i + 1),
            }
        } else {
            mm_from(ops, i + 1)
        }
    } else {
        mm_from(ops, i + 1)
    }
}

proof fn lemma_mb_none_stays(body: Seq<Instr>, k: int)
    requires
        0 <= k <= body.len(),
        mb_state(body.take(k)) is None,
    ensures
        mb_state(body) is None,
    decreases body.len() - k,
{
    if k < body.len() {
        assert(body.take(k + 1).drop_last() =~= body.take(k));
        lemma_mb_none_stays(body, k + 1);
    } else {
        assert(body.take(k) =~= body);
    }
}

fn parse_multiply_body(ops: &Vec<Op>, lo: usize, hi: usize) -> (r: Option<Vec<(isize, u8)>>)
    requires
        lo <= hi <= ops.len(),
        total_moves(instrs(ops@).subrange(lo as int, hi as int)) <= isize::MAX,
    ensures
        match r {
            Some(v) => multiply_body(instrs(ops@).subrange(lo as int, hi as int)) == Some(v@),
            None => multiply_body(instrs(ops@).subrange(lo as int, hi as int)) is None,
        },
{
    let ghost body = instrs(ops@).subrange(lo as int, hi as int);
    let mut targets: Vec<(isize, u8)> = Vec::new();
    let mut off: isize = 0;
    let mut j: usize = lo;
    proof {
        assert(body.take(0) =~= Seq::<Instr>::empty());
        assert(total_moves(Seq::<Instr>::empty()) == 0);
    }
    while j < hi
        invariant
            lo <= j <= hi <= ops.len(),
            body == instrs(ops@).subrange(lo as int, hi as int),
            total_moves(body) <= isize::MAX,
            mb_state(body.take(j - lo)) == Some((off as int, targets@)),
            (if off < 0 { -(off as int) } else { off as int }) <= total_moves(body.take(j - lo)),
        decreases hi - j,
    {
        let ghost k = (j - lo) as int;
        proof {
            assert(body.take(k + 1).drop_last() =~= body.take(k));
            assert(body.take(k + 1).last() == ops@[j as int]@);
            lemma_total_moves_split(body, k + 1);
            assert(total_moves(body.take(k + 1)) == total_moves(body.take(k)) + move_amount(ops@[j as int]@));
        }
        match &ops[j] {
            Op::Right(n) => {
                off = off + (*n as isize);
            },
            Op::Left(n) => {
                off = off - (*n as isize);
            },
            Op::Add(n) => {
                if off == 0 {
                    proof {
                        lemma_mb_none_stays(body, k + 1);
                    }
                    return None;
                }
                targets.push((off, *n));
            },
            _ => {
                proof {
                    lemma_mb_none_stays(body, k + 1);
                }
                return None;
            },
        }
        j += 1;
    }
    proof {
        assert(body.take(body.len() as int) =~= body);
    }
    if off != 0 || targets.len() == 0 {
        return None;
    }
    Some(targets)
}

/// `ops` with `ops[i..=close]` replaced by `x`.
fn splice_one(ops: &Vec<Op>, i: usize, close: usize, x: Op) -> (r: Vec<Op>)
    requires
        i <= close < ops.len(),
    ensures
        instrs(r@) == instrs(ops@).take(i as int) + seq![x@] + instrs(ops@).skip(close + 1),
{
    let mut r: Vec<Op> = Vec::new();
    let mut k: usize = 0;
    while k < i
        invariant
            k <= i <= close < ops.len(),
            instrs(r@) == instrs(ops@).take(k as int),
        decreases i - k,
    {
        let ghost before = instrs(r@);
        let c = copy_op(&ops[k]);
        r.push(c);
        k += 1;
        proof {
            assert(instrs(r@) =~= before.push(c@));
            assert(instrs(r@) =~= instrs(ops@).take(k as int));
        }
    }
    let ghost head = instrs(r@);
    let ghost xv = x@;
    r.push(x);
    proof {
        assert(instrs(r@) =~= head.push(xv));
        assert(instrs(r@) =~= head + seq![xv] + instrs(ops@).subrange(close + 1, close + 1));
    }
    let mut k: usize = close + 1;
    while k < ops.len()
        invariant
            close + 1 <= k <= ops.len(),
            instrs(r@) == head + seq![x@] + instrs(ops@).subrange(close + 1, k as int),
        decreases ops.len() - k,
    {
        let ghost before = instrs(r@);
        let c = copy_op(&ops[k]);
        r.push(c);
        k += 1;
        proof {
            assert(instrs(r@) =~= before.push(c@));
            assert(instrs(r@) =~= head + seq![x@] + instrs(ops@).subrange(close + 1, k as int));
        }
    }
    proof {
        assert(instrs(ops@).subrange(close + 1, ops@.len() as int) =~= instrs(ops@).skip(close + 1));
    }
    r
}

impl Program {
    /// Detect multiplication loops like `[->+++>++<<]` and replace with MultiplyMove.
    fn optimize_multiply_move(&mut self)
        requires
            total_moves(old(self)@) <= isize::MAX,
        ensures
            final(self)@ == mm_from(old(self)@, 0),
            total_moves(final(self)@) <= total_moves(old(self)@),
    {
        let ghost orig = self@;
        let mut i: usize = 0;
        while i < self.ops.len()
            invariant
                mm_from(self@, i as int) == mm_from(orig, 0),
                total_moves(self@) <= total_moves(orig),
                total_moves(orig) <= isize::MAX,
            decreases self.ops.len() - i,
        {
            let ghost cur = self@;
            let close: Option<usize> = match &self.ops[i] {
                Op::JumpIfZero(t) => Some(*t),
                _ => None,
            };
            if let Some(close) = close {
                if close < self.ops.len() && is_jnz(&self.ops[close]) && close > i && close - i > 1 && is_sub_one(&self.ops[i + 1]) {
                    proof {
                        lemma_total_moves_split(cur, close as int);
                        lemma_total_moves_split(cur.take(close as int), i + 2);
                        assert(cur.take(close as int).skip(i + 2) =~= cur.subrange(i + 2, close as int));
                    }
                    match parse_multiply_body(&self.ops, i + 2, close) {
                        Some(ts) => {
                            if !(ts.len() == 1 && ts[0].1 == 1) {
                                let ghost tsv = ts@;
                                let new_ops = splice_one(&self.ops, i, close, Op::MultiplyMove(ts));
                                proof {
                                    let t = cur.take(i as int);
                                    let rest = cur.skip(close + 1);
                                    lemma_total_moves_concat(t + seq![Instr::MultiplyMove(tsv)], rest);
                                    lemma_total_moves_concat(t, seq![Instr::MultiplyMove(tsv)]);
                                    lemma_total_moves_single(Instr::MultiplyMove(tsv));
                                    lemma_total_moves_split(cur, i as int);
                                    lemma_total_moves_split(cur.skip(i as int), close + 1 - i);
                                    assert(cur.skip(i as int).skip(close + 1 - i) =~= rest);
                                }
                                self.ops = new_ops;
                                i += 1;
                                continue;
                            }
                        },
                        None => {},
                    }
                }
            }
            i += 1;
        }
    }
}

/// Two neighbouring ops that cancel or merge: `Some(None)` when they cancel out,
/// `Some(Some(x))` when they merge into `x`, `None` when they stay apart.
pub open spec fn merge_pair(a: Instr, b: Instr) -> Option<Option<Instr>> {
    match (a, b) {
        (Instr::Add(x), Instr::Sub(y)) => Some(
            if x > y { Some(Instr::Add((x - y) as u8)) } else if y > x { Some(Instr::Sub((y - x) as u8)) } else { None },
        ),
        (Instr::Sub(x), Instr::Add(y)) => Some(
            if x > y { Some(Instr::Sub((x - y) as u8)) } else if y > x { Some(Instr::Add((y - x) as u8)) } else { None },
        ),
        (Instr::Right(x), Instr::Left(y)) => Some(
            if x > y { Some(Instr::Right((x - y) as usize)) } else if y > x { Some(Instr::Left((y - x) as usize)) } else { None },
        ),
        (Instr::Left(x), Instr::Right(y)) => Some(
            if x > y { Some(Instr::Left((x - y) as usize)) } else if y > x { Some(Instr::Right((y - x) as usize)) } else { None },
        ),
        (Instr::Add(x), Instr::Add(y)) => Some(Some(Instr::Add(vstd::wrapping::u8_specs::wrapping_add(x, y)))),
        (Instr::Sub(x), Instr::Sub(y)) => Some(Some(Instr::Sub(vstd::wrapping::u8_specs::wrapping_add(x, y)))),
        (Instr::Right(x), Instr::Right(y)) => Some(Some(Instr::Right((x + y) as usize))),
        (Instr::Left(x), Instr::Left(y)) => Some(Some(Instr::Left((x + y) as usize))),
        _ => None,
    }
}

pub open spec fn opt_seq(o: Option<Instr>) -> Seq<Instr> {
    match o {
        Some(x) => seq![x],
        None => Seq::empty(),
    }
}

/// One left-to-right merging pass over neighbouring pairs.
pub open spec fn cancel_once(s: Seq<Instr>) -> Seq<Instr>
    decreases s.len(),
{
    if s.len() < 2 {
        s
    } else {
        match merge_pair(s[0], s[1]) {
            Some(m) => opt_seq(m) + cancel_once(s.skip(2)),
            None => seq![s[0]] + cancel_once(s.skip(1)),
        }
    }
}

/// Whether a merging pass changes anything.
pub open spec fn cancel_changes(s: Seq<Instr>) -> bool
    decreases s.len(),
{
    s.len() >= 2 && (merge_pair(s[0], s[1]) is Some || cancel_changes(s.skip(1)))
}

pub proof fn lemma_cancel_once_len(s: Seq<Instr>)
    ensures
        cancel_once(s).len() <= s.len(),
        cancel_changes(s) ==> cancel_once(s).len() < s.len(),
        !cancel_changes(s) ==> cancel_once(s) == s,
    decreases s.len(),
{
    if s.len() >= 2 {
        lemma_cancel_once_len(s.skip(2));
        lemma_cancel_once_len(s.skip(1));
        if merge_pair(s[0], s[1]) is None && !cancel_changes(s.skip(1)) {
            assert(seq![s[0]] + s.skip(1) =~= s);
        }
    }
}

proof fn lemma_cancel_once_moves(s: Seq<Instr>)
    requires
        total_moves(s) <= isize::MAX,
    ensures
        total_moves(cancel_once(s)) <= total_moves(s),
    decreases s.len(),
{
    if s.len() >= 2 {
        lemma_total_moves_head(s);
        lemma_total_moves_head(s.skip(1));
        assert(s.skip(1).skip(1) =~= s.skip(2));
        match merge_pair(s[0], s[1]) {
            Some(m) => {
                lemma_cancel_once_moves(s.skip(2));
                lemma_total_moves_concat(opt_seq(m), cancel_once(s.skip(2)));
                if let Some(x) = m {
                    lemma_total_moves_single(x);
                } else {
                    assert(total_moves(Seq::<Instr>::empty()) == 0);
                }
            },
            None => {
                lemma_cancel_once_moves(s.skip(1));
                lemma_total_moves_concat(seq![s[0]], cancel_once(s.skip(1)));
                lemma_total_moves_single(s[0]);
            },
        }
    }
}

/// Merging passes repeated until one changes nothing.
pub open spec fn cancel_fix(s: Seq<Instr>) -> Seq<Instr>
    decreases s.len(),
{
    if cancel_changes(s) {
        proof {
            lemma_cancel_once_len(s);
        }
        cancel_fix(cancel_once(s))
    } else {
        s
    }
}

fn merge_exec(a: &Op, b: &Op) -> (r: Option<Option<Op>>)
    requires
        move_amount(a@) + move_amount(b@) <= isize::MAX,
    ensures
        match r {
            None => merge_pair(a@, b@) is None,
            Some(None) => merge_pair(a@, b@) == Some(None::<Instr>),
            Some(Some(x)) => merge_pair(a@, b@) == Some(Some(x@)),
        },
{
    match (a, b) {
        (Op::Add(x), Op::Sub(y)) => Some(
            if *x > *y { Some(Op::Add(*x - *y)) } else if *y > *x { Some(Op::Sub(*y - *x)) } else { None },
        ),
        (Op::Sub(x), Op::Add(y)) => Some(
            if *x > *y { Some(Op::Sub(*x - *y)) } else if *y > *x { Some(Op::Add(*y - *x)) } else { None },
        ),
        (Op::Right(x), Op::Left(y)) => Some(
            if *x > *y { Some(Op::Right(*x - *y)) } else if *y > *x { Some(Op::Left(*y - *x)) } else { None },
        ),
        (Op::Left(x), Op::Right(y)) => Some(
            if *x > *y { Some(Op::Left(*x - *y)) } else if *y > *x { Some(Op::Right(*y - *x)) } else { None },
        ),
        (Op::Add(x), Op::Add(y)) => Some(Some(Op::Add(x.wrapping_add(*y)))),
        (Op::Sub(x), Op::Sub(y)) => Some(Some(Op::Sub(x.wrapping_add(*y)))),
        (Op::Right(x), Op::Right(y)) => Some(Some(Op::Right(*x + *y))),
        (Op::Left(x), Op::Left(y)) => Some(Some(Op::Left(*x + *y))),
        _ => None,
    }
}

fn cancel_pass(ops: &Vec<Op>) -> (r: (Vec<Op>, bool))
    requires
        total_moves(instrs(ops@)) <= isize::MAX,
    ensures
        instrs(r.0@) == cancel_once(instrs(ops@)),
        r.1 == cancel_changes(instrs(ops@)),
{
    let ghost orig = instrs(ops@);
    let mut out: Vec<Op> = Vec::new();
    let mut changed = false;
    let n = ops.len();
    let mut i: usize = 0;
    proof {
        assert(orig.skip(0) =~= orig);
        assert(instrs(out@) + orig =~= orig);
    }
    while i < n
        invariant
            n == ops.len(),
            orig == instrs(ops@),
            i <= n,
            total_moves(orig) <= isize::MAX,
            instrs(out@) + cancel_once(orig.skip(i as int)) == cancel_once(orig),
            cancel_changes(orig) == (changed || cancel_changes(orig.skip(i as int))),
        decreases n - i,
    {
        let ghost rest = orig.skip(i as int);
        let ghost o_before = instrs(out@);
        let m = if n - i > 1 {
            proof {
                lemma_total_moves_split(orig, i as int);
                lemma_total_moves_head(rest);
                lemma_total_moves_head(rest.skip(1));
                assert(rest[0] == ops@[i as int]@ && rest[1] == ops@[i + 1]@);
            }
            merge_exec(&ops[i], &ops[i + 1])
        } else {
            None
        };
        match m {
            Some(mo) => {
                let ghost mv = match mo { Some(ref x) => Some(x@), None => None::<Instr> };
                match mo {
                    Some(x) => out.push(x),
                    None => {},
                }
                changed = true;
                proof {
                    assert(rest.skip(2) =~= orig.skip(i + 2));
                    assert(instrs(out@) =~= o_before + opt_seq(mv));
                }
                i += 2;
            },
            None => {
                out.push(copy_op(&ops[i]));
                proof {
                    assert(rest.skip(1) =~= orig.skip(i + 1));
                    assert(instrs(out@) =~= o_before + seq![rest[0]]);
                    if rest.len() < 2 {
                        assert(rest =~= seq![rest[0]] + rest.skip(1));
                    }
                }
                i += 1;
            },
        }
    }
    proof {
        assert(orig.skip(n as int) =~= Seq::<Instr>::empty());
        assert(instrs(out@) + Seq::<Instr>::empty() =~= instrs(out@));
    }
    (out, changed)
}

impl Program {
    /// Merge/cancel adjacent Add/Sub and Right/Left operations until nothing changes.
    fn optimize_cancellation(&mut self)
        requires
            total_moves(old(self)@) <= isize::MAX,
        ensures
            final(self)@ == cancel_fix(old(self)@),
            total_moves(final(self)@) <= total_moves(old(self)@),
    {
        let ghost orig = self@;
        loop
            invariant
                orig == old(self)@,
                cancel_fix(self@) == cancel_fix(orig),
                total_moves(self@) <= total_moves(orig),
                total_moves(orig) <= isize::MAX,
            decreases self.ops.len(),
        {
            let ghost cur = self@;
            let (next, changed) = cancel_pass(&self.ops);
            proof {
                lemma_cancel_once_len(cur);
                lemma_cancel_once_moves(cur);
            }
            self.ops = next;
            if !changed {
                proof {
                    assert(self@ == cur);
                    assert(cancel_fix(cur) == cur);
                }
                return;
            }
            proof {
                assert(cancel_fix(cur) == cancel_fix(cancel_once(cur)));
            }
        }
    }
}

/// Pair every `]` with the nearest open `[` before it (a stack walk from `i` on),
/// rewriting both jump targets; unmatched brackets keep theirs.
pub open spec fn reindex_from(s: Seq<Instr>, i: int, stack: Seq<int>) -> Seq<Instr>
    decreases s.len() - i,
{
    if i < 0 || i >= s.len() {
        s
    } else if s[i] is JumpIfZero {
        reindex_from(s, i + 1, stack.push(i))
    } else if s[i] is JumpIfNonZero && stack.len() > 0 && 0 <= stack.last() < s.len() {
        let open = stack.last();
        reindex_from(
            s.update(i, Instr::JumpIfNonZero(open as usize)).update(open, Instr::JumpIfZero(i as usize)),
            i + 1,
            stack.drop_last(),
        )
    } else {
        reindex_from(s, i + 1, stack)
    }
}

pub open spec fn reindex(s: Seq<Instr>) -> Seq<Instr> {
    reindex_from(s, 0, Seq::empty())
}

/// What `Program::optimize` makes of a program.
pub open spec fn optimize_spec(s: Seq<Instr>) -> Seq<Instr> {
    reindex(assign_pass(cancel_fix(mm_from(scan_pass(move_pass(clear_pass(s))), 0))))
}

impl Program {
    /// Reindex all jump targets after ops have been inserted/removed.
    fn reindex_jumps(&mut self)
        ensures
            final(self)@ == reindex(old(self)@),
    {
        let ghost orig = self@;
        let mut stack: Vec<usize> = Vec::new();
        let n = self.ops.len();
        let mut i: usize = 0;
        proof {
            assert(stack@.map_values(|x: usize| x as int) =~= Seq::<int>::empty());
        }
        while i < n
            invariant
                n == self.ops.len(),
                i <= n,
                reindex_from(self@, i as int, stack@.map_values(|x: usize| x as int)) == reindex(orig),
                forall|k: int| 0 <= k < stack@.len() ==> stack@[k] < i,
            decreases n - i,
        {
            let ghost cur = self@;
            let ghost st = stack@.map_values(|x: usize| x as int);
            if is_jz(&self.ops[i]) {
                stack.push(i);
                proof {
                    assert(stack@.map_values(|x: usize| x as int) =~= st.push(i as int));
                }
            } else if is_jnz(&self.ops[i]) {
                if stack.len() > 0 {
                    let open = stack.pop().unwrap();
                    self.ops.set(i, Op::JumpIfNonZero(open));
                    self.ops.set(open, Op::JumpIfZero(i));
                    proof {
                        assert(stack@.map_values(|x: usize| x as int) =~= st.drop_last());
                        assert(self@ =~= cur.update(i as int, Instr::JumpIfNonZero(open)).update(open as int, Instr::JumpIfZero(i)));
                    }
                }
            }
            i += 1;
        }
    }

    /// Apply optimization passes to the program.
    pub fn optimize(&mut self)
        requires
            total_moves(old(self)@) <= isize::MAX,
        ensures
            final(self)@ == optimize_spec(old(self)@),
    {
        self.optimize_clear_idiom();
        self.optimize_move_idiom();
        self.optimize_scan_idiom();
        self.optimize_multiply_move();
        self.optimize_cancellation();
        self.optimize_set_idiom();
        self.reindex_jumps();
    }
}


proof fn lemma_total_moves_update(s: Seq<Instr>, k: int, x: Instr)
    requires
        0 <= k < s.len(),
    ensures
        total_moves(s.update(k, x)) + move_amount(s[k]) == total_moves(s) + move_amount(x),
{
    let u = s.update(k, x);
    lemma_total_moves_split(s, k);
    lemma_total_moves_split(u, k);
    assert(u.take(k) =~= s.take(k));
    lemma_total_moves_head(s.skip(k));
    lemma_total_moves_head(u.skip(k));
    assert(u.skip(k).skip(1) =~= s.skip(k).skip(1));
}

proof fn lemma_total_moves_push(s: Seq<Instr>, x: Instr)
    ensures
        total_moves(s.push(x)) == total_moves(s) + move_amount(x),
{
    assert(s.push(x).drop_last() =~= s);
}

/// The moves of a parsed prefix never exceed its length.
pub proof fn lemma_parse_prefix_moves(src: Seq<char>)
    requires
        src.len() < usize::MAX,
    ensures
        parse_prefix(src) is Some ==> total_moves(parse_prefix(src)->Some_0.0) <= src.len(),
    decreases src.len(),
{
    if src.len() > 0 {
        let pre = src.drop_last();
        let c = src.last();
        lemma_parse_prefix_moves(pre);
        lemma_parse_prefix_inv(pre);
        if parse_prefix(pre) is Some {
            let (ops, stack) = parse_prefix(pre)->Some_0;
            let n = ops.len();
            if n > 0 {
                lemma_total_moves_elem(ops, n - 1);
            }
            if c == '+' || c == '-' || c == '>' || c == '<' {
                if n > 0 {
                    let l = ops.last();
                    lemma_total_moves_update(ops, n - 1, Instr::Add(0));
                    if l is Add {
                        lemma_total_moves_update(ops, n - 1, Instr::Add(vstd::wrapping::u8_specs::wrapping_add(l->Add_0, 1)));
                    } else if l is Sub {
                        lemma_total_moves_update(ops, n - 1, Instr::Sub(vstd::wrapping::u8_specs::wrapping_add(l->Sub_0, 1)));
                    } else if l is Right {
                        lemma_total_moves_update(ops, n - 1, Instr::Right((l->Right_0 + 1) as usize));
                    } else if l is Left {
                        lemma_total_moves_update(ops, n - 1, Instr::Left((l->Left_0 + 1) as usize));
                    }
                }
                lemma_total_moves_push(ops, Instr::Add(1));
                lemma_total_moves_push(ops, Instr::Sub(1));
                lemma_total_moves_push(ops, Instr::Right(1));
                lemma_total_moves_push(ops, Instr::Left(1));
            } else if c == '.' {
                lemma_total_moves_push(ops, Instr::Output);
            } else if c == ',' {
                lemma_total_moves_push(ops, Instr::Input);
            } else if c == '[' {
                lemma_total_moves_push(ops, Instr::JumpIfZero(0));
            } else if c == ']' && stack.len() > 0 {
                reveal(parse_inv);
                let open = stack.last();
                assert(0 <= stack[stack.len() - 1] < n);
                assert(ops[open] is JumpIfZero);
                lemma_total_moves_update(ops, open, Instr::JumpIfZero(n as usize));
                lemma_total_moves_push(ops.update(open, Instr::JumpIfZero(n as usize)), Instr::JumpIfNonZero(open as usize));
            }
        }
    }
}

/// A program parsed from a text of at most `isize::MAX` characters can be optimized.
pub proof fn lemma_parse_moves(src: Seq<char>)
    requires
        src.len() <= isize::MAX,
    ensures
        parse_source(src) is Ok ==> total_moves(parse_source(src)->Ok_0) <= isize::MAX,
{
    lemma_parse_prefix_moves(src);
}

// ---------------------------------------------------------------------------
// Packed optimized ops read back as themselves
// ---------------------------------------------------------------------------

/// A run of `k` moves one way parses to one move op of `k`, after ops that do
/// not end with a move that way.
proof fn lemma_parse_run(pre: Seq<char>, c: char, k: nat)
    requires
        c == '>' || c == '<',
        parse_prefix(pre) is Some,
        parse_prefix(pre)->Some_0.0.len() > 0 ==> if c == '>' {
            !(parse_prefix(pre)->Some_0.0.last() is Right)
        } else {
            !(parse_prefix(pre)->Some_0.0.last() is Left)
        },
        1 <= k,
        pre.len() + k < usize::MAX,
    ensures
        parse_prefix(pre + repeat_char(c, k)) == Some((
            parse_prefix(pre)->Some_0.0.push(if c == '>' { Instr::Right(k as usize) } else { Instr::Left(k as usize) }),
            parse_prefix(pre)->Some_0.1,
        )),
    decreases k,
{
    let s = pre + repeat_char(c, k);
    assert(s.last() == c);
    if k == 1 {
        assert(s.drop_last() =~= pre);
    } else {
        assert(s.drop_last() =~= pre + repeat_char(c, (k - 1) as nat));
        lemma_parse_run(pre, c, (k - 1) as nat);
        let (ops, st) = parse_prefix(pre)->Some_0;
        let o1 = ops.push(if c == '>' { Instr::Right((k - 1) as usize) } else { Instr::Left((k - 1) as usize) });
        assert(o1.last() == if c == '>' { Instr::Right((k - 1) as usize) } else { Instr::Left((k - 1) as usize) });
        assert(o1.update(o1.len() - 1, if c == '>' { Instr::Right(k as usize) } else { Instr::Left(k as usize) })
            =~= ops.push(if c == '>' { Instr::Right(k as usize) } else { Instr::Left(k as usize) }));
    }
}

/// Parsing one more character is one step of `parse_char`.
proof fn lemma_parse_snoc(pre: Seq<char>, c: char)
    ensures
        parse_prefix(pre.push(c)) == match parse_prefix(pre) {
            None => None,
            Some((ops, st)) => parse_char(ops, st, c),
        },
{
    assert(pre.push(c).drop_last() =~= pre);
}

/// The parse of `[` and then `c`, for a `c` that adds one op after the `[`.
proof fn lemma_parse_open_then(c: char, x: Instr)
    requires
        (c == '-' && x == Instr::Sub(1)) || (c == '>' && x == Instr::Right(1)) || (c == '<' && x == Instr::Left(1)),
    ensures
        parse_prefix(Seq::<char>::empty().push('[').push(c)) == Some((
            Seq::<Instr>::empty().push(Instr::JumpIfZero(0)).push(x),
            Seq::<int>::empty().push(0),
        )),
{
    let e = Seq::<char>::empty();
    assert(parse_prefix(e) == Some((Seq::<Instr>::empty(), Seq::<int>::empty())));
    lemma_parse_snoc(e, '[');
    lemma_parse_snoc(e.push('['), c);
}

/// The parse of a packed move loop: `[`, `-`, the moves there, the change of
/// the target, the moves back, `]`.
#[verifier::rlimit(40)]
proof fn lemma_parse_move_text(o: isize, add: bool)
    requires
        o != 0,
        2 * offset_abs(o) + 5 < usize::MAX,
    ensures
        ({
            let k = offset_abs(o) as usize;
            let there = if o > 0 { Instr::Right(k) } else { Instr::Left(k) };
            let back = if o > 0 { Instr::Left(k) } else { Instr::Right(k) };
            let mid = if add { Instr::Add(1) } else { Instr::Sub(1) };
            let x = if add { Instr::MoveAdd(o) } else { Instr::MoveSub(o) };
            parse_source(op_text(x)) == Ok::<Seq<Instr>, OgreError>(
                seq![Instr::JumpIfZero(5), Instr::Sub(1), there, mid, back, Instr::JumpIfNonZero(0)],
            )
        }),
{
    let k = offset_abs(o);
    let ku = k as usize;
    let mc = if add { '+' } else { '-' };
    let c1 = if o > 0 { '>' } else { '<' };
    let c2 = if o > 0 { '<' } else { '>' };
    let there = if o > 0 { Instr::Right(ku) } else { Instr::Left(ku) };
    let back = if o > 0 { Instr::Left(ku) } else { Instr::Right(ku) };
    let mid = if add { Instr::Add(1) } else { Instr::Sub(1) };
    let x = if add { Instr::MoveAdd(o) } else { Instr::MoveSub(o) };
    let st = Seq::<int>::empty().push(0);
    let p0 = Seq::<char>::empty().push('[').push('-');
    let o0 = Seq::<Instr>::empty().push(Instr::JumpIfZero(0)).push(Instr::Sub(1));
    lemma_parse_open_then('-', Instr::Sub(1));
    lemma_parse_run(p0, c1, k);
    let p1 = p0 + repeat_char(c1, k);
    let o1 = o0.push(there);
    assert(parse_prefix(p1) == Some((o1, st)));
    lemma_parse_snoc(p1, mc);
    let p2 = p1.push(mc);
    let o2 = o1.push(mid);
    assert(parse_prefix(p2) == Some((o2, st)));
    lemma_parse_run(p2, c2, k);
    let p3 = p2 + repeat_char(c2, k);
    let o3 = o2.push(back);
    assert(parse_prefix(p3) == Some((o3, st)));
    lemma_parse_snoc(p3, ']');
    let p4 = p3.push(']');
    let o4 = o3.update(0, Instr::JumpIfZero(5)).push(Instr::JumpIfNonZero(0));
    assert(o3.len() == 5);
    assert(parse_prefix(p4) == Some((o4, st.drop_last())));
    assert(st.drop_last().len() == 0);
    assert(o4 =~= seq![Instr::JumpIfZero(5), Instr::Sub(1), there, mid, back, Instr::JumpIfNonZero(0)]);
    assert(moves_there(o) =~= repeat_char(c1, k));
    assert(moves_back(o) =~= repeat_char(c2, k));
    assert(op_text(x) =~= p4);
}

/// The parse of a three-character loop `[`, `c`, `]`.
proof fn lemma_parse_small_loop(c: char, x: Instr)
    requires
        (c == '-' && x == Instr::Sub(1)) || (c == '>' && x == Instr::Right(1)) || (c == '<' && x == Instr::Left(1)),
    ensures
        parse_source(seq!['[', c, ']']) == Ok::<Seq<Instr>, OgreError>(
            seq![Instr::JumpIfZero(2), x, Instr::JumpIfNonZero(0)],
        ),
{
    lemma_parse_open_then(c, x);
    let p = Seq::<char>::empty().push('[').push(c);
    lemma_parse_snoc(p, ']');
    assert(p.push(']') =~= seq!['[', c, ']']);
    let o = Seq::<Instr>::empty().push(Instr::JumpIfZero(0)).push(x);
    assert(o.update(0, Instr::JumpIfZero(2)).push(Instr::JumpIfNonZero(0)) =~= seq![
        Instr::JumpIfZero(2),
        x,
        Instr::JumpIfNonZero(0),
    ]);
    assert(Seq::<int>::empty().push(0).drop_last().len() == 0);
}

/// Law: packing an optimized op into brainfuck and optimizing the text again
/// gives the op back: `[-]` reads back as `Clear`, `[>]` and `[<]` as the two
/// scans, and the move loop packed for `MoveAdd(o)` or `MoveSub(o)` as that
/// same op with the same offset. So the packed text does what the op does.
pub proof fn law_packed_ops_read_back(o: isize)
    requires
        o != 0,
        2 * offset_abs(o) + 5 < usize::MAX,
    ensures
        parse_source(op_text(Instr::Clear)) is Ok && clear_pass(parse_source(op_text(Instr::Clear))->Ok_0) == seq![
            Instr::Clear,
        ],
        parse_source(op_text(Instr::ScanRight)) is Ok && scan_pass(parse_source(op_text(Instr::ScanRight))->Ok_0)
            == seq![Instr::ScanRight],
        parse_source(op_text(Instr::ScanLeft)) is Ok && scan_pass(parse_source(op_text(Instr::ScanLeft))->Ok_0)
            == seq![Instr::ScanLeft],
        parse_source(op_text(Instr::MoveAdd(o))) is Ok && move_pass(parse_source(op_text(Instr::MoveAdd(o)))->Ok_0)
            == seq![Instr::MoveAdd(o)],
        parse_source(op_text(Instr::MoveSub(o))) is Ok && move_pass(parse_source(op_text(Instr::MoveSub(o)))->Ok_0)
            == seq![Instr::MoveSub(o)],
{
    lemma_parse_small_loop('-', Instr::Sub(1));
    lemma_parse_small_loop('>', Instr::Right(1));
    lemma_parse_small_loop('<', Instr::Left(1));
    let three = seq![Instr::JumpIfZero(2), Instr::Sub(1), Instr::JumpIfNonZero(0)];
    assert(three.skip(3) =~= Seq::<Instr>::empty());
    let em = Seq::<Instr>::empty();
    assert(clear_pass(em) == em);
    assert(scan_pass(em) == em);
    assert(move_pass(em) == em);
    assert(clear_pass(three) == seq![Instr::Clear] + clear_pass(three.skip(3)));
    assert(clear_pass(three) =~= seq![Instr::Clear]);
    let rr = seq![Instr::JumpIfZero(2), Instr::Right(1), Instr::JumpIfNonZero(0)];
    assert(rr.skip(3) =~= Seq::<Instr>::empty());
    assert(scan_pass(rr) == seq![Instr::ScanRight] + scan_pass(rr.skip(3)));
    assert(scan_pass(rr) =~= seq![Instr::ScanRight]);
    let ll = seq![Instr::JumpIfZero(2), Instr::Left(1), Instr::JumpIfNonZero(0)];
    assert(ll.skip(3) =~= Seq::<Instr>::empty());
    assert(scan_pass(ll) == seq![Instr::ScanLeft] + scan_pass(ll.skip(3)));
    assert(scan_pass(ll) =~= seq![Instr::ScanLeft]);
    lemma_parse_move_text(o, true);
    lemma_parse_move_text(o, false);
    let k = offset_abs(o) as usize;
    let there = if o > 0 { Instr::Right(k) } else { Instr::Left(k) };
    let back = if o > 0 { Instr::Left(k) } else { Instr::Right(k) };
    let ma = seq![Instr::JumpIfZero(5), Instr::Sub(1), there, Instr::Add(1), back, Instr::JumpIfNonZero(0)];
    let ms = seq![Instr::JumpIfZero(5), Instr::Sub(1), there, Instr::Sub(1), back, Instr::JumpIfNonZero(0)];
    assert(ma.skip(6) =~= Seq::<Instr>::empty());
    assert(ms.skip(6) =~= Seq::<Instr>::empty());
    assert(move_rewrite(ma) == Some(Instr::MoveAdd(o)));
    assert(move_rewrite(ms) == Some(Instr::MoveSub(o)));
    assert(move_pass(ma) == seq![Instr::MoveAdd(o)] + move_pass(ma.skip(6)));
    assert(move_pass(ma) =~= seq![Instr::MoveAdd(o)]);
    assert(move_pass(ms) == seq![Instr::MoveSub(o)] + move_pass(ms.skip(6)));
    assert(move_pass(ms) =~= seq![Instr::MoveSub(o)]);
}

} // verus!

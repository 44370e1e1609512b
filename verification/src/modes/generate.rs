use vstd::prelude::*;

use crate::error::{Fail, OgreError};
use crate::text::{chars_to_string, push_repeat, push_str, repeat_char, str_to_chars};
use super::interpreter::{Machine, fresh_machine, run_spec};
use super::ir::{Instr, parse_char, parse_prefix, parse_source};
use vstd::wrapping::u8_specs::{wrapping_add, wrapping_sub};

verus! {

/// The classic hello world program.
pub open spec fn hello_world_text() -> Seq<char> {
    "++++++++[>++++[>++>+++>+++>+<<<<-]>+>+>->>+[<]<-]>>.>---.+++++++..+++.>>.<-.<.+++.------.--------.>>+.>++."@
}

/// Returns the classic BF hello world program.
pub fn generate_hello_world() -> (s: String)
    ensures
        s@ == hello_world_text(),
{
    String::from_str(
        "++++++++[>++++[>++>+++>+++>+<<<<-]>+>+>->>+[<]<-]>>.>---.+++++++..+++.>>.<-.<.+++.------.--------.>>+.>++.",
    )
}

/// The code that moves the current cell from `from` to `to` and prints it.
pub open spec fn print_step(from: u8, to: u8) -> Seq<char> {
    (if to >= from { repeat_char('+', (to - from) as nat) } else { repeat_char('-', (from - to) as nat) }).push('.')
}

/// The code that prints the ASCII text `s`, one cell, starting from zero.
pub open spec fn print_code(s: Seq<char>) -> Seq<char>
    decreases s.len(),
{
    if s.len() == 0 {
        Seq::empty()
    } else {
        let prev: u8 = if s.len() == 1 { 0 } else { s[s.len() - 2] as u8 };
        print_code(s.drop_last()) + print_step(prev, s.last() as u8)
    }
}

/// Generates BF code that prints the given string.
/// Uses a simple approach: set each cell to the ASCII value and print.
pub fn generate_string(s: &str) -> (r: Result<String, OgreError>)
    ensures
        vstd::string::is_ascii(s) ==> r is Ok && r->Ok_0@ == print_code(s@),
        !vstd::string::is_ascii(s) ==> r is Err && r->Err_0@ == Fail::Other(
            "generate string only supports ASCII characters"@,
        ),
{
    if !s.is_ascii() {
        return Err(OgreError::Other(String::from_str("generate string only supports ASCII characters")));
    }
    let chars = str_to_chars(s);
    let mut code: Vec<char> = Vec::new();
    let mut current: u8 = 0;
    let mut k: usize = 0;
    while k < chars.len()
        invariant
            chars@ == s@,
            vstd::utf8::is_ascii_chars(s@),
            k <= chars@.len(),
            code@ == print_code(chars@.take(k as int)),
            current == if k == 0 { 0u8 } else { chars@[k - 1] as u8 },
        decreases chars@.len() - k,
    {
        let ch = chars[k];
        assert('\0' <= chars@[k as int] <= '\u{7f}');
        let target: u8 = (ch as u32) as u8;
        let ghost before = code@;
        if target >= current {
            push_repeat(&mut code, '+', (target - current) as usize);
        } else {
            push_repeat(&mut code, '-', (current - target) as usize);
        }
        code.push('.');
        proof {
            let t = chars@.take(k + 1);
            assert(t.drop_last() =~= chars@.take(k as int));
            if k > 0 {
                assert(t[t.len() - 2] == chars@[k - 1]);
            }
            assert(code@ =~= before + print_step(current, target));
        }
        current = target;
        k += 1;
    }
    assert(chars@.take(k as int) =~= chars@);
    Ok(chars_to_string(&code))
}

/// The best factorization `a * b == n` found with `2 <= a <= 255` and
/// `b <= 255`, by cost `a + b + 5`: the search from `a` on, with the best so far.
pub open spec fn factor_search(n: nat, a: nat, best: (nat, nat, nat)) -> (nat, nat, nat)
    decreases 256 - a,
{
    if a > 255 {
        best
    } else {
        let b = (n + a / 2) / a;
        let next = if a * b == n && b <= 255 && a + b + 5 < best.2 { (a, b, a + b + 5) } else { best };
        factor_search(n, a + 1, next)
    }
}

/// Two nested loops: the counter cell gets `a`, and each of its rounds puts
/// `b` into the next cell and empties it with the body `>>+<<`, which so runs
/// `a * b` times; the pointer ends back on the counter, both cells zero.
pub open spec fn nest_code(a: nat, b: nat) -> Seq<char> {
    repeat_char('+', a) + "[>"@ + repeat_char('+', b) + "[>>+<<-]<-]"@
}

/// A single loop that runs the same body `r` times from the cell after the
/// counter (nothing when `r` is zero).
pub open spec fn rest_code(r: nat) -> Seq<char> {
    if r == 0 {
        Seq::empty()
    } else {
        ">"@ + repeat_char('+', r) + "[>>+<<-]<"@
    }
}

/// Blocks one after another whose bodies run `n` times in all: full
/// `255 * 255` blocks, then one of `n / 255` rounds of 255, then `n % 255`.
pub open spec fn chain_code(n: nat) -> Seq<char>
    decreases n,
{
    if n >= 65025 {
        nest_code(255, 255) + chain_code((n - 65025) as nat)
    } else if n >= 255 {
        nest_code(n / 255, 255) + rest_code(n % 255)
    } else {
        rest_code(n)
    }
}

/// The loop scaffold that runs `n` times: up to 255 a single loop; above, two
/// nested loops when `n` is a product of two counts up to 255, else a chain of
/// blocks.
pub open spec fn loop_code(n: nat) -> Seq<char> {
    if n == 0 {
        Seq::empty()
    } else if n <= 255 {
        repeat_char('+', n) + "[>+<-]"@
    } else {
        let (a, b, _) = factor_search(n, 2, (255, 1, 261));
        if a * b == n {
            nest_code(a, b)
        } else {
            chain_code(n)
        }
    }
}

/// No product of two counts up to 255 reaches beyond 65025.
proof fn lemma_no_factor(n: nat, a: nat, best: (nat, nat, nat))
    requires
        n > 65025,
    ensures
        factor_search(n, a, best) == best,
    decreases 256 - a,
{
    if a <= 255 {
        let b = (n + a / 2) / a;
        if b <= 255 {
            assert(a * b <= 255 * 255) by (nonlinear_arith)
                requires
                    a <= 255,
                    b <= 255,
            ;
        }
        lemma_no_factor(n, a + 1, best);
    }
}

fn push_nest(out: &mut Vec<char>, a: usize, b: usize)
    ensures
        final(out)@ == old(out)@ + nest_code(a as nat, b as nat),
{
    let ghost o = out@;
    push_repeat(out, '+', a);
    push_str(out, "[>");
    push_repeat(out, '+', b);
    push_str(out, "[>>+<<-]<-]");
    assert(out@ =~= o + nest_code(a as nat, b as nat));
}

fn push_rest(out: &mut Vec<char>, r: usize)
    ensures
        final(out)@ == old(out)@ + rest_code(r as nat),
{
    if r == 0 {
        assert(out@ + rest_code(0) =~= out@);
        return;
    }
    let ghost o = out@;
    push_str(out, ">");
    push_repeat(out, '+', r);
    push_str(out, "[>>+<<-]<");
    assert(out@ =~= o + rest_code(r as nat));
}

fn push_chain(out: &mut Vec<char>, n: usize)
    ensures
        final(out)@ == old(out)@ + chain_code(n as nat),
{
    let ghost o = out@;
    let mut rem: usize = n;
    while rem >= 65025
        invariant
            o + chain_code(n as nat) == out@ + chain_code(rem as nat),
        decreases rem,
    {
        let ghost before = out@;
        push_nest(out, 255, 255);
        proof {
            assert(before + chain_code(rem as nat) =~= out@ + chain_code((rem - 65025) as nat));
        }
        rem -= 65025;
    }
    if rem >= 255 {
        let ghost before = out@;
        push_nest(out, rem / 255, 255);
        push_rest(out, rem % 255);
        proof {
            assert(before + chain_code(rem as nat) =~= out@);
        }
    } else {
        push_rest(out, rem);
    }
    assert(o + chain_code(n as nat) =~= out@);
}

/// Generates a BF loop scaffold that runs exactly `n` times.
/// Uses cell 0 as counter, cell 1 as the loop body.
pub fn generate_loop(n: usize) -> (s: String)
    ensures
        s@ == loop_code(n as nat),
{
    let mut out: Vec<char> = Vec::new();
    if n == 0 {
        return chars_to_string(&out);
    }
    if n <= 255 {
        push_repeat(&mut out, '+', n);
        push_str(&mut out, "[>+<-]");
        return chars_to_string(&out);
    }
    if n > 65025 {
        proof {
            lemma_no_factor(n as nat, 2, (255, 1, 261));
        }
        push_chain(&mut out, n);
        assert(out@ =~= loop_code(n as nat));
        return chars_to_string(&out);
    }
    let mut best_a: usize = 255;
    let mut best_b: usize = 1;
    let mut best_cost: usize = 261;
    let mut a: usize = 2;
    while a <= 255
        invariant
            255 < n <= 65025,
            2 <= a <= 256,
            best_a <= 255,
            best_b <= 255,
            best_cost <= 261,
            factor_search(n as nat, 2, (255, 1, 261)) == factor_search(
                n as nat,
                a as nat,
                (best_a as nat, best_b as nat, best_cost as nat),
            ),
        decreases 256 - a,
    {
        let b = (n + a / 2) / a;
        proof {
            let num: int = n + a / 2;
            assert(b as int == num / (a as int));
            assert((a as int) * (num / (a as int)) <= num) by (nonlinear_arith)
                requires
                    a >= 2,
                    num >= 0,
            ;
        }
        if a * b == n && b <= 255 {
            let cost = a + b + 5;
            if cost < best_cost {
                best_a = a;
                best_b = b;
                best_cost = cost;
            }
        }
        a += 1;
    }
    assert(best_a * best_b <= 255 * 255) by (nonlinear_arith)
        requires
            best_a <= 255,
            best_b <= 255,
    ;
    if best_a * best_b == n {
        push_nest(&mut out, best_a, best_b);
    } else {
        push_chain(&mut out, n);
    }
    assert(out@ =~= loop_code(n as nat));
    chars_to_string(&out)
}

// ---------------------------------------------------------------------------
// What printing code does when it runs
// ---------------------------------------------------------------------------

/// The current cell and the output after one character of code that moves
/// nowhere and reads nothing.
spec fn char_effect(st: (u8, Seq<u8>), c: char) -> (u8, Seq<u8>) {
    if c == '+' {
        (wrapping_add(st.0, 1), st.1)
    } else if c == '-' {
        (wrapping_sub(st.0, 1), st.1)
    } else if c == '.' {
        (st.0, st.1.push(st.0))
    } else {
        st
    }
}

/// The effect of a whole such text, from the state `st`.
spec fn text_from(code: Seq<char>, st: (u8, Seq<u8>)) -> (u8, Seq<u8>)
    decreases code.len(),
{
    if code.len() == 0 {
        st
    } else {
        char_effect(text_from(code.drop_last(), st), code.last())
    }
}

/// An instruction that changes or prints the current cell and nothing else.
spec fn line_op(x: Instr) -> bool {
    x is Add || x is Sub || x is Output
}

spec fn op_effect(st: (u8, Seq<u8>), x: Instr) -> (u8, Seq<u8>) {
    match x {
        Instr::Add(n) => (wrapping_add(st.0, n), st.1),
        Instr::Sub(n) => (wrapping_sub(st.0, n), st.1),
        Instr::Output => (st.0, st.1.push(st.0)),
        _ => st,
    }
}

/// The effect of a list of such instructions, from the state `st`.
spec fn ops_from(ops: Seq<Instr>, st: (u8, Seq<u8>)) -> (u8, Seq<u8>)
    decreases ops.len(),
{
    if ops.len() == 0 {
        st
    } else {
        op_effect(ops_from(ops.drop_last(), st), ops.last())
    }
}

/// Code without moves, input or loops.
spec fn plain_text(code: Seq<char>) -> bool {
    forall|i: int| 0 <= i < code.len() ==> {
        let c = #[trigger] code[i];
        c != '<' && c != '>' && c != ',' && c != '[' && c != ']'
    }
}

proof fn lemma_parse_plain(code: Seq<char>)
    requires
        plain_text(code),
    ensures
        parse_prefix(code) is Some,
        ({
            let (ops, stack) = parse_prefix(code)->Some_0;
            &&& stack.len() == 0
            &&& ops.len() <= code.len()
            &&& forall|i: int| 0 <= i < ops.len() ==> line_op(#[trigger] ops[i])
            &&& ops_from(ops, (0u8, Seq::empty())) == text_from(code, (0u8, Seq::empty()))
        }),
    decreases code.len(),
{
    let s0 = (0u8, Seq::<u8>::empty());
    if code.len() > 0 {
        let d = code.drop_last();
        assert forall|i: int| 0 <= i < d.len() implies {
            let c = #[trigger] d[i];
            c != '<' && c != '>' && c != ',' && c != '[' && c != ']'
        } by {
            assert(d[i] == code[i]);
        }
        lemma_parse_plain(d);
        let (ops, stack) = parse_prefix(d)->Some_0;
        let c = code.last();
        assert(c == code[code.len() - 1]);
        let n = ops.len();
        let prev = ops_from(ops, s0);
        if c == '+' && n > 0 && ops.last() is Add {
            let k = ops.last()->Add_0;
            let new = ops.update(n - 1, Instr::Add(wrapping_add(k, 1)));
            assert(new.drop_last() =~= ops.drop_last());
            let v = ops_from(ops.drop_last(), s0).0;
            assert(wrapping_add(v, wrapping_add(k, 1)) == wrapping_add(wrapping_add(v, k), 1));
            assert(line_op(new[n - 1]));
        } else if c == '-' && n > 0 && ops.last() is Sub {
            let k = ops.last()->Sub_0;
            let new = ops.update(n - 1, Instr::Sub(wrapping_add(k, 1)));
            assert(new.drop_last() =~= ops.drop_last());
            let v = ops_from(ops.drop_last(), s0).0;
            assert(wrapping_sub(v, wrapping_add(k, 1)) == wrapping_sub(wrapping_sub(v, k), 1));
            assert(line_op(new[n - 1]));
        } else if c == '+' {
            assert(ops.push(Instr::Add(1)).drop_last() =~= ops);
        } else if c == '-' {
            assert(ops.push(Instr::Sub(1)).drop_last() =~= ops);
        } else if c == '.' {
            assert(ops.push(Instr::Output).drop_last() =~= ops);
        }
    }
}

proof fn lemma_ops_front(a: Seq<Instr>, st: (u8, Seq<u8>))
    requires
        a.len() > 0,
    ensures
        ops_from(a, st) == ops_from(a.skip(1), op_effect(st, a[0])),
    decreases a.len(),
{
    if a.len() == 1 {
        assert(a.drop_last() =~= Seq::<Instr>::empty());
        assert(a.skip(1) =~= Seq::<Instr>::empty());
        assert(ops_from(Seq::<Instr>::empty(), st) == st);
        assert(ops_from(Seq::<Instr>::empty(), op_effect(st, a[0])) == op_effect(st, a[0]));
        assert(a.last() == a[0]);
    } else {
        let d = a.drop_last();
        lemma_ops_front(d, st);
        assert(d.skip(1) =~= a.skip(1).drop_last());
        assert(a.skip(1).last() == a.last());
        assert(d[0] == a[0]);
        let e0 = op_effect(st, a[0]);
        assert(ops_from(a.skip(1), e0) == op_effect(ops_from(a.skip(1).drop_last(), e0), a.skip(1).last()));
    }
}

proof fn lemma_run_line(m: Machine)
    requires
        forall|i: int| 0 <= i < m.ops.len() ==> line_op(#[trigger] m.ops[i]),
        m.dp < m.tape.len(),
        m.ip <= m.ops.len(),
        m.count + (m.ops.len() - m.ip) <= u64::MAX,
    ensures
        run_spec(m).1 is None,
        run_spec(m).0.output == ops_from(m.ops.skip(m.ip as int), (m.tape[m.dp as int], m.output)).1,
    decreases m.ops.len() - m.ip,
{
    let rest = m.ops.skip(m.ip as int);
    if m.ip == m.ops.len() {
        assert(rest =~= Seq::<Instr>::empty());
    } else {
        let x = m.ops[m.ip as int];
        assert(line_op(x));
        let m2 = crate::modes::interpreter::step_spec(m).0;
        lemma_ops_front(rest, (m.tape[m.dp as int], m.output));
        assert(rest[0] == x);
        assert(rest.skip(1) =~= m.ops.skip(m.ip + 1int));
        lemma_run_line(m2);
    }
}

proof fn lemma_text_concat(a: Seq<char>, b: Seq<char>, st: (u8, Seq<u8>))
    ensures
        text_from(a + b, st) == text_from(b, text_from(a, st)),
    decreases b.len(),
{
    if b.len() == 0 {
        assert(a + b =~= a);
    } else {
        lemma_text_concat(a, b.drop_last(), st);
        assert((a + b).drop_last() =~= a + b.drop_last());
        assert((a + b).last() == b.last());
    }
}

proof fn lemma_text_run(c: char, k: nat, st: (u8, Seq<u8>))
    requires
        c == '+' ==> st.0 + k <= 255,
        c == '-' ==> st.0 >= k,
        c == '+' || c == '-',
    ensures
        text_from(repeat_char(c, k), st) == (if c == '+' { (st.0 + k) as u8 } else { (st.0 - k) as u8 }, st.1),
    decreases k,
{
    if k > 0 {
        lemma_text_run(c, (k - 1) as nat, st);
        assert(repeat_char(c, k).drop_last() =~= repeat_char(c, (k - 1) as nat));
        assert(repeat_char(c, k).last() == c);
    } else {
        assert(repeat_char(c, k) =~= Seq::<char>::empty());
    }
}

/// The bytes of an ASCII text.
pub open spec fn ascii_bytes(s: Seq<char>) -> Seq<u8> {
    s.map_values(|c: char| c as u8)
}

proof fn lemma_print_code(s: Seq<char>)
    requires
        vstd::utf8::is_ascii_chars(s),
    ensures
        plain_text(print_code(s)),
        print_code(s).len() <= 128 * s.len(),
        text_from(print_code(s), (0u8, Seq::empty())) == (
            if s.len() == 0 { 0u8 } else { s.last() as u8 },
            ascii_bytes(s),
        ),
    decreases s.len(),
{
    let s0 = (0u8, Seq::<u8>::empty());
    if s.len() == 0 {
        assert(ascii_bytes(s) =~= Seq::<u8>::empty());
    } else {
        let d = s.drop_last();
        assert forall|i: int| 0 <= i < d.len() implies '\0' <= #[trigger] d[i] <= '\u{7f}' by {
            assert(d[i] == s[i]);
        }
        lemma_print_code(d);
        let prev: u8 = if s.len() == 1 { 0 } else { s[s.len() - 2] as u8 };
        assert('\0' <= s[s.len() - 1] <= '\u{7f}');
        let to = s.last() as u8;
        if s.len() > 1 {
            assert('\0' <= s[s.len() - 2] <= '\u{7f}');
            assert(d.last() == s[s.len() - 2]);
        }
        assert(prev <= 127 && to <= 127);
        let run = if to >= prev { repeat_char('+', (to - prev) as nat) } else { repeat_char('-', (prev - to) as nat) };
        let step = print_step(prev, to);
        assert(step == run.push('.'));
        let pd = print_code(d);
        lemma_text_concat(pd, step, s0);
        let mid = text_from(pd, s0);
        assert(mid == (prev, ascii_bytes(d)));
        if to >= prev {
            lemma_text_run('+', (to - prev) as nat, mid);
        } else {
            lemma_text_run('-', (prev - to) as nat, mid);
        }
        assert(step.drop_last() =~= run);
        assert(step.last() == '.');
        assert(ascii_bytes(s) =~= ascii_bytes(d).push(to));
        assert forall|i: int| 0 <= i < step.len() implies #[trigger] step[i] == '+' || step[i] == '-' || step[i] == '.' by {
            if i < run.len() {
                assert(step[i] == run[i]);
            }
        }
        let pc = print_code(s);
        assert(pc == pd + step);
        assert forall|i: int| 0 <= i < pc.len() implies {
            let c = #[trigger] pc[i];
            c != '<' && c != '>' && c != ',' && c != '[' && c != ']'
        } by {
            if i < pd.len() {
                assert(pc[i] == pd[i]);
            } else {
                assert(pc[i] == step[i - pd.len()]);
            }
        }
    }
}

/// The number of `.` in a text.
pub open spec fn dots(code: Seq<char>) -> nat
    decreases code.len(),
{
    if code.len() == 0 {
        0
    } else {
        dots(code.drop_last()) + if code.last() == '.' { 1nat } else { 0nat }
    }
}

/// Code made of `+`, `-` and `.` alone, where `+` and `-` never meet.
pub open spec fn print_only(code: Seq<char>) -> bool {
    &&& forall|i: int| 0 <= i < code.len() ==> {
        let c = #[trigger] code[i];
        c == '+' || c == '-' || c == '.'
    }
    &&& forall|i: int|
        0 <= i < code.len() - 1 ==> !((#[trigger] code[i] == '+' && code[i + 1] == '-') || (code[i] == '-'
            && code[i + 1] == '+'))
}

proof fn lemma_dots_concat(a: Seq<char>, b: Seq<char>)
    ensures
        dots(a + b) == dots(a) + dots(b),
    decreases b.len(),
{
    if b.len() == 0 {
        assert(a + b =~= a);
    } else {
        lemma_dots_concat(a, b.drop_last());
        assert((a + b).drop_last() =~= a + b.drop_last());
        assert((a + b).last() == b.last());
    }
}

proof fn lemma_dots_run(c: char, k: nat)
    requires
        c != '.',
    ensures
        dots(repeat_char(c, k)) == 0,
    decreases k,
{
    if k > 0 {
        assert(repeat_char(c, k).drop_last() =~= repeat_char(c, (k - 1) as nat));
        lemma_dots_run(c, (k - 1) as nat);
    }
}

proof fn lemma_print_shape(s: Seq<char>)
    ensures
        print_only(print_code(s)),
        dots(print_code(s)) == s.len(),
        print_code(s).len() > 0 ==> print_code(s).last() == '.',
    decreases s.len(),
{
    if s.len() > 0 {
        let d = s.drop_last();
        lemma_print_shape(d);
        let prev: u8 = if s.len() == 1 { 0 } else { s[s.len() - 2] as u8 };
        let to = s.last() as u8;
        let c = if to >= prev { '+' } else { '-' };
        let k: nat = if to >= prev { (to - prev) as nat } else { (prev - to) as nat };
        let run = repeat_char(c, k);
        let step = print_step(prev, to);
        assert(step == run.push('.'));
        let pd = print_code(d);
        let pc = print_code(s);
        assert(pc == pd + step);
        lemma_dots_run(c, k);
        assert(step.drop_last() =~= run);
        lemma_dots_concat(pd, step);
        assert forall|i: int| 0 <= i < pc.len() implies {
            let x = #[trigger] pc[i];
            x == '+' || x == '-' || x == '.'
        } by {
            if i < pd.len() {
                assert(pc[i] == pd[i]);
            } else {
                assert(pc[i] == step[i - pd.len()]);
                if i - pd.len() < run.len() {
                    assert(step[i - pd.len()] == run[i - pd.len()]);
                }
            }
        }
        assert forall|i: int| 0 <= i < pc.len() - 1 implies !((#[trigger] pc[i] == '+' && pc[i + 1] == '-') || (pc[i]
            == '-' && pc[i + 1] == '+')) by {
            if i + 1 < pd.len() {
                assert(pc[i] == pd[i] && pc[i + 1] == pd[i + 1]);
            } else if i + 1 == pd.len() {
                assert(pc[i] == pd.last());
            } else {
                assert(pc[i] == step[i - pd.len()] && pc[i + 1] == step[i + 1 - pd.len()]);
                if i + 1 - pd.len() < run.len() {
                    assert(step[i - pd.len()] == run[i - pd.len()] && step[i + 1 - pd.len()] == run[i + 1 - pd.len()]);
                } else {
                    assert(step[i + 1 - pd.len()] == '.');
                }
            }
        }
        assert(pc.last() == step.last());
    } else {
        assert(print_code(s) =~= Seq::<char>::empty());
    }
}

proof fn lemma_parse_count(code: Seq<char>)
    requires
        print_only(code),
    ensures
        parse_prefix(code) is Some,
        ({
            let ops = parse_prefix(code)->Some_0.0;
            &&& ops.len() <= 2 * dots(code) + if code.len() > 0 && code.last() != '.' { 1nat } else { 0nat }
            &&& code.len() > 0 ==> ops.len() > 0
            &&& code.len() > 0 && code.last() == '+' ==> ops.last() is Add
            &&& code.len() > 0 && code.last() == '-' ==> ops.last() is Sub
            &&& code.len() > 0 && code.last() == '.' ==> ops.last() is Output
        }),
    decreases code.len(),
{
    if code.len() > 0 {
        let d = code.drop_last();
        assert forall|i: int| 0 <= i < d.len() implies {
            let c = #[trigger] d[i];
            c == '+' || c == '-' || c == '.'
        } by {
            assert(d[i] == code[i]);
        }
        assert forall|i: int| 0 <= i < d.len() - 1 implies !((#[trigger] d[i] == '+' && d[i + 1] == '-') || (d[i]
            == '-' && d[i + 1] == '+')) by {
            assert(d[i] == code[i] && d[i + 1] == code[i + 1]);
        }
        lemma_parse_count(d);
        let c = code.last();
        assert(c == code[code.len() - 1]);
        assert(c == '+' || c == '-' || c == '.');
        if d.len() > 0 {
            assert(d.last() == code[code.len() - 2]);
        }
        let ops = parse_prefix(d)->Some_0.0;
        let n = ops.len();
        if n > 0 {
            assert(ops.update(n - 1, Instr::Add(0)).last() is Add);
            assert(ops.update(n - 1, Instr::Sub(0)).last() is Sub);
        }
        assert(ops.push(Instr::Add(1)).last() is Add);
        assert(ops.push(Instr::Sub(1)).last() is Sub);
        assert(ops.push(Instr::Output).last() is Output);
    }
}

/// The code made to print an ASCII text prints that text: it is made of `+`,
/// `-` and `.` alone, with one `.` for each byte; it parses, and run on a fresh
/// tape with any input it ends without a fault, having written the text's
/// bytes.
pub proof fn law_generated_code_prints(s: Seq<char>, input: Seq<u8>, tape_size: nat)
    requires
        vstd::utf8::is_ascii_chars(s),
        s.len() <= isize::MAX,
        tape_size > 0,
    ensures
        forall|i: int| 0 <= i < print_code(s).len() ==> {
            let c = #[trigger] print_code(s)[i];
            c == '+' || c == '-' || c == '.'
        },
        dots(print_code(s)) == s.len(),
        parse_source(print_code(s)) is Ok,
        run_spec(fresh_machine(parse_source(print_code(s))->Ok_0, input, tape_size)).1 is None,
        run_spec(fresh_machine(parse_source(print_code(s))->Ok_0, input, tape_size)).0.output == ascii_bytes(s),
{
    let code = print_code(s);
    lemma_print_code(s);
    lemma_print_shape(s);
    lemma_parse_plain(code);
    lemma_parse_count(code);
    let ops = parse_prefix(code)->Some_0.0;
    assert(ops.len() <= 2 * s.len());
    assert(parse_source(code) == Ok::<Seq<Instr>, crate::error::OgreError>(ops));
    let m = fresh_machine(ops, input, tape_size);
    lemma_run_line(m);
    assert(ops.skip(0) =~= ops);
    assert(m.tape[0] == 0u8);
}

proof fn lemma_parse_pluses(n: nat)
    requires
        1 <= n <= 255,
    ensures
        parse_prefix(repeat_char('+', n)) == Some((seq![Instr::Add(n as u8)], Seq::<int>::empty())),
    decreases n,
{
    let r = repeat_char('+', n);
    assert(r.last() == '+');
    if n == 1 {
        assert(r.drop_last() =~= Seq::<char>::empty());
        assert(parse_prefix(Seq::<char>::empty()) == Some((Seq::<Instr>::empty(), Seq::<int>::empty())));
        assert(Seq::<Instr>::empty().push(Instr::Add(1)) =~= seq![Instr::Add(1u8)]);
        assert(n as u8 == 1u8);
    } else {
        lemma_parse_pluses((n - 1) as nat);
        assert(r.drop_last() =~= repeat_char('+', (n - 1) as nat));
        let ops = seq![Instr::Add((n - 1) as u8)];
        assert(wrapping_add((n - 1) as u8, 1) == n as u8);
        assert(ops.update(0, Instr::Add(n as u8)) =~= seq![Instr::Add(n as u8)]);
        assert(ops.last() == Instr::Add((n - 1) as u8));
        assert(parse_char(ops, Seq::<int>::empty(), '+') == Some((ops.update(0, Instr::Add(n as u8)), Seq::<int>::empty())));
    }
}

/// The instructions of the loop scaffold for a count from 1 to 255.
spec fn small_loop_ops(n: nat) -> Seq<Instr> {
    seq![
        Instr::Add(n as u8),
        Instr::JumpIfZero(6),
        Instr::Right(1),
        Instr::Add(1),
        Instr::Left(1),
        Instr::Sub(1),
        Instr::JumpIfNonZero(1),
    ]
}

proof fn lemma_parse_small_loop(n: nat)
    requires
        1 <= n <= 255,
    ensures
        parse_source(loop_code(n)) == Ok::<Seq<Instr>, crate::error::OgreError>(small_loop_ops(n)),
{
    reveal_strlit("[>+<-]");
    let r = repeat_char('+', n);
    lemma_parse_pluses(n);
    let p1 = r.push('[');
    let p2 = p1.push('>');
    let p3 = p2.push('+');
    let p4 = p3.push('<');
    let p5 = p4.push('-');
    let p6 = p5.push(']');
    assert(loop_code(n) =~= p6);
    assert(p1.drop_last() =~= r);
    assert(p2.drop_last() =~= p1);
    assert(p3.drop_last() =~= p2);
    assert(p4.drop_last() =~= p3);
    assert(p5.drop_last() =~= p4);
    assert(p6.drop_last() =~= p5);
    let o0 = seq![Instr::Add(n as u8)];
    let o1 = o0.push(Instr::JumpIfZero(0));
    assert(parse_prefix(p1) == Some((o1, seq![1int])));
    let o2 = o1.push(Instr::Right(1));
    assert(parse_prefix(p2) == Some((o2, seq![1int])));
    let o3 = o2.push(Instr::Add(1));
    assert(parse_prefix(p3) == Some((o3, seq![1int])));
    let o4 = o3.push(Instr::Left(1));
    assert(parse_prefix(p4) == Some((o4, seq![1int])));
    let o5 = o4.push(Instr::Sub(1));
    assert(parse_prefix(p5) == Some((o5, seq![1int])));
    let o6 = o5.update(1, Instr::JumpIfZero(6)).push(Instr::JumpIfNonZero(1));
    assert(seq![1int].drop_last() =~= Seq::<int>::empty());
    assert(parse_prefix(p6) == Some((o6, Seq::<int>::empty())));
    assert(o6 =~= small_loop_ops(n));
}

proof fn lemma_run_small_loop(m: Machine, n: nat, k: nat)
    requires
        m.ops == small_loop_ops(n),
        m.tape.len() >= 2,
        m.dp == 0,
        m.ip == 2,
        1 <= k,
        m.tape[0] == k,
        m.tape[1] + k <= 255,
        m.count + 5 * k <= u64::MAX,
    ensures
        run_spec(m).1 is None,
        run_spec(m).0.tape[0] == 0,
        run_spec(m).0.tape[1] == m.tape[1] + k,
    decreases k,
{
    let (m1, f1) = crate::modes::interpreter::step_spec(m);
    assert(f1 is None && m1.ip == 3 && m1.dp == 1 && m1.tape == m.tape);
    let (m2, f2) = crate::modes::interpreter::step_spec(m1);
    assert(f2 is None && m2.ip == 4 && m2.dp == 1);
    assert(m2.tape == m.tape.update(1, (m.tape[1] + 1) as u8));
    let (m3, f3) = crate::modes::interpreter::step_spec(m2);
    assert(f3 is None && m3.ip == 5 && m3.dp == 0 && m3.tape == m2.tape);
    let (m4, f4) = crate::modes::interpreter::step_spec(m3);
    assert(f4 is None && m4.ip == 6 && m4.dp == 0);
    assert(m4.tape == m2.tape.update(0, (k - 1) as u8));
    let (m5, f5) = crate::modes::interpreter::step_spec(m4);
    assert(f5 is None);
    assert(run_spec(m) == run_spec(m1));
    assert(run_spec(m1) == run_spec(m2));
    assert(run_spec(m2) == run_spec(m3));
    assert(run_spec(m3) == run_spec(m4));
    assert(run_spec(m4) == run_spec(m5));
    if k == 1 {
        assert(m5.ip == 7);
    } else {
        assert(m5.ip == 2 && m5.tape == m4.tape && m5.dp == 0);
        lemma_run_small_loop(m5, n, (k - 1) as nat);
    }
}

/// The loop scaffold for a count from 1 to 255 runs its body that many times:
/// run on a fresh tape of at least two cells, with any input, it ends without
/// a fault, with the counter cell at zero and the body's cell at the count.
pub proof fn law_small_loop_runs_n_times(n: nat, input: Seq<u8>, tape_size: nat)
    requires
        1 <= n <= 255,
        tape_size >= 2,
    ensures
        parse_source(loop_code(n)) is Ok,
        run_spec(fresh_machine(parse_source(loop_code(n))->Ok_0, input, tape_size)).1 is None,
        run_spec(fresh_machine(parse_source(loop_code(n))->Ok_0, input, tape_size)).0.tape[0] == 0,
        run_spec(fresh_machine(parse_source(loop_code(n))->Ok_0, input, tape_size)).0.tape[1] == n,
{
    lemma_parse_small_loop(n);
    let m = fresh_machine(small_loop_ops(n), input, tape_size);
    assert(m.tape[0] == 0u8 && m.tape[1] == 0u8);
    let (m1, f1) = crate::modes::interpreter::step_spec(m);
    assert(f1 is None && m1.ip == 1 && m1.tape[0] == n && m1.tape[1] == 0u8);
    let (m2, f2) = crate::modes::interpreter::step_spec(m1);
    assert(f2 is None && m2.ip == 2 && m2.tape == m1.tape && m2.dp == 0);
    assert(run_spec(m) == run_spec(m1));
    assert(run_spec(m1) == run_spec(m2));
    lemma_run_small_loop(m2, n, n);
}

// ---------------------------------------------------------------------------
// What the loop scaffold for larger counts does when it runs
// ---------------------------------------------------------------------------

/// `run_spec` goes on from `m2` as it does from `m`, and `m2` stands at `ip`
/// with the pointer at `dp`, the cells 0, 1 and 3 as given, the tape's length
/// kept and at most `steps` more instructions counted.
spec fn reaches(m: Machine, m2: Machine, ip: nat, dp: nat, c0: int, c1: int, c3: int, steps: nat) -> bool {
    &&& run_spec(m) == run_spec(m2)
    &&& m2.ops == m.ops
    &&& m2.ip == ip
    &&& m2.dp == dp
    &&& m2.tape.len() == m.tape.len()
    &&& m2.tape[0] as int == c0
    &&& m2.tape[1] as int == c1
    &&& m2.tape[3] as int == c3
    &&& m2.count <= m.count + steps
}

proof fn lemma_mod_add(x: int, y: int)
    ensures
        ((x % 256) + y) % 256 == (x + y) % 256,
{
    vstd::arithmetic::div_mod::lemma_add_mod_noop_right(y, x, 256);
}

/// The inner loop `[>>+<<-]` whose body starts at `p`.
spec fn inner_at(ops: Seq<Instr>, p: nat) -> bool {
    &&& 1 <= p
    &&& p + 5 <= ops.len()
    &&& ops.len() < usize::MAX
    &&& ops[p as int] == Instr::Right(2)
    &&& ops[p + 1int] == Instr::Add(1)
    &&& ops[p + 2int] == Instr::Left(2)
    &&& ops[p + 3int] == Instr::Sub(1)
    &&& ops[p + 4int] == Instr::JumpIfNonZero((p - 1) as usize)
}

proof fn lemma_run_inner(m: Machine, p: nat, j: nat)
    requires
        inner_at(m.ops, p),
        m.ip == p,
        m.dp == 1,
        m.tape.len() >= 4,
        1 <= j,
        m.tape[1] == j,
        m.count + 5 * j <= u64::MAX,
    ensures
        exists|m2: Machine| #[trigger] reaches(m, m2, p + 5, 1, m.tape[0] as int, 0, (m.tape[3] + j) % 256, 5 * j),
    decreases j,
{
    let (m1, f1) = crate::modes::interpreter::step_spec(m);
    assert(f1 is None && m1.ip == p + 1 && m1.dp == 3 && m1.tape == m.tape);
    let (m2, f2) = crate::modes::interpreter::step_spec(m1);
    assert(f2 is None && m2.ip == p + 2 && m2.dp == 3);
    assert(m2.tape == m.tape.update(3, wrapping_add(m.tape[3], 1)));
    let (m3, f3) = crate::modes::interpreter::step_spec(m2);
    assert(f3 is None && m3.ip == p + 3 && m3.dp == 1 && m3.tape == m2.tape);
    let (m4, f4) = crate::modes::interpreter::step_spec(m3);
    assert(f4 is None && m4.ip == p + 4 && m4.dp == 1);
    assert(m4.tape == m2.tape.update(1, (j - 1) as u8));
    let (m5, f5) = crate::modes::interpreter::step_spec(m4);
    assert(f5 is None && m5.tape == m4.tape && m5.dp == 1);
    assert(run_spec(m) == run_spec(m1));
    assert(run_spec(m1) == run_spec(m2));
    assert(run_spec(m2) == run_spec(m3));
    assert(run_spec(m3) == run_spec(m4));
    assert(run_spec(m4) == run_spec(m5));
    let c3 = wrapping_add(m.tape[3], 1);
    assert(c3 as int == (m.tape[3] + 1) % 256);
    if j == 1 {
        assert(m5.ip == p + 5);
        assert(reaches(m, m5, p + 5, 1, m.tape[0] as int, 0, (m.tape[3] + j) % 256, 5 * j));
    } else {
        assert(m5.ip == p);
        lemma_run_inner(m5, p, (j - 1) as nat);
        let m6 = choose|m6: Machine| #[trigger] reaches(m5, m6, p + 5, 1, m5.tape[0] as int, 0, (m5.tape[3] + (j - 1)) % 256, 5 * (j - 1) as nat);
        lemma_mod_add(m.tape[3] + 1, j - 1);
        assert(reaches(m, m6, p + 5, 1, m.tape[0] as int, 0, (m.tape[3] + j) % 256, 5 * j));
    }
}

/// Two nested loops at `l`: the outer one runs `a` times, the inner one `b`
/// times per round.
pub open spec fn nest_abs(l: nat, a: nat, b: nat) -> Seq<Instr> {
    seq![
        Instr::Add(a as u8),
        Instr::JumpIfZero((l + 12) as usize),
        Instr::Right(1),
        Instr::Add(b as u8),
        Instr::JumpIfZero((l + 9) as usize),
        Instr::Right(2),
        Instr::Add(1),
        Instr::Left(2),
        Instr::Sub(1),
        Instr::JumpIfNonZero((l + 4) as usize),
        Instr::Left(1),
        Instr::Sub(1),
        Instr::JumpIfNonZero((l + 1) as usize),
    ]
}

/// One loop at `l` that runs `r` times.
pub open spec fn rest_abs(l: nat, r: nat) -> Seq<Instr> {
    seq![
        Instr::Right(1),
        Instr::Add(r as u8),
        Instr::JumpIfZero((l + 7) as usize),
        Instr::Right(2),
        Instr::Add(1),
        Instr::Left(2),
        Instr::Sub(1),
        Instr::JumpIfNonZero((l + 2) as usize),
        Instr::Left(1),
    ]
}

/// `ops` holds `blk` from position `l` on.
spec fn holds_at(ops: Seq<Instr>, l: nat, blk: Seq<Instr>) -> bool {
    &&& l + blk.len() <= ops.len()
    &&& forall|i: int| 0 <= i < blk.len() ==> #[trigger] ops[l + i] == blk[i]
}

proof fn lemma_run_outer(m: Machine, l: nat, a: nat, b: nat, k: nat)
    requires
        holds_at(m.ops, l, nest_abs(l, a, b)),
        m.ops.len() < usize::MAX,
        1 <= b <= 255,
        1 <= k,
        m.ip == l + 2,
        m.dp == 0,
        m.tape.len() >= 4,
        m.tape[0] == k,
        m.tape[1] == 0,
        m.count + 16 * k * b <= u64::MAX,
    ensures
        exists|m2: Machine| #[trigger] reaches(m, m2, l + 13, 0, 0, 0, (m.tape[3] + k * b) % 256, 16 * k * b),
    decreases k,
{
    let blk = nest_abs(l, a, b);
    assert(m.ops[l + 2int] == blk[2] && m.ops[l + 3int] == blk[3] && m.ops[l + 4int] == blk[4] && m.ops[l + 5int] == blk[5]);
    assert(m.ops[l + 6int] == blk[6] && m.ops[l + 7int] == blk[7] && m.ops[l + 8int] == blk[8] && m.ops[l + 9int] == blk[9]);
    assert(m.ops[l + 10int] == blk[10] && m.ops[l + 11int] == blk[11] && m.ops[l + 12int] == blk[12]);
    assert(k * b >= 1 && 16 * k * b == 16 * (k - 1) * b + 16 * b) by (nonlinear_arith)
        requires
            k >= 1,
            b >= 1,
    ;
    let (m1, f1) = crate::modes::interpreter::step_spec(m);
    assert(f1 is None && m1.ip == l + 3 && m1.dp == 1 && m1.tape == m.tape);
    let (m2, f2) = crate::modes::interpreter::step_spec(m1);
    assert(f2 is None && m2.ip == l + 4 && m2.dp == 1);
    assert(m2.tape == m.tape.update(1, b as u8));
    let (m3, f3) = crate::modes::interpreter::step_spec(m2);
    assert(f3 is None && m3.ip == l + 5 && m3.dp == 1 && m3.tape == m2.tape);
    assert(run_spec(m) == run_spec(m1));
    assert(run_spec(m1) == run_spec(m2));
    assert(run_spec(m2) == run_spec(m3));
    assert(inner_at(m3.ops, l + 5));
    lemma_run_inner(m3, l + 5, b);
    let m4 = choose|m4: Machine| #[trigger] reaches(m3, m4, l + 10, 1, m3.tape[0] as int, 0, (m3.tape[3] + b) % 256, 5 * b);
    let (m5, f5) = crate::modes::interpreter::step_spec(m4);
    assert(f5 is None && m5.ip == l + 11 && m5.dp == 0 && m5.tape == m4.tape);
    let (m6, f6) = crate::modes::interpreter::step_spec(m5);
    assert(f6 is None && m6.ip == l + 12 && m6.dp == 0);
    assert(m6.tape == m4.tape.update(0, (k - 1) as u8));
    let (m7, f7) = crate::modes::interpreter::step_spec(m6);
    assert(f7 is None && m7.tape == m6.tape && m7.dp == 0);
    assert(run_spec(m4) == run_spec(m5));
    assert(run_spec(m5) == run_spec(m6));
    assert(run_spec(m6) == run_spec(m7));
    if k == 1 {
        assert(m7.ip == l + 13);
        assert(reaches(m, m7, l + 13, 0, 0, 0, (m.tape[3] + k * b) % 256, 16 * k * b));
    } else {
        assert(m7.ip == l + 2);
        assert(m7.count <= m.count + 5 * b + 6);
        lemma_run_outer(m7, l, a, b, (k - 1) as nat);
        let m8 = choose|m8: Machine| #[trigger] reaches(m7, m8, l + 13, 0, 0, 0, (m7.tape[3] + (k - 1) * b) % 256, 16 * (k - 1) as nat * b);
        lemma_mod_add(m.tape[3] + b, (k - 1) * b);
        assert((m.tape[3] + b) + (k - 1) * b == m.tape[3] + k * b) by (nonlinear_arith)
            requires
                k >= 1,
        ;
        assert(reaches(m, m8, l + 13, 0, 0, 0, (m.tape[3] + k * b) % 256, 16 * k * b));
    }
}

proof fn lemma_run_nest(m: Machine, l: nat, a: nat, b: nat)
    requires
        holds_at(m.ops, l, nest_abs(l, a, b)),
        m.ops.len() < usize::MAX,
        1 <= a <= 255,
        1 <= b <= 255,
        m.ip == l,
        m.dp == 0,
        m.tape.len() >= 4,
        m.tape[0] == 0,
        m.tape[1] == 0,
        m.count + 32 * a * b <= u64::MAX,
    ensures
        exists|m2: Machine| #[trigger] reaches(m, m2, l + 13, 0, 0, 0, (m.tape[3] + a * b) % 256, 32 * a * b),
{
    let blk = nest_abs(l, a, b);
    assert(m.ops[l + 0int] == blk[0] && m.ops[l + 1int] == blk[1]);
    assert(a * b >= 1 && 32 * a * b >= 32 && 32 * a * b == 16 * a * b + 16 * a * b) by (nonlinear_arith)
        requires
            a >= 1,
            b >= 1,
    ;
    let (m1, f1) = crate::modes::interpreter::step_spec(m);
    assert(f1 is None && m1.ip == l + 1 && m1.dp == 0);
    assert(m1.tape == m.tape.update(0, a as u8));
    let (m2, f2) = crate::modes::interpreter::step_spec(m1);
    assert(f2 is None && m2.ip == l + 2 && m2.dp == 0 && m2.tape == m1.tape);
    assert(run_spec(m) == run_spec(m1));
    assert(run_spec(m1) == run_spec(m2));
    lemma_run_outer(m2, l, a, b, a);
    let m3 = choose|m3: Machine| #[trigger] reaches(m2, m3, l + 13, 0, 0, 0, (m2.tape[3] + a * b) % 256, 16 * a * b);
    assert(reaches(m, m3, l + 13, 0, 0, 0, (m.tape[3] + a * b) % 256, 32 * a * b));
}

proof fn lemma_run_rest(m: Machine, l: nat, r: nat)
    requires
        holds_at(m.ops, l, rest_abs(l, r)),
        m.ops.len() < usize::MAX,
        1 <= r <= 255,
        m.ip == l,
        m.dp == 0,
        m.tape.len() >= 4,
        m.tape[0] == 0,
        m.tape[1] == 0,
        m.count + 32 * r <= u64::MAX,
    ensures
        exists|m2: Machine| #[trigger] reaches(m, m2, l + 9, 0, 0, 0, (m.tape[3] + r) % 256, 32 * r),
{
    let blk = rest_abs(l, r);
    assert(m.ops[l + 0int] == blk[0] && m.ops[l + 1int] == blk[1] && m.ops[l + 2int] == blk[2] && m.ops[l + 3int] == blk[3]);
    assert(m.ops[l + 4int] == blk[4] && m.ops[l + 5int] == blk[5] && m.ops[l + 6int] == blk[6] && m.ops[l + 7int] == blk[7]);
    assert(m.ops[l + 8int] == blk[8]);
    let (m1, f1) = crate::modes::interpreter::step_spec(m);
    assert(f1 is None && m1.ip == l + 1 && m1.dp == 1 && m1.tape == m.tape);
    let (m2, f2) = crate::modes::interpreter::step_spec(m1);
    assert(f2 is None && m2.ip == l + 2 && m2.dp == 1);
    assert(m2.tape == m.tape.update(1, r as u8));
    let (m3, f3) = crate::modes::interpreter::step_spec(m2);
    assert(f3 is None && m3.ip == l + 3 && m3.dp == 1 && m3.tape == m2.tape);
    assert(run_spec(m) == run_spec(m1));
    assert(run_spec(m1) == run_spec(m2));
    assert(run_spec(m2) == run_spec(m3));
    assert(inner_at(m3.ops, l + 3));
    lemma_run_inner(m3, l + 3, r);
    let m4 = choose|m4: Machine| #[trigger] reaches(m3, m4, l + 8, 1, m3.tape[0] as int, 0, (m3.tape[3] + r) % 256, 5 * r);
    let (m5, f5) = crate::modes::interpreter::step_spec(m4);
    assert(f5 is None && m5.ip == l + 9 && m5.dp == 0 && m5.tape == m4.tape);
    assert(run_spec(m4) == run_spec(m5));
    assert(reaches(m, m5, l + 9, 0, 0, 0, (m.tape[3] + r) % 256, 32 * r));
}

/// The instructions of `chain_code(n)` placed at `l`.
pub open spec fn chain_abs(l: nat, n: nat) -> Seq<Instr>
    decreases n,
{
    if n >= 65025 {
        nest_abs(l, 255, 255) + chain_abs(l + 13, (n - 65025) as nat)
    } else if n >= 255 {
        nest_abs(l, n / 255, 255) + if n % 255 > 0 { rest_abs(l + 13, n % 255) } else { Seq::empty() }
    } else if n > 0 {
        rest_abs(l, n)
    } else {
        Seq::empty()
    }
}

proof fn lemma_holds_split(ops: Seq<Instr>, l: nat, x: Seq<Instr>, y: Seq<Instr>)
    requires
        holds_at(ops, l, x + y),
    ensures
        holds_at(ops, l, x),
        holds_at(ops, l + x.len(), y),
{
    assert forall|i: int| 0 <= i < x.len() implies #[trigger] ops[l + i] == x[i] by {
        assert(ops[l + i] == (x + y)[i]);
    }
    assert forall|i: int| 0 <= i < y.len() implies #[trigger] ops[(l + x.len()) + i] == y[i] by {
        assert(ops[l + (x.len() + i)] == (x + y)[x.len() + i]);
    }
}

proof fn lemma_run_chain(m: Machine, l: nat, n: nat)
    requires
        holds_at(m.ops, l, chain_abs(l, n)),
        m.ops.len() < usize::MAX,
        1 <= n,
        m.ip == l,
        m.dp == 0,
        m.tape.len() >= 4,
        m.tape[0] == 0,
        m.tape[1] == 0,
        m.count + 32 * n <= u64::MAX,
    ensures
        exists|m2: Machine| #[trigger] reaches(m, m2, l + chain_abs(l, n).len(), 0, 0, 0, (m.tape[3] + n) % 256, 32 * n),
    decreases n,
{
    if n >= 65025 {
        let rest = (n - 65025) as nat;
        lemma_holds_split(m.ops, l, nest_abs(l, 255, 255), chain_abs(l + 13, rest));
        lemma_run_nest(m, l, 255, 255);
        let m2 = choose|m2: Machine| #[trigger] reaches(m, m2, l + 13, 0, 0, 0, (m.tape[3] + 255 * 255) % 256, 32 * 255 * 255);
        if rest == 0 {
            assert(chain_abs(l + 13, rest) =~= Seq::<Instr>::empty());
            assert(reaches(m, m2, l + chain_abs(l, n).len(), 0, 0, 0, (m.tape[3] + n) % 256, 32 * n));
        } else {
            lemma_run_chain(m2, l + 13, rest);
            let m3 = choose|m3: Machine| #[trigger] reaches(m2, m3, l + 13 + chain_abs(l + 13, rest).len(), 0, 0, 0, (m2.tape[3] + rest) % 256, 32 * rest);
            lemma_mod_add(m.tape[3] + 65025, rest as int);
            assert(reaches(m, m3, l + chain_abs(l, n).len(), 0, 0, 0, (m.tape[3] + n) % 256, 32 * n));
        }
    } else if n >= 255 {
        let a = n / 255;
        let r = n % 255;
        assert(1 <= a <= 254 && a * 255 + r == n && a * 255 <= n);
        let tail = if r > 0 { rest_abs(l + 13, r) } else { Seq::<Instr>::empty() };
        lemma_holds_split(m.ops, l, nest_abs(l, a, 255), tail);
        assert(32 * a * 255 <= 32 * n) by (nonlinear_arith)
            requires
                a * 255 <= n,
        ;
        lemma_run_nest(m, l, a, 255);
        let m2 = choose|m2: Machine| #[trigger] reaches(m, m2, l + 13, 0, 0, 0, (m.tape[3] + a * 255) % 256, 32 * a * 255);
        if r == 0 {
            assert(reaches(m, m2, l + chain_abs(l, n).len(), 0, 0, 0, (m.tape[3] + n) % 256, 32 * n));
        } else {
            lemma_run_rest(m2, l + 13, r);
            let m3 = choose|m3: Machine| #[trigger] reaches(m2, m3, l + 13 + 9, 0, 0, 0, (m2.tape[3] + r) % 256, 32 * r);
            lemma_mod_add(m.tape[3] + a * 255, r as int);
            assert(reaches(m, m3, l + chain_abs(l, n).len(), 0, 0, 0, (m.tape[3] + n) % 256, 32 * n));
        }
    } else {
        lemma_run_rest(m, l, n);
        let m2 = choose|m2: Machine| #[trigger] reaches(m, m2, l + 9, 0, 0, 0, (m.tape[3] + n) % 256, 32 * n);
        assert(reaches(m, m2, l + chain_abs(l, n).len(), 0, 0, 0, (m.tape[3] + n) % 256, 32 * n));
    }
}

proof fn lemma_parse_plus_run(p: Seq<char>, k: nat)
    requires
        parse_prefix(p) is Some,
        parse_prefix(p)->Some_0.0.len() == 0 || !(parse_prefix(p)->Some_0.0.last() is Add),
        1 <= k <= 255,
    ensures
        parse_prefix(p + repeat_char('+', k)) == Some(
            (parse_prefix(p)->Some_0.0.push(Instr::Add(k as u8)), parse_prefix(p)->Some_0.1),
        ),
    decreases k,
{
    let (ops, st) = parse_prefix(p)->Some_0;
    let t = p + repeat_char('+', k);
    assert(t.last() == '+');
    if k == 1 {
        assert(t.drop_last() =~= p);
    } else {
        lemma_parse_plus_run(p, (k - 1) as nat);
        assert(t.drop_last() =~= p + repeat_char('+', (k - 1) as nat));
        let o = ops.push(Instr::Add((k - 1) as u8));
        assert(o.last() is Add);
        assert(wrapping_add((k - 1) as u8, 1) == k as u8);
        assert(o.update(o.len() - 1, Instr::Add(k as u8)) =~= ops.push(Instr::Add(k as u8)));
        assert(parse_char(o, st, '+') == Some((ops.push(Instr::Add(k as u8)), st)));
    }
}

proof fn lemma_parse_push(q: Seq<char>, c: char)
    requires
        parse_prefix(q) is Some,
    ensures
        parse_prefix(q.push(c)) == parse_char(parse_prefix(q)->Some_0.0, parse_prefix(q)->Some_0.1, c),
{
    assert(q.push(c).drop_last() =~= q);
}

/// The inner loop and the end of the outer one, read after the ops `o4` of
/// `+..+[>+..+` that start at `l`.
#[verifier::rlimit(60)]
proof fn lemma_parse_nest_tail(q: Seq<char>, o4: Seq<Instr>, l: nat)
    requires
        parse_prefix(q) == Some((o4, seq![(l + 1) as int])),
        o4.len() == l + 4,
        l + 13 < usize::MAX,
    ensures
        parse_prefix(q + "[>>+<<-]<-]"@) == Some((
            o4.update((l + 1) as int, Instr::JumpIfZero((l + 12) as usize)) + seq![
                Instr::JumpIfZero((l + 9) as usize),
                Instr::Right(2),
                Instr::Add(1),
                Instr::Left(2),
                Instr::Sub(1),
                Instr::JumpIfNonZero((l + 4) as usize),
                Instr::Left(1),
                Instr::Sub(1),
                Instr::JumpIfNonZero((l + 1) as usize),
            ],
            Seq::<int>::empty(),
        )),
{
    reveal_strlit("[>>+<<-]<-]");
    let e = Seq::<int>::empty();
    let q5 = q.push('[');
    lemma_parse_push(q, '[');
    let o5 = o4.push(Instr::JumpIfZero(0));
    let s5 = seq![(l + 1) as int, (l + 4) as int];
    assert(seq![(l + 1) as int].push((l + 4) as int) =~= s5);
    assert(parse_prefix(q5) == Some((o5, s5)));
    let q6 = q5.push('>');
    lemma_parse_push(q5, '>');
    let o6 = o5.push(Instr::Right(1));
    assert(parse_prefix(q6) == Some((o6, s5)));
    let q7 = q6.push('>');
    lemma_parse_push(q6, '>');
    let o7 = o5.push(Instr::Right(2));
    assert(o6.update(o6.len() - 1, Instr::Right(2)) =~= o7);
    assert(parse_prefix(q7) == Some((o7, s5)));
    let q8 = q7.push('+');
    lemma_parse_push(q7, '+');
    let o8 = o7.push(Instr::Add(1));
    assert(parse_prefix(q8) == Some((o8, s5)));
    let q9 = q8.push('<');
    lemma_parse_push(q8, '<');
    let o9 = o8.push(Instr::Left(1));
    assert(parse_prefix(q9) == Some((o9, s5)));
    let q10 = q9.push('<');
    lemma_parse_push(q9, '<');
    let o10 = o8.push(Instr::Left(2));
    assert(o9.update(o9.len() - 1, Instr::Left(2)) =~= o10);
    assert(parse_prefix(q10) == Some((o10, s5)));
    let q11 = q10.push('-');
    lemma_parse_push(q10, '-');
    let o11 = o10.push(Instr::Sub(1));
    assert(parse_prefix(q11) == Some((o11, s5)));
    let q12 = q11.push(']');
    lemma_parse_push(q11, ']');
    let o12 = o11.update((l + 4) as int, Instr::JumpIfZero((l + 9) as usize)).push(Instr::JumpIfNonZero((l + 4) as usize));
    assert(s5.drop_last() =~= seq![(l + 1) as int]);
    assert(parse_prefix(q12) == Some((o12, seq![(l + 1) as int])));
    let q13 = q12.push('<');
    lemma_parse_push(q12, '<');
    let o13 = o12.push(Instr::Left(1));
    assert(parse_prefix(q13) == Some((o13, seq![(l + 1) as int])));
    let q14 = q13.push('-');
    lemma_parse_push(q13, '-');
    let o14 = o13.push(Instr::Sub(1));
    assert(parse_prefix(q14) == Some((o14, seq![(l + 1) as int])));
    let q15 = q14.push(']');
    lemma_parse_push(q14, ']');
    let o15 = o14.update((l + 1) as int, Instr::JumpIfZero((l + 12) as usize)).push(Instr::JumpIfNonZero((l + 1) as usize));
    assert(seq![(l + 1) as int].drop_last() =~= e);
    assert(parse_prefix(q15) == Some((o15, e)));
    assert(q + "[>>+<<-]<-]"@ =~= q15);
    assert(o15 =~= o4.update((l + 1) as int, Instr::JumpIfZero((l + 12) as usize)) + seq![
        Instr::JumpIfZero((l + 9) as usize),
        Instr::Right(2),
        Instr::Add(1),
        Instr::Left(2),
        Instr::Sub(1),
        Instr::JumpIfNonZero((l + 4) as usize),
        Instr::Left(1),
        Instr::Sub(1),
        Instr::JumpIfNonZero((l + 1) as usize),
    ]);
}

proof fn lemma_parse_nest(p: Seq<char>, a: nat, b: nat)
    requires
        parse_prefix(p) is Some,
        parse_prefix(p)->Some_0.1.len() == 0,
        parse_prefix(p)->Some_0.0.len() == 0 || parse_prefix(p)->Some_0.0.last() is JumpIfNonZero,
        parse_prefix(p)->Some_0.0.len() + 13 < usize::MAX,
        1 <= a <= 255,
        1 <= b <= 255,
    ensures
        parse_prefix(p + nest_code(a, b)) == Some(
            (parse_prefix(p)->Some_0.0 + nest_abs(parse_prefix(p)->Some_0.0.len(), a, b), Seq::<int>::empty()),
        ),
{
    reveal_strlit("[>");
    let ops = parse_prefix(p)->Some_0.0;
    let l = ops.len();
    lemma_parse_plus_run(p, a);
    let q1 = p + repeat_char('+', a);
    let o1 = ops.push(Instr::Add(a as u8));
    let q2 = q1.push('[');
    lemma_parse_push(q1, '[');
    let o2 = o1.push(Instr::JumpIfZero(0));
    assert(parse_prefix(q2) == Some((o2, seq![(l + 1) as int])));
    let q3 = q2.push('>');
    lemma_parse_push(q2, '>');
    let o3 = o2.push(Instr::Right(1));
    assert(parse_prefix(q3) == Some((o3, seq![(l + 1) as int])));
    lemma_parse_plus_run(q3, b);
    let q4 = q3 + repeat_char('+', b);
    let o4 = o3.push(Instr::Add(b as u8));
    lemma_parse_nest_tail(q4, o4, l);
    assert(p + nest_code(a, b) =~= q4 + "[>>+<<-]<-]"@);
    assert(o4.update((l + 1) as int, Instr::JumpIfZero((l + 12) as usize)) + seq![
        Instr::JumpIfZero((l + 9) as usize),
        Instr::Right(2),
        Instr::Add(1),
        Instr::Left(2),
        Instr::Sub(1),
        Instr::JumpIfNonZero((l + 4) as usize),
        Instr::Left(1),
        Instr::Sub(1),
        Instr::JumpIfNonZero((l + 1) as usize),
    ] =~= ops + nest_abs(l, a, b));
}

#[verifier::rlimit(80)]
proof fn lemma_parse_rest(p: Seq<char>, r: nat)
    requires
        parse_prefix(p) is Some,
        parse_prefix(p)->Some_0.1.len() == 0,
        parse_prefix(p)->Some_0.0.len() == 0 || parse_prefix(p)->Some_0.0.last() is JumpIfNonZero,
        parse_prefix(p)->Some_0.0.len() + 9 < usize::MAX,
        1 <= r <= 255,
    ensures
        parse_prefix(p + rest_code(r)) == Some(
            (parse_prefix(p)->Some_0.0 + rest_abs(parse_prefix(p)->Some_0.0.len(), r), Seq::<int>::empty()),
        ),
{
    reveal_strlit(">");
    reveal_strlit("[>>+<<-]<");
    let ops = parse_prefix(p)->Some_0.0;
    let l = ops.len();
    let e = Seq::<int>::empty();
    let q1 = p.push('>');
    lemma_parse_push(p, '>');
    let o1 = ops.push(Instr::Right(1));
    assert(parse_prefix(q1) == Some((o1, e)));
    lemma_parse_plus_run(q1, r);
    let q2 = q1 + repeat_char('+', r);
    let o2 = o1.push(Instr::Add(r as u8));
    let q3 = q2.push('[');
    lemma_parse_push(q2, '[');
    let o3 = o2.push(Instr::JumpIfZero(0));
    let s3 = seq![(l + 2) as int];
    assert(e.push((l + 2) as int) =~= s3);
    assert(parse_prefix(q3) == Some((o3, s3)));
    let q4 = q3.push('>');
    lemma_parse_push(q3, '>');
    let o4 = o3.push(Instr::Right(1));
    assert(parse_prefix(q4) == Some((o4, s3)));
    let q5 = q4.push('>');
    lemma_parse_push(q4, '>');
    let o5 = o3.push(Instr::Right(2));
    assert(o4.update(o4.len() - 1, Instr::Right(2)) =~= o5);
    assert(parse_prefix(q5) == Some((o5, s3)));
    let q6 = q5.push('+');
    lemma_parse_push(q5, '+');
    let o6 = o5.push(Instr::Add(1));
    assert(parse_prefix(q6) == Some((o6, s3)));
    let q7 = q6.push('<');
    lemma_parse_push(q6, '<');
    let o7 = o6.push(Instr::Left(1));
    assert(parse_prefix(q7) == Some((o7, s3)));
    let q8 = q7.push('<');
    lemma_parse_push(q7, '<');
    let o8 = o6.push(Instr::Left(2));
    assert(o7.update(o7.len() - 1, Instr::Left(2)) =~= o8);
    assert(parse_prefix(q8) == Some((o8, s3)));
    let q9 = q8.push('-');
    lemma_parse_push(q8, '-');
    let o9 = o8.push(Instr::Sub(1));
    assert(parse_prefix(q9) == Some((o9, s3)));
    let q10 = q9.push(']');
    lemma_parse_push(q9, ']');
    let o10 = o9.update((l + 2) as int, Instr::JumpIfZero((l + 7) as usize)).push(Instr::JumpIfNonZero((l + 2) as usize));
    assert(s3.drop_last() =~= e);
    assert(parse_prefix(q10) == Some((o10, e)));
    let q11 = q10.push('<');
    lemma_parse_push(q10, '<');
    let o11 = o10.push(Instr::Left(1));
    assert(parse_prefix(q11) == Some((o11, e)));
    assert(p + rest_code(r) =~= q11);
    assert(o11 =~= ops + rest_abs(l, r));
}

proof fn lemma_chain_abs_len(l: nat, n: nat)
    ensures
        chain_abs(l, n).len() <= n + 22,
        n >= 1 ==> chain_abs(l, n).len() >= 1,
        n >= 1 && n % 255 == 0 && n >= 255 ==> chain_abs(l, n).last() is JumpIfNonZero,
    decreases n,
{
    if n >= 65025 {
        lemma_chain_abs_len(l + 13, (n - 65025) as nat);
        let x = nest_abs(l, 255, 255);
        let y = chain_abs(l + 13, (n - 65025) as nat);
        if y.len() == 0 {
            assert(x + y =~= x);
        } else {
            assert((x + y).last() == y.last());
            if n % 255 == 0 && (n - 65025) as nat >= 1 {
                assert((n - 65025) as nat % 255 == 0);
                assert((n - 65025) as nat >= 255);
            }
        }
    } else if n >= 255 {
        let x = nest_abs(l, n / 255, 255);
        if n % 255 == 0 {
            assert(x + Seq::<Instr>::empty() =~= x);
        }
    }
}

#[verifier::rlimit(80)]
proof fn lemma_parse_chain(p: Seq<char>, n: nat)
    requires
        parse_prefix(p) is Some,
        parse_prefix(p)->Some_0.1.len() == 0,
        parse_prefix(p)->Some_0.0.len() == 0 || parse_prefix(p)->Some_0.0.last() is JumpIfNonZero,
        parse_prefix(p)->Some_0.0.len() + n + 22 < usize::MAX,
    ensures
        parse_prefix(p + chain_code(n)) == Some(
            (parse_prefix(p)->Some_0.0 + chain_abs(parse_prefix(p)->Some_0.0.len(), n), Seq::<int>::empty()),
        ),
    decreases n,
{
    let ops = parse_prefix(p)->Some_0.0;
    let l = ops.len();
    if n >= 65025 {
        let rest = (n - 65025) as nat;
        lemma_parse_nest(p, 255, 255);
        let p2 = p + nest_code(255, 255);
        let o2 = ops + nest_abs(l, 255, 255);
        assert(o2.last() == nest_abs(l, 255, 255).last());
        lemma_parse_chain(p2, rest);
        assert(p + chain_code(n) =~= p2 + chain_code(rest));
        assert(o2 + chain_abs(l + 13, rest) =~= ops + chain_abs(l, n));
    } else if n >= 255 {
        let a = n / 255;
        let r = n % 255;
        lemma_parse_nest(p, a, 255);
        let p2 = p + nest_code(a, 255);
        let o2 = ops + nest_abs(l, a, 255);
        assert(o2.last() == nest_abs(l, a, 255).last());
        if r > 0 {
            lemma_parse_rest(p2, r);
            assert(p + chain_code(n) =~= p2 + rest_code(r));
            assert(o2 + rest_abs(l + 13, r) =~= ops + chain_abs(l, n));
        } else {
            assert(p + chain_code(n) =~= p2);
            assert(o2 =~= ops + chain_abs(l, n));
        }
    } else if n > 0 {
        lemma_parse_rest(p, n);
    } else {
        assert(p + chain_code(n) =~= p);
        assert(ops + chain_abs(l, n) =~= ops);
    }
}

proof fn lemma_factor_found(n: nat, a0: nat, best: (nat, nat, nat))
    requires
        2 <= a0,
        best == (255nat, 1nat, 261nat) || (2 <= best.0 <= 255 && best.1 <= 255 && best.0 * best.1 == n),
    ensures
        ({
            let r = factor_search(n, a0, best);
            r == (255nat, 1nat, 261nat) || (2 <= r.0 <= 255 && r.1 <= 255 && r.0 * r.1 == n)
        }),
    decreases 256 - a0,
{
    if a0 <= 255 {
        let b = (n + a0 / 2) / a0;
        let next = if a0 * b == n && b <= 255 && a0 + b + 5 < best.2 { (a0, b, a0 + b + 5) } else { best };
        lemma_factor_found(n, a0 + 1, next);
    }
}

/// The loop scaffold for any count above 255 runs its innermost body that
/// many times: run on a fresh tape of at least four cells, with any input, it
/// ends without a fault, with the counter cells 0 and 1 at zero and the body's
/// cell 3 at the count modulo 256. (The bounds keep the run within the
/// instruction counter and the program within memory.)
pub proof fn law_large_loop_runs_n_times(n: nat, input: Seq<u8>, tape_size: nat)
    requires
        255 < n,
        32 * n <= u64::MAX,
        n + 32 < usize::MAX,
        tape_size >= 4,
    ensures
        parse_source(loop_code(n)) is Ok,
        run_spec(fresh_machine(parse_source(loop_code(n))->Ok_0, input, tape_size)).1 is None,
        run_spec(fresh_machine(parse_source(loop_code(n))->Ok_0, input, tape_size)).0.tape[0] == 0,
        run_spec(fresh_machine(parse_source(loop_code(n))->Ok_0, input, tape_size)).0.tape[1] == 0,
        run_spec(fresh_machine(parse_source(loop_code(n))->Ok_0, input, tape_size)).0.tape[3] == n % 256,
{
    let e = Seq::<char>::empty();
    assert(parse_prefix(e) == Some((Seq::<Instr>::empty(), Seq::<int>::empty())));
    lemma_factor_found(n, 2, (255, 1, 261));
    let (a, b, _) = factor_search(n, 2, (255, 1, 261));
    if a * b == n {
        assert(b >= 1) by (nonlinear_arith)
            requires
                a * b == n,
                n > 255,
        ;
    }
    let ops = if a * b == n {
        lemma_parse_nest(e, a, b);
        assert(e + nest_code(a, b) =~= nest_code(a, b));
        assert(Seq::<Instr>::empty() + nest_abs(0, a, b) =~= nest_abs(0, a, b));
        nest_abs(0, a, b)
    } else {
        lemma_parse_chain(e, n);
        assert(e + chain_code(n) =~= chain_code(n));
        assert(Seq::<Instr>::empty() + chain_abs(0, n) =~= chain_abs(0, n));
        chain_abs(0, n)
    };
    assert(parse_source(loop_code(n)) == Ok::<Seq<Instr>, crate::error::OgreError>(ops));
    let m = fresh_machine(ops, input, tape_size);
    assert(m.tape[0] == 0u8 && m.tape[1] == 0u8 && m.tape[3] == 0u8);
    assert(holds_at(ops, 0, ops)) by {
        assert forall|i: int| 0 <= i < ops.len() implies #[trigger] ops[0 + i] == ops[i] by {}
    }
    let m2 = if a * b == n {
        assert(1 <= b);
        assert(32 * a * b == 32 * n) by (nonlinear_arith)
            requires
                a * b == n,
        ;
        lemma_run_nest(m, 0, a, b);
        choose|m2: Machine| #[trigger] reaches(m, m2, 13, 0, 0, 0, (m.tape[3] + a * b) % 256, 32 * a * b)
    } else {
        lemma_chain_abs_len(0, n);
        lemma_run_chain(m, 0, n);
        choose|m2: Machine| #[trigger] reaches(m, m2, 0 + chain_abs(0, n).len(), 0, 0, 0, (m.tape[3] + n) % 256, 32 * n)
    };
    assert(m2.ip == ops.len());
    assert(run_spec(m2) == (m2, Option::<crate::modes::interpreter::Fault>::None));
}

} // verus!

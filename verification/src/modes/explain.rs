use vstd::prelude::*;

use super::dialect::{byte_len, utf8_len};
use super::interpreter::{fresh_machine, run_limit_spec, utf8_lossy, Interpreter, DEFAULT_TAPE_SIZE};
use super::ir::{bf_filter, lemma_parse_moves, ops_text, optimize_spec, parse_source, Instr, Program};
use super::preprocess::{contains_seq, join, occurs_at, push_joined, seq_contains, seq_ends_with, strs};
use crate::error::error_message;
use crate::text::{bf_char, chars_to_string, debug_string, decimal, push_chars, push_str, push_usize, str_debug, str_to_chars};

verus! {

/// How often `c` occurs in `s`.
pub open spec fn count_char(s: Seq<char>, c: char) -> nat
    decreases s.len(),
{
    if s.len() == 0 {
        0
    } else {
        count_char(s.drop_last(), c) + if s.last() == c { 1nat } else { 0nat }
    }
}

/// How often `p` occurs in `s` (for the patterns used here, which cannot
/// overlap themselves, the number of non-overlapping matches).
pub open spec fn count_occ(s: Seq<char>, p: Seq<char>) -> nat
    decreases s.len(),
{
    if s.len() == 0 {
        0
    } else {
        count_occ(s.drop_last(), p) + if seq_ends_with(s, p) { 1nat } else { 0nat }
    }
}

/// A line when `b` holds, none otherwise.
pub open spec fn line_if(b: bool, l: Seq<char>) -> Seq<Seq<char>> {
    if b { seq![l] } else { seq![] }
}

/// What the optimized program prints when run without input for at most
/// 100 000 instructions, if it finishes within that, prints something, and the
/// text is at most 200 bytes long.
pub open spec fn predicted_output(ops: Seq<Instr>) -> Option<Seq<char>> {
    match parse_source(ops_text(optimize_spec(ops))) {
        Ok(ops2) => {
            let (m, fault, done) = run_limit_spec(fresh_machine(ops2, Seq::empty(), DEFAULT_TAPE_SIZE as nat), 100_000);
            let o = utf8_lossy(m.output);
            if fault is None && done && o.len() > 0 && utf8_len(o) <= 200 {
                Some(o)
            } else {
                None
            }
        },
        Err(_) => None,
    }
}

/// The kind of program, by its input and output commands.
pub open spec fn io_kind(inp: nat, outp: nat) -> Seq<char> {
    if inp > 0 && outp > 0 {
        "This is an I/O program that reads input and produces output."@
    } else if outp > 0 {
        "This is an output-only program (no input reading)."@
    } else if inp > 0 {
        "This program reads input but produces no output."@
    } else {
        "This program has no I/O operations."@
    }
}

/// The statistics the explanation starts with.
pub open spec fn head_lines(s: Seq<char>) -> Seq<Seq<char>> {
    seq!["Program has "@ + decimal(bf_filter(s).len()) + " BF instructions."@, io_kind(count_char(s, ','), count_char(s, '.'))]
}

/// The lines on an empty program, a cat program and an output generator.
pub open spec fn kind_lines(s: Seq<char>) -> Seq<Seq<char>> {
    let inp = count_char(s, ',');
    let outp = count_char(s, '.');
    let loops = count_char(s, '[');
    line_if(bf_filter(s).len() == 0, "The program is empty (no-op)."@) + line_if(
        seq_contains(s, ",[.,]"@) || seq_contains(s, ",.[,.]"@),
        "Pattern detected: cat (echo) — copies input to output."@,
    ) + line_if(
        outp > 5 && inp == 0 && loops > 0,
        "Pattern: output-generating program using loops to compute ASCII values."@,
    )
}

/// The lines on idioms used: clears, moves and scans.
pub open spec fn idiom_lines(s: Seq<char>) -> Seq<Seq<char>> {
    let clears = count_occ(s, "[-]"@);
    let moves = count_occ(s, "[->+<]"@) + count_occ(s, "[-<+>]"@);
    line_if(clears > 0, "Uses "@ + decimal(clears) + " clear idiom(s) ([-]) to zero cells."@)
        + line_if(moves > 0, "Uses "@ + decimal(moves) + " move pattern(s) to transfer cell values."@)
        + line_if(seq_contains(s, "[>]"@), "Uses scan-right ([>]) to find a zero cell."@)
        + line_if(seq_contains(s, "[<]"@), "Uses scan-left ([<]) to find a zero cell."@)
}

/// The lines on recognised patterns.
pub open spec fn pattern_lines(s: Seq<char>) -> Seq<Seq<char>> {
    kind_lines(s) + idiom_lines(s)
}

/// The line on what optimization removes; `pct` is the reduction in percent,
/// as shown.
pub open spec fn optimization_lines(ops: Seq<Instr>, pct: Seq<char>) -> Seq<Seq<char>> {
    let pre = ops.len();
    let post = optimize_spec(ops).len();
    line_if(
        pre > post,
        "Optimization reduces "@ + decimal(pre) + " IR ops to "@ + decimal(post) + " ("@ + pct + "% reduction)."@,
    )
}

/// The memory estimate, and the output where it can be predicted.
pub open spec fn closing_lines(s: Seq<char>, ops: Seq<Instr>) -> Seq<Seq<char>> {
    let total = bf_filter(s).len();
    let inp = count_char(s, ',');
    let outp = count_char(s, '.');
    let loops = count_char(s, '[');
    let right = count_char(s, '>');
    let left = count_char(s, '<');
    let cells: nat = if right > left { (right - left + 1) as nat } else { 1 };
    seq![
        "Estimated memory: ~"@ + decimal(cells) + " cell(s), "@ + decimal(loops) + " loop(s), "@ + decimal(inp)
            + " input(s), "@ + decimal(outp) + " output(s)."@,
    ] + (if total < 1000 && inp == 0 && predicted_output(ops) is Some {
        seq!["Output: "@ + str_debug(predicted_output(ops)->Some_0)]
    } else {
        seq![]
    })
}

/// The lines of the explanation of a source that parses into `ops`; `pct` is
/// the optimization's reduction in percent, as shown.
pub open spec fn explain_lines(s: Seq<char>, ops: Seq<Instr>, pct: Seq<char>) -> Seq<Seq<char>> {
    head_lines(s) + pattern_lines(s) + optimization_lines(ops, pct) + closing_lines(s, ops)
}

/// The counts of commands, input, output, loops, right and left moves.
pub open spec fn counts_of(s: Seq<char>) -> (nat, nat, nat, nat, nat, nat) {
    (bf_filter(s).len(), count_char(s, ','), count_char(s, '.'), count_char(s, '['), count_char(s, '>'), count_char(s, '<'))
}

fn push_line_if(lines: &mut Vec<String>, b: bool, l: Vec<char>)
    ensures
        strs(final(lines)@) == strs(old(lines)@) + line_if(b, l@),
{
    if b {
        let s = chars_to_string(&l);
        lines.push(s);
        assert(strs(lines@) =~= strs(old(lines)@) + line_if(b, l@));
    } else {
        assert(strs(lines@) =~= strs(old(lines)@) + line_if(b, l@));
    }
}

fn text_line(parts: &str) -> (r: Vec<char>)
    ensures
        r@ == parts@,
{
    str_to_chars(parts)
}

/// Whether `pat` occurs in `text` at `k`.
fn occurs_here(text: &Vec<char>, pat: &Vec<char>, k: usize) -> (r: bool)
    requires
        k + pat@.len() <= text@.len(),
    ensures
        r == occurs_at(text@, pat@, k as int),
{
    let n = text.len();
    let mut t: usize = 0;
    while t < pat.len()
        invariant
            n == text@.len(),
            k + pat@.len() <= text@.len(),
            t <= pat@.len(),
            forall|y: int| 0 <= y < t ==> text@[k + y] == pat@[y],
        decreases pat@.len() - t,
    {
        assert(k + t < n);
        if text[k + t] != pat[t] {
            assert(text@.subrange(k as int, k + pat@.len())[t as int] != pat@[t as int]);
            return false;
        }
        t += 1;
    }
    assert(text@.subrange(k as int, k + pat@.len()) =~= pat@);
    true
}

fn count_occurrences(text: &Vec<char>, pat: &str) -> (r: usize)
    ensures
        r as nat == count_occ(text@, pat@),
        r <= text@.len(),
{
    let p = str_to_chars(pat);
    let mut n: usize = 0;
    let mut e: usize = 0;
    while e < text.len()
        invariant
            p@ == pat@,
            e <= text@.len(),
            n <= e,
            n as nat == count_occ(text@.take(e as int), pat@),
        decreases text@.len() - e,
    {
        e += 1;
        let ghost pre = text@.take(e as int);
        assert(pre.drop_last() =~= text@.take(e - 1));
        let hit = if p.len() <= e {
            occurs_here(text, &p, e - p.len())
        } else {
            false
        };
        proof {
            if p@.len() <= e {
                assert(pre.skip(pre.len() - p@.len()) =~= text@.subrange(e - p@.len(), e as int));
            }
        }
        if hit {
            n += 1;
        }
    }
    assert(text@.take(text@.len() as int) =~= text@);
    n
}

fn command_counts(src: &Vec<char>) -> (r: (usize, usize, usize, usize, usize, usize))
    ensures
        (r.0 as nat, r.1 as nat, r.2 as nat, r.3 as nat, r.4 as nat, r.5 as nat) == counts_of(src@),
        r.0 <= src@.len() && r.1 <= src@.len() && r.2 <= src@.len() && r.3 <= src@.len() && r.4 <= src@.len()
            && r.5 <= src@.len(),
{
    let mut total: usize = 0;
    let mut inp: usize = 0;
    let mut outp: usize = 0;
    let mut loops: usize = 0;
    let mut right: usize = 0;
    let mut left: usize = 0;
    let mut i: usize = 0;
    while i < src.len()
        invariant
            i <= src@.len(),
            total <= i && inp <= i && outp <= i && loops <= i && right <= i && left <= i,
            (total as nat, inp as nat, outp as nat, loops as nat, right as nat, left as nat) == counts_of(
                src@.take(i as int),
            ),
        decreases src@.len() - i,
    {
        assert(src@.take(i + 1).drop_last() =~= src@.take(i as int));
        let c = src[i];
        if bf_char(c) {
            total += 1;
        }
        if c == ',' {
            inp += 1;
        }
        if c == '.' {
            outp += 1;
        }
        if c == '[' {
            loops += 1;
        }
        if c == '>' {
            right += 1;
        }
        if c == '<' {
            left += 1;
        }
        i += 1;
    }
    assert(src@.take(src@.len() as int) =~= src@);
    (total, inp, outp, loops, right, left)
}

fn push_kind_lines(lines: &mut Vec<String>, src: &Vec<char>)
    ensures
        strs(final(lines)@) == strs(old(lines)@) + kind_lines(src@),
{
    let ghost start = strs(lines@);
    let (total, inp, outp, loops, _right, _left) = command_counts(src);
    push_line_if(lines, total == 0, text_line("The program is empty (no-op)."));
    let cat = contains_seq(src, &str_to_chars(",[.,]")) || contains_seq(src, &str_to_chars(",.[,.]"));
    push_line_if(lines, cat, text_line("Pattern detected: cat (echo) — copies input to output."));
    push_line_if(
        lines,
        outp > 5 && inp == 0 && loops > 0,
        text_line("Pattern: output-generating program using loops to compute ASCII values."),
    );
    assert(strs(lines@) =~= start + kind_lines(src@));
}

fn push_idiom_lines(lines: &mut Vec<String>, src: &Vec<char>)
    requires
        src@.len() <= isize::MAX,
    ensures
        strs(final(lines)@) == strs(old(lines)@) + idiom_lines(src@),
{
    let ghost start = strs(lines@);
    let clears = count_occurrences(src, "[-]");
    let mut m: Vec<char> = Vec::new();
    push_str(&mut m, "Uses ");
    push_usize(&mut m, clears);
    push_str(&mut m, " clear idiom(s) ([-]) to zero cells.");
    push_line_if(lines, clears > 0, m);
    let ghost s1 = strs(lines@);
    let moves_r = count_occurrences(src, "[->+<]");
    let moves_l = count_occurrences(src, "[-<+>]");
    let moves = moves_r + moves_l;
    let mut m: Vec<char> = Vec::new();
    push_str(&mut m, "Uses ");
    push_usize(&mut m, moves);
    push_str(&mut m, " move pattern(s) to transfer cell values.");
    push_line_if(lines, moves > 0, m);
    let ghost s2 = strs(lines@);
    let scan_r = contains_seq(src, &str_to_chars("[>]"));
    push_line_if(lines, scan_r, text_line("Uses scan-right ([>]) to find a zero cell."));
    let scan_l = contains_seq(src, &str_to_chars("[<]"));
    push_line_if(lines, scan_l, text_line("Uses scan-left ([<]) to find a zero cell."));
    assert(strs(lines@) =~= start + idiom_lines(src@));
}

fn push_pattern_lines(lines: &mut Vec<String>, src: &Vec<char>)
    requires
        src@.len() <= isize::MAX,
    ensures
        strs(final(lines)@) == strs(old(lines)@) + pattern_lines(src@),
{
    let ghost start = strs(lines@);
    push_kind_lines(lines, src);
    push_idiom_lines(lines, src);
    assert(strs(lines@) =~= start + pattern_lines(src@));
}

fn push_closing_lines(lines: &mut Vec<String>, src: &Vec<char>, optimized: &Program, Ghost(ops): Ghost<Seq<Instr>>)
    requires
        optimized@ == optimize_spec(ops),
        src@.len() <= isize::MAX,
    ensures
        strs(final(lines)@) == strs(old(lines)@) + closing_lines(src@, ops),
{
    let ghost start = strs(lines@);
    let (total, inp, outp, loops, right, left) = command_counts(src);
    let cells: usize = if right > left { right - left + 1 } else { 1 };
    let mut m: Vec<char> = Vec::new();
    push_str(&mut m, "Estimated memory: ~");
    push_usize(&mut m, cells);
    push_str(&mut m, " cell(s), ");
    push_usize(&mut m, loops);
    push_str(&mut m, " loop(s), ");
    push_usize(&mut m, inp);
    push_str(&mut m, " input(s), ");
    push_usize(&mut m, outp);
    push_str(&mut m, " output(s).");
    push_line_if(lines, true, m);
    if total < 1000 && inp == 0 {
        let text = optimized.to_bf_string();
        match Interpreter::new(text.as_str()) {
            Ok(mut interp) => {
                match interp.run_with_limit(100_000) {
                    Ok(done) => {
                        if done {
                            let o = interp.output_as_string();
                            let oc = str_to_chars(o.as_str());
                            if oc.len() > 0 && byte_len(&oc) <= 200 {
                                let mut m: Vec<char> = Vec::new();
                                push_str(&mut m, "Output: ");
                                let d = debug_string(o.as_str());
                                push_str(&mut m, d.as_str());
                                push_line_if(lines, true, m);
                            }
                        }
                    },
                    Err(_) => {},
                }
            },
            Err(_) => {},
        }
    }
    assert(strs(lines@) =~= start + closing_lines(src@, ops));
}

/// Describe in plain English what a program does. `percent` renders the share
/// of IR ops that optimization removes, given the counts before and after; it
/// is called only when optimization removes some.
pub fn explain_source<F: Fn(usize, usize) -> String>(source: &str, percent: F) -> (r: String)
    requires
        source@.len() <= isize::MAX,
        forall|a: usize, b: usize| percent.requires((a, b)),
    ensures
        match parse_source(source@) {
            Err(e) => r@ == "Error parsing program: "@ + error_message(e),
            Ok(ops) => exists|p: String|
                (ops.len() > optimize_spec(ops).len() ==> percent.ensures(
                    (ops.len() as usize, optimize_spec(ops).len() as usize),
                    p,
                )) && r@ == join(#[trigger] explain_lines(source@, ops, p@), "\n"@),
        },
{
    let mut program = match Program::from_source(source) {
        Ok(p) => p,
        Err(e) => {
            let mut m: Vec<char> = Vec::new();
            push_str(&mut m, "Error parsing program: ");
            let em = e.message();
            push_str(&mut m, em.as_str());
            return chars_to_string(&m);
        },
    };
    let ghost ops = program@;
    let src = str_to_chars(source);
    let (total, inp, outp, _loops, _right, _left) = command_counts(&src);

    let mut lines: Vec<String> = Vec::new();
    assert(strs(lines@) =~= seq![]);
    let mut m: Vec<char> = Vec::new();
    push_str(&mut m, "Program has ");
    push_usize(&mut m, total);
    push_str(&mut m, " BF instructions.");
    push_line_if(&mut lines, true, m);
    let kind = if inp > 0 && outp > 0 {
        text_line("This is an I/O program that reads input and produces output.")
    } else if outp > 0 {
        text_line("This is an output-only program (no input reading).")
    } else if inp > 0 {
        text_line("This program reads input but produces no output.")
    } else {
        text_line("This program has no I/O operations.")
    };
    push_line_if(&mut lines, true, kind);
    assert(strs(lines@) =~= head_lines(source@));
    push_pattern_lines(&mut lines, &src);

    let pre = program.ops.len();
    proof {
        lemma_parse_moves(source@);
    }
    program.optimize();
    let post = program.ops.len();
    let mut pct = String::new();
    if pre > post {
        pct = percent(pre, post);
    }
    let mut m: Vec<char> = Vec::new();
    push_str(&mut m, "Optimization reduces ");
    push_usize(&mut m, pre);
    push_str(&mut m, " IR ops to ");
    push_usize(&mut m, post);
    push_str(&mut m, " (");
    push_str(&mut m, pct.as_str());
    push_str(&mut m, "% reduction).");
    push_line_if(&mut lines, pre > post, m);
    push_closing_lines(&mut lines, &src, &program, Ghost(ops));
    assert(strs(lines@) =~= explain_lines(source@, ops, pct@));
    let mut out: Vec<char> = Vec::new();
    push_joined(&mut out, &lines, "\n");
    assert(out@ =~= join(explain_lines(source@, ops, pct@), "\n"@));
    chars_to_string(&out)
}

} // verus!

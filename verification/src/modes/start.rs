use vstd::prelude::*;

use super::debug::{flushed, parse_usize, parsed_usize, plain, push_window, window_pieces, word_is};
use super::interpreter::{fault_message, fresh_machine, run_spec, utf8_lossy, Interpreter, Machine};
use super::ir::parse_source;
use super::preprocess::{
    files_view, lemma_tbl_find_keys, preprocess_spec, strs, tbl_get, tbl_insert, tbl_keys, trim, trimmed, FnTable,
    Preprocessor, SourceFile,
};
use crate::console::{pieces_view, Console, Tone};
use crate::error::{error_message, fail_message, Fail, OgreError};
use crate::order::{sort_strings, sorted_texts, sorted_texts_of, texts};
use crate::text::{chars_to_string, decimal, push_chars, push_str, push_u64, push_usize, str_to_chars};

verus! {

/// The state of the interactive interpreter: the machine, the code fed to it
/// so far, the `@fn` definitions it knows, and the size of a fresh tape.
pub struct ReplView {
    pub m: Machine,
    pub source: Seq<char>,
    pub functions: Seq<(Seq<char>, Seq<char>)>,
    pub tape_size: nat,
}

/// What the interactive interpreter asks of its driver after a line.
pub enum ReplRequest {
    Nothing,
    Quit,
    /// Read, expand and run this file, then hand the outcome to `load`.
    Load(String),
    /// Write this text to this file.
    Save(String, String),
}

/// The value of a request.
pub enum ReplAsk {
    Nothing,
    Quit,
    Load(Seq<char>),
    Save(Seq<char>, Seq<char>),
}

pub open spec fn ask_of(r: ReplRequest) -> ReplAsk {
    match r {
        ReplRequest::Nothing => ReplAsk::Nothing,
        ReplRequest::Quit => ReplAsk::Quit,
        ReplRequest::Load(p) => ReplAsk::Load(p@),
        ReplRequest::Save(p, t) => ReplAsk::Save(p@, t@),
    }
}

/// What the interactive interpreter answers a line with.
pub struct ReplReply {
    pub pieces: Vec<(String, Tone)>,
    pub request: ReplRequest,
}

/// An interactive interpreter that keeps its tape between inputs.
pub struct StartRepl {
    interp: Interpreter,
    tape_size: usize,
    functions: FnTable,
}

impl View for StartRepl {
    type V = ReplView;

    closed spec fn view(&self) -> ReplView {
        ReplView {
            m: self.interp@,
            source: self.interp.source(),
            functions: self.functions@,
            tape_size: self.tape_size as nat,
        }
    }
}

/// The memory around the data pointer.
pub open spec fn memory_pieces(m: Machine) -> Seq<(Seq<char>, Tone)> {
    window_pieces(m, m.dp, 3)
}

/// Feed code to the machine and run it; `loaded` adds the note that a
/// loaded file ran.
pub open spec fn feed_and_run(v: ReplView, code: Seq<char>, loaded: bool) -> (ReplView, Seq<(Seq<char>, Tone)>) {
    let src = v.source + code;
    match parse_source(src) {
        Err(e) => (ReplView { source: src, ..v }, seq![("Parse error:"@, Tone::Red), plain(" "@ + error_message(e) + "\n"@)]),
        Ok(ops) => {
            let (m2, f) = run_spec(Machine { ops, ..v.m });
            match f {
                Some(fault) => (
                    ReplView { m: m2, source: src, ..v },
                    seq![("Runtime error:"@, Tone::Red), plain(" "@ + fault_message(fault) + "\n"@)] + memory_pieces(m2),
                ),
                None => {
                    let (out, m3) = flushed(m2);
                    (
                        ReplView { m: m3, source: src, ..v },
                        out + (if loaded { seq![("Loaded and executed."@, Tone::Green), plain("\n"@)] } else { seq![] })
                            + memory_pieces(m3),
                    )
                },
            }
        },
    }
}

/// Run a line of code: directives are expanded first, against the known
/// functions and the files its imports name.
pub open spec fn code_effect(v: ReplView, code: Seq<char>, files: Seq<super::preprocess::FileView>) -> (ReplView, Seq<(Seq<char>, Tone)>) {
    if !code.contains('@') {
        feed_and_run(v, code, false)
    } else {
        match preprocess_spec(files, code, "."@, v.functions) {
            Err(x) => (v, seq![("Preprocess error:"@, Tone::Red), plain(" "@ + fail_message(x) + "\n"@)]),
            Ok(exp) => feed_and_run(v, exp, false),
        }
    }
}

/// The functions of `a` with those of `b` added, a later one replacing an
/// earlier one of the same name.
pub open spec fn tbl_extend(a: Seq<(Seq<char>, Seq<char>)>, b: Seq<(Seq<char>, Seq<char>)>) -> Seq<(Seq<char>, Seq<char>)>
    decreases b.len(),
{
    if b.len() == 0 {
        a
    } else {
        tbl_insert(tbl_extend(a, b.drop_last()), b.last().0, b.last().1)
    }
}

/// What loading a file does, given what expanding it gave: its functions
/// join the known ones and its code runs.
pub open spec fn load_effect(
    v: ReplView,
    outcome: Result<(Seq<char>, Option<Seq<(Seq<char>, Seq<char>)>>), Fail>,
) -> (ReplView, Seq<(Seq<char>, Tone)>) {
    match outcome {
        Err(x) => (v, seq![("Preprocess error:"@, Tone::Red), plain(" "@ + fail_message(x) + "\n"@)]),
        Ok((exp, fns)) => {
            let (v1, p1) = match fns {
                Some(f) => (
                    ReplView { functions: tbl_extend(v.functions, f), ..v },
                    if f.len() > 0 { seq![plain("Loaded "@ + decimal(f.len()) + " function(s).\n"@)] } else { seq![] },
                ),
                None => (v, seq![]),
            };
            let (v2, p2) = feed_and_run(v1, exp, true);
            (v2, p1 + p2)
        },
    }
}

/// The list of commands.
pub open spec fn repl_help() -> Seq<(Seq<char>, Tone)> {
    seq![
        ("ogre REPL commands:"@, Tone::Bold),
        ("\n"@, Tone::Plain),
        ("  "@, Tone::Plain),
        (":reset"@, Tone::Cyan),
        ("      — Reset the tape and interpreter\n"@, Tone::Plain),
        ("  "@, Tone::Plain),
        (":load <file>"@, Tone::Cyan),
        (" — Load and run a brainfuck file\n"@, Tone::Plain),
        ("  "@, Tone::Plain),
        (":save <file>"@, Tone::Cyan),
        (" — Save tape state info to a file\n"@, Tone::Plain),
        ("  "@, Tone::Plain),
        (":functions"@, Tone::Cyan),
        ("  — Show loaded @fn definitions\n"@, Tone::Plain),
        ("  "@, Tone::Plain),
        (":peek"@, Tone::Cyan),
        ("       — Show memory around pointer\n"@, Tone::Plain),
        ("  "@, Tone::Plain),
        (":dump [n]"@, Tone::Cyan),
        (" — Show tape cells from start to end\n"@, Tone::Plain),
        ("  "@, Tone::Plain),
        (":help"@, Tone::Cyan),
        ("       — Show this help message\n"@, Tone::Plain),
        ("  "@, Tone::Plain),
        (":quit / :exit"@, Tone::Cyan),
        ("       — Quit the REPL\n"@, Tone::Plain),
        ("\n"@, Tone::Plain),
        ("  Type any brainfuck code to execute it.\n"@, Tone::Plain),
        ("  @call, @fn, @const, @use, and @import directives are supported.\n"@, Tone::Plain),
    ]
}

/// The number of bytes of the UTF-8 encoding of a text (one byte up to
/// U+007F, two below U+0800, three below U+10000, else four).
pub open spec fn utf8_len(s: Seq<char>) -> nat
    decreases s.len(),
{
    if s.len() == 0 {
        0
    } else {
        let c = s.last();
        utf8_len(s.drop_last()) + if c <= '\x7f' {
            1nat
        } else if 'ࠀ' > c {
            2nat
        } else if '𐀀' > c {
            3nat
        } else {
            4nat
        }
    }
}

/// The text with each newline made a space.
pub open spec fn newlines_to_spaces(s: Seq<char>) -> Seq<char> {
    s.map_values(|c: char| if c == '\n' { ' ' } else { c })
}

/// A function in the list: its name and the start of its body.
pub open spec fn function_line(name: Seq<char>, body: Seq<char>) -> Seq<(Seq<char>, Tone)> {
    let preview = newlines_to_spaces(trim(body.take(if body.len() < 40 { body.len() as int } else { 40 })));
    seq![
        plain("  "@),
        (name, Tone::Green),
        plain(" — "@ + preview + (if utf8_len(body) > 40 { "..."@ } else { Seq::empty() }) + "\n"@),
    ]
}

/// The list lines of the first `n` of `names`.
pub open spec fn function_lines(names: Seq<Seq<char>>, fns: Seq<(Seq<char>, Seq<char>)>, n: int) -> Seq<(Seq<char>, Tone)>
    decreases n,
{
    if n <= 0 || n > names.len() {
        seq![]
    } else {
        function_lines(names, fns, n - 1) + function_line(names[n - 1], tbl_get(fns, names[n - 1])->Some_0)
    }
}

/// The list of known functions, in alphabetical order.
pub open spec fn functions_pieces(fns: Seq<(Seq<char>, Seq<char>)>) -> Seq<(Seq<char>, Tone)> {
    if fns.len() == 0 {
        seq![plain("No functions loaded.\n"@)]
    } else {
        let names = sorted_texts(tbl_keys(fns));
        seq![plain(decimal(fns.len()) + " function(s) available:\n"@)] + function_lines(names, fns, names.len() as int)
    }
}

/// The first `k` cells of a dump; the current one is marked.
pub open spec fn dump_cells(m: Machine, k: int) -> Seq<(Seq<char>, Tone)>
    decreases k,
{
    if k <= 0 {
        seq![]
    } else {
        dump_cells(m, k - 1) + if k - 1 == m.dp {
            seq![plain(" "@), ("["@ + decimal(m.tape[k - 1] as nat) + "]"@, Tone::CyanBold)]
        } else {
            seq![plain(" "@ + decimal(m.tape[k - 1] as nat))]
        }
    }
}

/// The first `n` cells of the tape (all of it when shorter).
pub open spec fn dump_pieces(m: Machine, n: nat) -> Seq<(Seq<char>, Tone)> {
    dump_cells(m, if n < m.tape.len() { n as int } else { m.tape.len() as int }) + seq![plain("\n"@)]
}

/// Where the last nonzero cell ends: one past it, or 0.
pub open spec fn cells_used(tape: Seq<u8>, k: int) -> nat
    decreases k,
{
    if k <= 0 {
        0
    } else if tape[k - 1] != 0 {
        k as nat
    } else {
        cells_used(tape, k - 1)
    }
}

/// The values of cells `0..k`, comma separated.
pub open spec fn cell_list(tape: Seq<u8>, k: int) -> Seq<char>
    decreases k,
{
    if k <= 0 {
        Seq::empty()
    } else {
        cell_list(tape, k - 1) + (if k > 1 { ", "@ } else { Seq::empty() }) + decimal(tape[k - 1] as nat)
    }
}

/// The tape state that `:save` writes.
pub open spec fn save_text(m: Machine) -> Seq<char> {
    let used = cells_used(m.tape, m.tape.len() as int);
    let upto: nat = if used > m.dp + 1 { used } else { m.dp + 1 };
    let shown: nat = if upto < m.tape.len() { upto } else { m.tape.len() };
    "# ogre REPL tape state\n"@ + "data_pointer: "@ + decimal(m.dp) + "\n"@ + "tape_size: "@ + decimal(m.tape.len())
        + "\n"@ + "cells_used: "@ + decimal(used) + "\n"@ + "tape: ["@ + cell_list(m.tape, shown as int) + "]\n"@
}

/// Whether `t` begins with `p`.
pub open spec fn has_prefix(t: Seq<char>, p: Seq<char>) -> bool {
    p.len() <= t.len() && t.take(p.len() as int) == p
}

/// An error line: a red `Error:` and the rest.
pub open spec fn error_line(rest: Seq<char>) -> Seq<(Seq<char>, Tone)> {
    seq![("Error:"@, Tone::Red), plain(rest)]
}

/// What a line (without its surrounding whitespace) does, what it shows, and
/// what it asks of the driver.
pub open spec fn repl_effect(v: ReplView, t: Seq<char>, files: Seq<super::preprocess::FileView>) -> (ReplView, Seq<(Seq<char>, Tone)>, ReplAsk) {
    if t.len() == 0 {
        (v, seq![], ReplAsk::Nothing)
    } else if t == ":exit"@ || t == ":quit"@ || t == "exit"@ || t == "quit"@ {
        (v, seq![plain("Goodbye.\n"@)], ReplAsk::Quit)
    } else if t == ":reset"@ || t == "reset"@ {
        (
            ReplView { m: fresh_machine(Seq::empty(), Seq::empty(), v.tape_size), source: Seq::empty(), ..v },
            seq![plain("Tape reset.\n"@)],
            ReplAsk::Nothing,
        )
    } else if t == ":help"@ || t == "help"@ {
        (v, repl_help(), ReplAsk::Nothing)
    } else if t == ":functions"@ {
        (v, functions_pieces(v.functions), ReplAsk::Nothing)
    } else if t == ":peek"@ {
        (v, memory_pieces(v.m), ReplAsk::Nothing)
    } else if has_prefix(t, ":dump"@) {
        let n: nat = match parsed_usize(trim(t.skip(5))) {
            Some(k) => k as nat,
            None => 20,
        };
        (v, dump_pieces(v.m, n), ReplAsk::Nothing)
    } else if has_prefix(t, ":load "@) {
        let path = trim(t.skip(6));
        if path.len() == 0 {
            (v, error_line(" usage: :load <file>\n"@), ReplAsk::Nothing)
        } else {
            (v, seq![], ReplAsk::Load(path))
        }
    } else if has_prefix(t, ":save "@) {
        let path = trim(t.skip(6));
        if path.len() == 0 {
            (v, error_line(" usage: :save <file>\n"@), ReplAsk::Nothing)
        } else {
            (v, seq![], ReplAsk::Save(path, save_text(v.m)))
        }
    } else if has_prefix(t, ":"@) {
        (
            v,
            seq![("Error:"@, Tone::Red), plain(" unknown command. Type "@), (":help"@, Tone::Cyan), plain(" for help.\n"@)],
            ReplAsk::Nothing,
        )
    } else {
        let (v2, p) = code_effect(v, t, files);
        (v2, p, ReplAsk::Nothing)
    }
}

/// What the interactive interpreter shows when it starts.
pub open spec fn repl_banner(v: ReplView) -> Seq<(Seq<char>, Tone)> {
    seq![("ogre interactive interpreter"@, Tone::Bold), plain("\n"@)] + (if v.functions.len() > 0 {
        seq![plain("  "@), (decimal(v.functions.len()), Tone::Green), plain(" @fn definition(s) loaded\n"@)]
    } else {
        seq![]
    }) + seq![plain("  Type "@), (":help"@, Tone::Cyan), plain(" for commands, or enter brainfuck code.\n"@), plain("\n"@)]
}

fn help_pieces(con: &mut Console)
    ensures
        final(con)@ == old(con)@ + repl_help(),
{
    let ghost base = con@;
    con.put(String::from_str("ogre REPL commands:"), Tone::Bold);
    con.put(String::from_str("\n"), Tone::Plain);
    con.put(String::from_str("  "), Tone::Plain);
    con.put(String::from_str(":reset"), Tone::Cyan);
    con.put(String::from_str("      — Reset the tape and interpreter\n"), Tone::Plain);
    con.put(String::from_str("  "), Tone::Plain);
    con.put(String::from_str(":load <file>"), Tone::Cyan);
    con.put(String::from_str(" — Load and run a brainfuck file\n"), Tone::Plain);
    con.put(String::from_str("  "), Tone::Plain);
    con.put(String::from_str(":save <file>"), Tone::Cyan);
    con.put(String::from_str(" — Save tape state info to a file\n"), Tone::Plain);
    con.put(String::from_str("  "), Tone::Plain);
    con.put(String::from_str(":functions"), Tone::Cyan);
    con.put(String::from_str("  — Show loaded @fn definitions\n"), Tone::Plain);
    con.put(String::from_str("  "), Tone::Plain);
    con.put(String::from_str(":peek"), Tone::Cyan);
    con.put(String::from_str("       — Show memory around pointer\n"), Tone::Plain);
    con.put(String::from_str("  "), Tone::Plain);
    con.put(String::from_str(":dump [n]"), Tone::Cyan);
    con.put(String::from_str(" — Show tape cells from start to end\n"), Tone::Plain);
    con.put(String::from_str("  "), Tone::Plain);
    con.put(String::from_str(":help"), Tone::Cyan);
    con.put(String::from_str("       — Show this help message\n"), Tone::Plain);
    con.put(String::from_str("  "), Tone::Plain);
    con.put(String::from_str(":quit / :exit"), Tone::Cyan);
    con.put(String::from_str("       — Quit the REPL\n"), Tone::Plain);
    con.put(String::from_str("\n"), Tone::Plain);
    con.put(String::from_str("  Type any brainfuck code to execute it.\n"), Tone::Plain);
    con.put(String::from_str("  @call, @fn, @const, @use, and @import directives are supported.\n"), Tone::Plain);
    assert(con@ =~= base + repl_help());
}

fn utf8_length(s: &Vec<char>) -> (n: usize)
    requires
        s@.len() <= usize::MAX / 4,
    ensures
        n == utf8_len(s@),
{
    let mut n: usize = 0;
    let mut k: usize = 0;
    while k < s.len()
        invariant
            k <= s@.len(),
            s@.len() <= usize::MAX / 4,
            n == utf8_len(s@.take(k as int)),
            n <= 4 * k,
        decreases s@.len() - k,
    {
        assert(s@.take(k + 1).drop_last() =~= s@.take(k as int));
        let c = s[k];
        if c <= '\x7f' {
            n += 1;
        } else if 'ࠀ' > c {
            n += 2;
        } else if '𐀀' > c {
            n += 3;
        } else {
            n += 4;
        }
        k += 1;
    }
    assert(s@.take(k as int) =~= s@);
    n
}

fn has_at(s: &Vec<char>) -> (r: bool)
    ensures
        r == s@.contains('@'),
{
    let mut k: usize = 0;
    while k < s.len()
        invariant
            k <= s@.len(),
            forall|j: int| 0 <= j < k ==> s@[j] != '@',
        decreases s@.len() - k,
    {
        if s[k] == '@' {
            assert(s@[k as int] == '@');
            return true;
        }
        k += 1;
    }
    false
}

fn prefix_is(t: &Vec<char>, p: &str) -> (r: bool)
    ensures
        r == has_prefix(t@, p@),
{
    let pc = str_to_chars(p);
    if pc.len() > t.len() {
        return false;
    }
    let mut k: usize = 0;
    while k < pc.len()
        invariant
            pc@ == p@,
            pc@.len() <= t@.len(),
            k <= pc@.len(),
            forall|j: int| 0 <= j < k ==> t@[j] == pc@[j],
        decreases pc@.len() - k,
    {
        if t[k] != pc[k] {
            assert(t@.take(pc@.len() as int)[k as int] != pc@[k as int]);
            return false;
        }
        k += 1;
    }
    assert(t@.take(pc@.len() as int) =~= pc@);
    true
}

fn rest_after(t: &Vec<char>, n: usize) -> (r: Vec<char>)
    requires
        n <= t@.len(),
    ensures
        r@ == trim(t@.skip(n as int)),
{
    let mut v: Vec<char> = Vec::new();
    let mut k: usize = n;
    while k < t.len()
        invariant
            n <= k <= t@.len(),
            v@ == t@.subrange(n as int, k as int),
        decreases t@.len() - k,
    {
        v.push(t[k]);
        k += 1;
        assert(v@ =~= t@.subrange(n as int, k as int));
    }
    assert(v@ =~= t@.skip(n as int));
    trimmed(&v)
}

fn error_pieces(con: &mut Console, rest: &str)
    ensures
        final(con)@ == old(con)@ + error_line(rest@),
{
    let ghost base = con@;
    con.put(String::from_str("Error:"), Tone::Red);
    con.text(rest);
    assert(con@ =~= base + error_line(rest@));
}

fn message_pieces(con: &mut Console, label: &str, msg: String)
    ensures
        final(con)@ == old(con)@ + seq![(label@, Tone::Red), plain(" "@ + msg@ + "\n"@)],
{
    let ghost base = con@;
    con.put(String::from_str(label), Tone::Red);
    let mut v: Vec<char> = Vec::new();
    push_str(&mut v, " ");
    push_str(&mut v, msg.as_str());
    push_str(&mut v, "\n");
    con.put(chars_to_string(&v), Tone::Plain);
    assert(con@ =~= base + seq![(label@, Tone::Red), plain(" "@ + msg@ + "\n"@)]);
}

impl StartRepl {
    pub closed spec fn wf(&self) -> bool {
        &&& self.interp.wf()
        &&& !self.interp.is_live()
        &&& self.functions.wf()
        &&& 0 < self.tape_size <= isize::MAX
        &&& self.interp@.tape.len() == self.tape_size
        &&& self.interp@.dp < self.interp@.tape.len()
        &&& self.interp@.touched.len() == self.interp@.tape.len()
    }

    /// An interactive interpreter with a tape of `tape_size` cells.
    pub fn with_tape_size(tape_size: usize) -> (r: Result<Self, OgreError>)
        requires
            tape_size <= isize::MAX,
        ensures
            r is Ok,
            0 < tape_size ==> r->Ok_0.wf(),
            r->Ok_0@ == (ReplView {
                m: fresh_machine(Seq::empty(), Seq::empty(), tape_size as nat),
                source: Seq::empty(),
                functions: Seq::empty(),
                tape_size: tape_size as nat,
            }),
    {
        let interp = Self::fresh(tape_size)?;
        Ok(StartRepl { interp, tape_size, functions: FnTable::new() })
    }

    /// An interactive interpreter with the default tape.
    pub fn new() -> (r: Result<Self, OgreError>)
        ensures
            r is Ok,
            r->Ok_0.wf(),
            r->Ok_0@ == (ReplView {
                m: fresh_machine(Seq::empty(), Seq::empty(), super::interpreter::DEFAULT_TAPE_SIZE as nat),
                source: Seq::empty(),
                functions: Seq::empty(),
                tape_size: super::interpreter::DEFAULT_TAPE_SIZE as nat,
            }),
    {
        Self::with_tape_size(super::interpreter::DEFAULT_TAPE_SIZE)
    }

    fn fresh(tape_size: usize) -> (r: Result<Interpreter, OgreError>)
        requires
            tape_size <= isize::MAX,
        ensures
            r is Ok,
            0 < tape_size ==> r->Ok_0.wf(),
            !r->Ok_0.is_live(),
            r->Ok_0@ == fresh_machine(Seq::empty(), Seq::empty(), tape_size as nat),
            r->Ok_0.source() == Seq::<char>::empty(),
            0 < tape_size ==> r->Ok_0@.dp < r->Ok_0@.tape.len(),
            r->Ok_0@.touched.len() == r->Ok_0@.tape.len(),
            r->Ok_0@.tape.len() == tape_size,
    {
        proof {
            reveal_strlit("");
            assert(""@ =~= Seq::<char>::empty());
            assert(parse_source(Seq::<char>::empty()) is Ok);
        }
        let it = Interpreter::with_tape_size("", tape_size)?;
        proof {
            if tape_size > 0 {
                it.lemma_wf_pointer();
            }
        }
        Ok(it)
    }

    /// Add functions to the ones the interpreter knows; a later one
    /// replaces an earlier one of the same name.
    pub fn add_functions(&mut self, fns: &FnTable)
        requires
            old(self).wf(),
        ensures
            final(self).wf(),
            final(self)@ == (ReplView { functions: tbl_extend(old(self)@.functions, fns@), ..old(self)@ }),
    {
        let mut k: usize = 0;
        while k < fns.len()
            invariant
                self.wf(),
                k <= fns@.len(),
                self@ == (ReplView { functions: tbl_extend(old(self)@.functions, fns@.take(k as int)), ..old(self)@ }),
            decreases fns@.len() - k,
        {
            let (key, value) = fns.entry(k);
            proof {
                assert(fns@.take(k + 1).drop_last() =~= fns@.take(k as int));
            }
            self.functions.insert(key.clone(), value.clone());
            k += 1;
        }
        assert(fns@.take(k as int) =~= fns@);
    }
}

impl StartRepl {
    fn feed_and_run_exec(&mut self, con: &mut Console, code: &str, loaded: bool)
        requires
            old(self).wf(),
        ensures
            final(self).wf(),
            final(self)@ == feed_and_run(old(self)@, code@, loaded).0,
            final(con)@ == old(con)@ + feed_and_run(old(self)@, code@, loaded).1,
    {
        let ghost v = self@;
        let ghost base = con@;
        match self.interp.feed(code) {
            Err(e) => {
                message_pieces(con, "Parse error:", e.message());
                assert(self@ =~= feed_and_run(v, code@, loaded).0);
                return;
            },
            Ok(()) => {},
        }
        let ghost fed = self@;
        match self.interp.run() {
            Err(e) => {
                message_pieces(con, "Runtime error:", e.message());
            },
            Ok(()) => {
                if self.interp.output().len() > 0 {
                    con.put(self.interp.output_as_string(), Tone::Plain);
                    self.interp.clear_output();
                }
                if loaded {
                    con.put(String::from_str("Loaded and executed."), Tone::Green);
                    con.text("\n");
                }
            },
        }
        proof {
            self.interp.lemma_wf_pointer();
        }
        let ghost before_mem = con@;
        let dp = self.interp.data_pointer();
        push_window(&self.interp, con, dp, 3);
        assert(self@ =~= feed_and_run(v, code@, loaded).0);
        assert(con@ =~= base + feed_and_run(v, code@, loaded).1);
    }

    fn run_code(&mut self, con: &mut Console, code: &Vec<char>, files: &[SourceFile])
        requires
            old(self).wf(),
        ensures
            final(self).wf(),
            final(self)@ == code_effect(old(self)@, code@, files_view(files@)).0,
            final(con)@ == old(con)@ + code_effect(old(self)@, code@, files_view(files@)).1,
    {
        let text = chars_to_string(code);
        if !has_at(code) {
            self.feed_and_run_exec(con, text.as_str(), false);
            return;
        }
        match Preprocessor::expand_with_functions(text.as_str(), &self.functions, files) {
            Err(e) => {
                let ghost base = con@;
                message_pieces(con, "Preprocess error:", e.message());
                assert(con@ =~= base + code_effect(old(self)@, code@, files_view(files@)).1);
            },
            Ok(exp) => {
                self.feed_and_run_exec(con, exp.as_str(), false);
            },
        }
    }

    fn list_functions(&self, con: &mut Console)
        requires
            self.wf(),
        ensures
            final(con)@ == old(con)@ + functions_pieces(self@.functions),
    {
        let ghost base = con@;
        let fns = &self.functions;
        if fns.len() == 0 {
            con.text("No functions loaded.\n");
            return;
        }
        let mut head: Vec<char> = Vec::new();
        push_usize(&mut head, fns.len());
        push_str(&mut head, " function(s) available:\n");
        con.put(chars_to_string(&head), Tone::Plain);
        let keys = fns.keys();
        assert(texts(keys@) =~= strs(keys@));
        let names = sort_strings(&keys);
        let ghost sorted = texts(names@);
        let ghost open = con@;
        let mut k: usize = 0;
        while k < names.len()
            invariant
                self.wf(),
                k <= names@.len(),
                sorted == texts(names@),
                sorted_texts_of(sorted, tbl_keys(self@.functions)),
                sorted == sorted_texts(tbl_keys(self@.functions)),
                con@ == open + function_lines(sorted, self@.functions, k as int),
            decreases names@.len() - k,
        {
            let name = &names[k];
            proof {
                assert(sorted[k as int] == name@);
                assert(sorted.contains(name@));
                lemma_tbl_find_keys(self@.functions, name@);
            }
            let body = match self.functions.get(name.as_str()) {
                Some(b) => str_to_chars(b.as_str()),
                None => {
                    assert(false);
                    Vec::new()
                },
            };
            let take: usize = if body.len() < 40 { body.len() } else { 40 };
            let mut first: Vec<char> = Vec::new();
            let mut j: usize = 0;
            while j < take
                invariant
                    take <= body@.len(),
                    j <= take,
                    first@ == body@.take(j as int),
                decreases take - j,
            {
                first.push(body[j]);
                j += 1;
                assert(first@ =~= body@.take(j as int));
            }
            let t = trimmed(&first);
            let mut line: Vec<char> = Vec::new();
            push_str(&mut line, " — ");
            let mut j: usize = 0;
            let ghost pre = line@;
            while j < t.len()
                invariant
                    j <= t@.len(),
                    line@ == pre + newlines_to_spaces(t@.take(j as int)),
                decreases t@.len() - j,
            {
                if t[j] == '\n' {
                    line.push(' ');
                } else {
                    line.push(t[j]);
                }
                j += 1;
                assert(line@ =~= pre + newlines_to_spaces(t@.take(j as int)));
            }
            assert(t@.take(j as int) =~= t@);
            let long = if body.len() > usize::MAX / 8 {
                true
            } else {
                utf8_length(&body) > 40
            };
            proof {
                if body@.len() > usize::MAX / 8 {
                    lemma_utf8_len_at_least(body@);
                }
            }
            if long {
                push_str(&mut line, "...");
            }
            push_str(&mut line, "\n");
            con.text("  ");
            con.put(name.clone(), Tone::Green);
            con.put(chars_to_string(&line), Tone::Plain);
            proof {
                assert(con@ =~= open + function_lines(sorted, self@.functions, k + 1));
            }
            k += 1;
        }
        assert(con@ =~= base + functions_pieces(self@.functions));
    }

    fn dump(&self, con: &mut Console, n: usize)
        requires
            self.wf(),
        ensures
            final(con)@ == old(con)@ + dump_pieces(self@.m, n as nat),
    {
        let ghost base = con@;
        let tape = self.interp.tape();
        let len = if n < tape.len() { n } else { tape.len() };
        let dp = self.interp.data_pointer();
        let mut i: usize = 0;
        while i < len
            invariant
                len <= tape@.len(),
                tape@ == self@.m.tape,
                dp == self@.m.dp,
                i <= len,
                con@ == base + dump_cells(self@.m, i as int),
            decreases len - i,
        {
            if i == dp {
                con.text(" ");
                let mut t: Vec<char> = Vec::new();
                t.push('[');
                push_u64(&mut t, tape[i] as u64);
                t.push(']');
                proof {
                    reveal_strlit("[");
                    reveal_strlit("]");
                    assert(t@ =~= "["@ + decimal(tape@[i as int] as nat) + "]"@);
                }
                con.put(chars_to_string(&t), Tone::CyanBold);
            } else {
                let mut t: Vec<char> = Vec::new();
                t.push(' ');
                push_u64(&mut t, tape[i] as u64);
                proof {
                    reveal_strlit(" ");
                    assert(t@ =~= " "@ + decimal(tape@[i as int] as nat));
                }
                con.put(chars_to_string(&t), Tone::Plain);
            }
            assert(con@ =~= base + dump_cells(self@.m, i + 1));
            i += 1;
        }
        con.text("\n");
        assert(con@ =~= base + dump_pieces(self@.m, n as nat));
    }

    fn save_info(&self) -> (s: String)
        requires
            self.wf(),
        ensures
            s@ == save_text(self@.m),
    {
        let tape = self.interp.tape();
        let dp = self.interp.data_pointer();
        let mut k: usize = tape.len();
        proof {
            self.interp.lemma_wf_pointer();
        }
        while k > 0 && tape[k - 1] == 0
            invariant
                k <= tape@.len(),
                cells_used(tape@, tape@.len() as int) == cells_used(tape@, k as int),
            decreases k,
        {
            k -= 1;
        }
        let used = k;
        let ghost u = cells_used(tape@, tape@.len() as int);
        assert(used == u);
        let upto: usize = if used > dp + 1 { used } else { dp + 1 };
        let shown: usize = if upto < tape.len() { upto } else { tape.len() };
        let mut v: Vec<char> = Vec::new();
        push_str(&mut v, "# ogre REPL tape state\n");
        push_str(&mut v, "data_pointer: ");
        push_usize(&mut v, dp);
        push_str(&mut v, "\n");
        push_str(&mut v, "tape_size: ");
        push_usize(&mut v, tape.len());
        push_str(&mut v, "\n");
        push_str(&mut v, "cells_used: ");
        push_usize(&mut v, used);
        push_str(&mut v, "\n");
        push_str(&mut v, "tape: [");
        let ghost pre = v@;
        let mut i: usize = 0;
        while i < shown
            invariant
                shown <= tape@.len(),
                i <= shown,
                v@ == pre + cell_list(tape@, i as int),
            decreases shown - i,
        {
            if i > 0 {
                push_str(&mut v, ", ");
            }
            push_u64(&mut v, tape[i] as u64);
            i += 1;
            assert(v@ =~= pre + cell_list(tape@, i as int));
        }
        push_str(&mut v, "]\n");
        assert(v@ =~= save_text(self@.m));
        chars_to_string(&v)
    }
}

proof fn lemma_utf8_len_at_least(s: Seq<char>)
    ensures
        utf8_len(s) >= s.len(),
    decreases s.len(),
{
    if s.len() > 0 {
        lemma_utf8_len_at_least(s.drop_last());
    }
}

impl StartRepl {
    /// What the interactive interpreter shows when it starts.
    pub fn banner(&self) -> (r: Vec<(String, Tone)>)
        ensures
            pieces_view(r@) == repl_banner(self@),
    {
        let mut con = Console::new();
        con.put(String::from_str("ogre interactive interpreter"), Tone::Bold);
        con.text("\n");
        if self.functions.len() > 0 {
            con.text("  ");
            let mut n: Vec<char> = Vec::new();
            push_usize(&mut n, self.functions.len());
            con.put(chars_to_string(&n), Tone::Green);
            con.text(" @fn definition(s) loaded\n");
        }
        con.text("  Type ");
        con.put(String::from_str(":help"), Tone::Cyan);
        con.text(" for commands, or enter brainfuck code.\n");
        con.text("\n");
        assert(con@ =~= repl_banner(self@));
        con.pieces
    }

    /// The functions the interpreter knows.
    pub fn functions(&self) -> (f: &FnTable)
        ensures
            f@ == self@.functions,
    {
        &self.functions
    }

    /// The interpreter that runs the code.
    pub fn interpreter(&self) -> (i: &Interpreter)
        ensures
            i@ == self@.m,
            i.source() == self@.source,
    {
        &self.interp
    }

    /// Carry out a line. `files` are the files that an `@import` in it names,
    /// read by the driver.
    #[verifier::rlimit(40)]
    pub fn handle_line(&mut self, line: &str, files: &[SourceFile]) -> (r: ReplReply)
        requires
            old(self).wf(),
        ensures
            final(self).wf(),
            ({
                let (v, p, a) = repl_effect(old(self)@, trim(line@), files_view(files@));
                &&& final(self)@ == v
                &&& pieces_view(r.pieces@) == p
                &&& ask_of(r.request) == a
            }),
    {
        let chars = str_to_chars(line);
        let t = trimmed(&chars);
        let mut con = Console::new();
        let ghost v0 = self@;
        if t.len() == 0 {
            return ReplReply { pieces: con.pieces, request: ReplRequest::Nothing };
        }
        if word_is(&t, ":exit") || word_is(&t, ":quit") || word_is(&t, "exit") || word_is(&t, "quit") {
            con.text("Goodbye.\n");
            return ReplReply { pieces: con.pieces, request: ReplRequest::Quit };
        }
        if word_is(&t, ":reset") || word_is(&t, "reset") {
            match Self::fresh(self.tape_size) {
                Ok(it) => {
                    self.interp = it;
                },
                Err(_) => {},
            }
            con.text("Tape reset.\n");
            assert(self@ =~= repl_effect(v0, t@, files_view(files@)).0);
            return ReplReply { pieces: con.pieces, request: ReplRequest::Nothing };
        }
        if word_is(&t, ":help") || word_is(&t, "help") {
            help_pieces(&mut con);
            return ReplReply { pieces: con.pieces, request: ReplRequest::Nothing };
        }
        if word_is(&t, ":functions") {
            self.list_functions(&mut con);
            return ReplReply { pieces: con.pieces, request: ReplRequest::Nothing };
        }
        if word_is(&t, ":peek") {
            proof {
                self.interp.lemma_wf_pointer();
            }
            let dp = self.interp.data_pointer();
            push_window(&self.interp, &mut con, dp, 3);
            return ReplReply { pieces: con.pieces, request: ReplRequest::Nothing };
        }
        if prefix_is(&t, ":dump") {
            proof {
                reveal_strlit(":dump");
            }
            let rest = rest_after(&t, 5);
            let n: usize = match parse_usize(&rest) {
                Some(k) => k,
                None => 20,
            };
            self.dump(&mut con, n);
            return ReplReply { pieces: con.pieces, request: ReplRequest::Nothing };
        }
        if prefix_is(&t, ":load ") {
            proof {
                reveal_strlit(":load ");
            }
            let path = rest_after(&t, 6);
            if path.len() == 0 {
                error_pieces(&mut con, " usage: :load <file>\n");
                return ReplReply { pieces: con.pieces, request: ReplRequest::Nothing };
            }
            return ReplReply { pieces: con.pieces, request: ReplRequest::Load(chars_to_string(&path)) };
        }
        if prefix_is(&t, ":save ") {
            proof {
                reveal_strlit(":save ");
            }
            let path = rest_after(&t, 6);
            if path.len() == 0 {
                error_pieces(&mut con, " usage: :save <file>\n");
                return ReplReply { pieces: con.pieces, request: ReplRequest::Nothing };
            }
            let info = self.save_info();
            return ReplReply { pieces: con.pieces, request: ReplRequest::Save(chars_to_string(&path), info) };
        }
        if prefix_is(&t, ":") {
            con.put(String::from_str("Error:"), Tone::Red);
            con.text(" unknown command. Type ");
            con.put(String::from_str(":help"), Tone::Cyan);
            con.text(" for help.\n");
            assert(con@ =~= repl_effect(v0, t@, files_view(files@)).1);
            return ReplReply { pieces: con.pieces, request: ReplRequest::Nothing };
        }
        self.run_code(&mut con, &t, files);
        ReplReply { pieces: con.pieces, request: ReplRequest::Nothing }
    }

    /// Go on with `:load`: what expanding the file gave (its expanded code
    /// and, when they could be read, its functions), or why it failed.
    pub fn load(&mut self, outcome: Result<(String, Option<FnTable>), OgreError>) -> (r: Vec<(String, Tone)>)
        requires
            old(self).wf(),
        ensures
            final(self).wf(),
            ({
                let o = match outcome {
                    Ok((e, f)) => Ok((e@, match f {
                        Some(t) => Some(t@),
                        None => None,
                    })),
                    Err(x) => Err(x@),
                };
                let (v, p) = load_effect(old(self)@, o);
                &&& final(self)@ == v
                &&& pieces_view(r@) == p
            }),
    {
        let mut con = Console::new();
        match outcome {
            Err(e) => {
                message_pieces(&mut con, "Preprocess error:", e.message());
            },
            Ok((expanded, fns)) => {
                match fns {
                    Some(f) => {
                        self.add_functions(&f);
                        if f.len() > 0 {
                            let mut t: Vec<char> = Vec::new();
                            push_str(&mut t, "Loaded ");
                            push_usize(&mut t, f.len());
                            push_str(&mut t, " function(s).\n");
                            con.put(chars_to_string(&t), Tone::Plain);
                        }
                    },
                    None => {},
                }
                self.feed_and_run_exec(&mut con, expanded.as_str(), true);
            },
        }
        con.pieces
    }
}

/// What `:load` shows for a file that does not exist.
pub fn missing_file_pieces(path: &str) -> (r: Vec<(String, Tone)>)
    ensures
        pieces_view(r@) == error_line(" file not found: "@ + path@ + "\n"@),
{
    let mut con = Console::new();
    con.put(String::from_str("Error:"), Tone::Red);
    let mut t: Vec<char> = Vec::new();
    push_str(&mut t, " file not found: ");
    push_str(&mut t, path);
    push_str(&mut t, "\n");
    con.put(chars_to_string(&t), Tone::Plain);
    assert(con@ =~= error_line(" file not found: "@ + path@ + "\n"@));
    con.pieces
}

} // verus!

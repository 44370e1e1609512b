use vstd::prelude::*;

use super::interpreter::{fault_message, fresh_machine, run_limit_spec, utf8_lossy, Interpreter, DEFAULT_TAPE_SIZE};
use super::ir::parse_source;
use super::preprocess::{contains_seq, seq_contains};
use crate::console::{pieces_view, Console, Tone};
use crate::error::{error_message, fail_message, Fail, OgreError};
use crate::verbosity::Verbosity;
use super::debug::plain;
use crate::text::{chars_to_string, debug_string, decimal, push_str, push_u64, push_usize, str_debug, str_to_chars};

verus! {

/// The instruction limit of a test case that sets none.
pub const DEFAULT_INSTRUCTION_LIMIT: u64 = 10_000_000;

/// Options for running tests.
pub struct TestOptions {
    /// Run only the tests whose name contains this.
    pub filter: Option<String>,
    /// Write JUnit XML to this file.
    pub junit_output: Option<String>,
    /// Run the tests in parallel.
    pub parallel: bool,
}

impl Default for TestOptions {
    fn default() -> (r: Self)
        ensures
            r.filter is None && r.junit_output is None && !r.parallel,
    {
        TestOptions { filter: None, junit_output: None, parallel: false }
    }
}

/// A test case: a program file, its input, and the output it must give
/// (exactly, or matching a regular expression).
pub struct TestCase {
    pub name: String,
    pub brainfuck: String,
    pub input: String,
    pub output: String,
    pub output_regex: Option<String>,
    pub timeout: Option<u64>,
}

/// Whether a test case asks for both an exact output and a pattern.
pub open spec fn conflicts(c: TestCase) -> bool {
    c.output_regex is Some && c.output@.len() > 0
}

/// Why `regex` rejects a pattern, as its error's `Display` shows it; `None`
/// when the pattern compiles.
pub uninterp spec fn regex_error(pattern: Seq<char>) -> Option<Seq<char>>;

/// Whether a pattern that compiles matches somewhere in a text.
pub uninterp spec fn regex_matches(pattern: Seq<char>, text: Seq<char>) -> bool;

/// `regex::Regex::new(pattern)` and, when it compiles, `is_match(text)`.
/// Claimed: both results are functions of their arguments alone, named
/// `regex_error` and `regex_matches`.
#[verifier::external_body]
fn regex_match(pattern: &str, text: &str) -> (r: Result<bool, String>)
    ensures
        match r {
            Ok(b) => regex_error(pattern@) is None && b == regex_matches(pattern@, text@),
            Err(m) => regex_error(pattern@) == Some(m@),
        },
{
    match regex::Regex::new(pattern) {
        Ok(re) => Ok(re.is_match(text)),
        Err(e) => Err(e.to_string()),
    }
}

/// The verdict on the output of a test case that ran to its end.
pub open spec fn output_verdict(c: TestCase, actual: Seq<char>) -> (bool, Option<Seq<char>>) {
    match c.output_regex {
        Some(re) => match regex_error(re@) {
            Some(msg) => (false, Some("invalid regex '"@ + re@ + "': "@ + msg)),
            None => if regex_matches(re@, actual) {
                (true, None)
            } else {
                (false, Some("output "@ + str_debug(actual) + " does not match regex /"@ + re@ + "/"@))
            },
        },
        None => if actual == c.output@ {
            (true, None)
        } else {
            (false, Some("expected: "@ + str_debug(c.output@) + "\n      actual:   "@ + str_debug(actual)))
        },
    }
}

/// Whether a test case passes, and why not, given its program after
/// preprocessing: it runs on its input for at most its instruction limit and
/// its output is compared.
pub open spec fn case_verdict(c: TestCase, expanded: Result<Seq<char>, Fail>) -> (bool, Option<Seq<char>>) {
    if conflicts(c) {
        (false, Some("test case specifies both 'output' and 'output_regex' — use only one"@))
    } else {
        match expanded {
            Err(e) => (false, Some("preprocess error: "@ + fail_message(e))),
            Ok(src) => match parse_source(src) {
                Err(e) => (false, Some("parse error: "@ + error_message(e))),
                Ok(ops) => {
                    let limit: u64 = match c.timeout {
                        Some(t) => t,
                        None => DEFAULT_INSTRUCTION_LIMIT,
                    };
                    let (m, fault, done) = run_limit_spec(
                        fresh_machine(ops, vstd::utf8::encode_utf8(c.input@), DEFAULT_TAPE_SIZE as nat),
                        limit as nat,
                    );
                    match fault {
                        Some(f) => (false, Some("runtime error: "@ + fault_message(f))),
                        None => if !done {
                            (false, Some("timeout: exceeded "@ + decimal(limit as nat) + " instruction limit"@))
                        } else {
                            output_verdict(c, utf8_lossy(m.output))
                        },
                    }
                },
            },
        }
    }
}

/// The outcome of one test case.
pub struct CaseOutcome {
    pub name: String,
    pub passed: bool,
    pub detail: Option<String>,
    /// Whether the program ran out of instructions.
    pub timed_out: bool,
}

/// Whether a test case's program runs out of instructions.
pub open spec fn case_timed_out(c: TestCase, expanded: Result<Seq<char>, Fail>) -> bool {
    !conflicts(c) && match expanded {
        Err(_) => false,
        Ok(src) => match parse_source(src) {
            Err(_) => false,
            Ok(ops) => {
                let limit: u64 = match c.timeout {
                    Some(t) => t,
                    None => DEFAULT_INSTRUCTION_LIMIT,
                };
                let (m, fault, done) = run_limit_spec(
                    fresh_machine(ops, vstd::utf8::encode_utf8(c.input@), DEFAULT_TAPE_SIZE as nat),
                    limit as nat,
                );
                fault is None && !done
            },
        },
    }
}

/// The value of an optional text.
pub open spec fn opt_text(o: Option<String>) -> Option<Seq<char>> {
    match o {
        Some(s) => Some(s@),
        None => None,
    }
}

/// Whether a test case asks for both an exact output and a pattern (then its
/// program need not be read).
pub fn conflicting(case: &TestCase) -> (b: bool)
    ensures
        b == conflicts(*case),
{
    case.output_regex.is_some() && case.output.as_str().unicode_len() > 0
}

fn text_with(prefix: &str, rest: &str) -> (r: String)
    ensures
        r@ == prefix@ + rest@,
{
    let mut v: Vec<char> = Vec::new();
    push_str(&mut v, prefix);
    push_str(&mut v, rest);
    chars_to_string(&v)
}

fn same_text(a: &str, b: &str) -> (r: bool)
    ensures
        r == (a@ == b@),
{
    let av = str_to_chars(a);
    let bv = str_to_chars(b);
    if av.len() != bv.len() {
        return false;
    }
    let mut k: usize = 0;
    while k < av.len()
        invariant
            av@ == a@,
            bv@ == b@,
            av@.len() == bv@.len(),
            k <= av@.len(),
            forall|j: int| 0 <= j < k ==> av@[j] == bv@[j],
        decreases av@.len() - k,
    {
        if av[k] != bv[k] {
            return false;
        }
        k += 1;
    }
    assert(av@ =~= bv@);
    true
}

fn judge_output(case: &TestCase, actual: &str) -> (r: (bool, Option<String>))
    ensures
        (r.0, opt_text(r.1)) == output_verdict(*case, actual@),
{
    match &case.output_regex {
        Some(re) => match regex_match(re.as_str(), actual) {
            Err(msg) => {
                let mut v: Vec<char> = Vec::new();
                push_str(&mut v, "invalid regex '");
                push_str(&mut v, re.as_str());
                push_str(&mut v, "': ");
                push_str(&mut v, msg.as_str());
                (false, Some(chars_to_string(&v)))
            },
            Ok(true) => (true, None),
            Ok(false) => {
                let d = debug_string(actual);
                let mut v: Vec<char> = Vec::new();
                push_str(&mut v, "output ");
                push_str(&mut v, d.as_str());
                push_str(&mut v, " does not match regex /");
                push_str(&mut v, re.as_str());
                push_str(&mut v, "/");
                (false, Some(chars_to_string(&v)))
            },
        },
        None => {
            if same_text(actual, case.output.as_str()) {
                (true, None)
            } else {
                let de = debug_string(case.output.as_str());
                let da = debug_string(actual);
                let mut v: Vec<char> = Vec::new();
                push_str(&mut v, "expected: ");
                push_str(&mut v, de.as_str());
                push_str(&mut v, "\n      actual:   ");
                push_str(&mut v, da.as_str());
                (false, Some(chars_to_string(&v)))
            }
        },
    }
}

/// Judge a test case given its program after preprocessing (or the
/// preprocessing error).
pub fn judge_case(case: &TestCase, expanded: Result<String, OgreError>) -> (r: CaseOutcome)
    ensures
        r.name@ == case.name@,
        (r.passed, opt_text(r.detail)) == case_verdict(
            *case,
            match expanded {
                Ok(s) => Ok(s@),
                Err(e) => Err(e@),
            },
        ),
        r.timed_out == case_timed_out(
            *case,
            match expanded {
                Ok(s) => Ok(s@),
                Err(e) => Err(e@),
            },
        ),
{
    let name = String::from_str(case.name.as_str());
    if conflicting(case) {
        return CaseOutcome {
            name,
            passed: false,
            detail: Some(String::from_str("test case specifies both 'output' and 'output_regex' — use only one")),
            timed_out: false,
        };
    }
    let src = match expanded {
        Err(e) => {
            let m = e.message();
            return CaseOutcome { name, passed: false, detail: Some(text_with("preprocess error: ", m.as_str())), timed_out: false };
        },
        Ok(s) => s,
    };
    let limit: u64 = match case.timeout {
        Some(t) => t,
        None => DEFAULT_INSTRUCTION_LIMIT,
    };
    let mut interp = match Interpreter::with_input(src.as_str(), case.input.as_str()) {
        Err(e) => {
            let m = e.message();
            return CaseOutcome { name, passed: false, detail: Some(text_with("parse error: ", m.as_str())), timed_out: false };
        },
        Ok(it) => it,
    };
    match interp.run_with_limit(limit) {
        Err(e) => {
            let m = e.message();
            CaseOutcome { name, passed: false, detail: Some(text_with("runtime error: ", m.as_str())), timed_out: false }
        },
        Ok(false) => {
            let mut v: Vec<char> = Vec::new();
            push_str(&mut v, "timeout: exceeded ");
            push_u64(&mut v, limit);
            push_str(&mut v, " instruction limit");
            CaseOutcome { name, passed: false, detail: Some(chars_to_string(&v)), timed_out: true }
        },
        Ok(true) => {
            let actual = interp.output_as_string();
            let (passed, detail) = judge_output(case, actual.as_str());
            CaseOutcome { name, passed, detail, timed_out: false }
        },
    }
}

/// The test cases whose name contains `f`, in order.
pub open spec fn named_with(cases: Seq<TestCase>, f: Seq<char>) -> Seq<TestCase>
    decreases cases.len(),
{
    if cases.len() == 0 {
        seq![]
    } else {
        let r = named_with(cases.drop_last(), f);
        if seq_contains(cases.last().name@, f) { r.push(cases.last()) } else { r }
    }
}

/// The test cases a filter selects: all of them when there is none.
pub open spec fn selected(cases: Seq<TestCase>, filter: Option<Seq<char>>) -> Seq<TestCase> {
    match filter {
        None => cases,
        Some(f) => named_with(cases, f),
    }
}

/// Keep the test cases whose name contains the filter.
pub fn select_cases(cases: Vec<TestCase>, filter: &Option<String>) -> (r: Vec<TestCase>)
    ensures
        r@ == selected(cases@, opt_text(*filter)),
{
    match filter {
        None => cases,
        Some(f) => {
            let fv = str_to_chars(f.as_str());
            let mut rest = cases;
            let ghost all = rest@;
            let mut kept: Vec<TestCase> = Vec::new();
            let ghost mut k: int = 0;
            while rest.len() > 0
                invariant
                    fv@ == f@,
                    0 <= k <= all.len(),
                    rest@ == all.skip(k),
                    kept@ == named_with(all.take(k), f@),
                decreases rest@.len(),
            {
                let c = rest.remove(0);
                proof {
                    assert(all.take(k + 1).drop_last() =~= all.take(k));
                    assert(all.take(k + 1).last() == c);
                    assert(rest@ =~= all.skip(k + 1));
                }
                let name_chars = str_to_chars(c.name.as_str());
                if contains_seq(&name_chars, &fv) {
                    kept.push(c);
                }
                proof {
                    k = k + 1;
                }
            }
            assert(all.take(k) =~= all);
            kept
        },
    }
}

/// `s` with the characters XML gives a meaning escaped.
pub open spec fn xml_escaped(s: Seq<char>) -> Seq<char>
    decreases s.len(),
{
    if s.len() == 0 {
        seq![]
    } else {
        let c = s.last();
        xml_escaped(s.drop_last()) + if c == '&' {
            "&amp;"@
        } else if c == '<' {
            "&lt;"@
        } else if c == '>' {
            "&gt;"@
        } else if c == '"' {
            "&quot;"@
        } else if c == '\'' {
            "&apos;"@
        } else {
            seq![c]
        }
    }
}

/// Escape a text for XML.
pub fn xml_escape(s: &str) -> (r: String)
    ensures
        r@ == xml_escaped(s@),
{
    let v = str_to_chars(s);
    let mut out: Vec<char> = Vec::new();
    let mut i: usize = 0;
    while i < v.len()
        invariant
            v@ == s@,
            i <= v@.len(),
            out@ == xml_escaped(v@.take(i as int)),
        decreases v@.len() - i,
    {
        assert(v@.take(i + 1).drop_last() =~= v@.take(i as int));
        let c = v[i];
        if c == '&' {
            push_str(&mut out, "&amp;");
        } else if c == '<' {
            push_str(&mut out, "&lt;");
        } else if c == '>' {
            push_str(&mut out, "&gt;");
        } else if c == '"' {
            push_str(&mut out, "&quot;");
        } else if c == '\'' {
            push_str(&mut out, "&apos;");
        } else {
            out.push(c);
        }
        i += 1;
    }
    assert(v@.take(v@.len() as int) =~= v@);
    chars_to_string(&out)
}

// ---------------------------------------------------------------------------
// The report of a test suite
// ---------------------------------------------------------------------------

/// The value of an outcome: name, whether it passed, why not, and whether it
/// ran out of instructions.
pub open spec fn outcome_of(o: CaseOutcome) -> (Seq<char>, bool, Option<Seq<char>>, bool) {
    (o.name@, o.passed, opt_text(o.detail), o.timed_out)
}

/// The mark of one case: a line when verbose, else a single character. A
/// run with options marks no timeouts and shows no marks when quiet.
pub open spec fn mark_pieces(o: (Seq<char>, bool, Option<Seq<char>>, bool), verbosity: Verbosity, with_opts: bool) -> Seq<
    (Seq<char>, Tone),
> {
    let (name, passed, _, timed_out) = o;
    if verbosity == Verbosity::Verbose {
        let label = if passed {
            ("PASS"@, Tone::GreenBold)
        } else if timed_out && !with_opts {
            ("TIMEOUT"@, Tone::YellowBold)
        } else {
            ("FAIL"@, Tone::RedBold)
        };
        seq![plain("  "@), label, plain(" "@ + name + "\n"@)]
    } else if with_opts && verbosity == Verbosity::Quiet {
        seq![]
    } else {
        seq![
            if passed {
                ("."@, Tone::Green)
            } else if timed_out && !with_opts {
                ("T"@, Tone::Yellow)
            } else {
                ("F"@, Tone::Red)
            },
        ]
    }
}

/// The marks of the first `n` cases.
pub open spec fn marks(os: Seq<(Seq<char>, bool, Option<Seq<char>>, bool)>, verbosity: Verbosity, with_opts: bool, n: int) -> Seq<
    (Seq<char>, Tone),
>
    decreases n,
{
    if n <= 0 || n > os.len() {
        seq![]
    } else {
        marks(os, verbosity, with_opts, n - 1) + mark_pieces(os[n - 1], verbosity, with_opts)
    }
}

/// The failure details of the first `n` cases.
pub open spec fn failure_lines(os: Seq<(Seq<char>, bool, Option<Seq<char>>, bool)>, n: int) -> Seq<(Seq<char>, Tone)>
    decreases n,
{
    if n <= 0 || n > os.len() {
        seq![]
    } else {
        let (name, passed, detail, _) = os[n - 1];
        failure_lines(os, n - 1) + if !passed && detail is Some {
            seq![plain("  "@), ("FAIL"@, Tone::RedBold), plain(" "@ + name + "\n"@), plain("      "@ + detail->Some_0 + "\n"@)]
        } else {
            seq![]
        }
    }
}

/// How many of the first `n` cases passed.
pub open spec fn passed_count(os: Seq<(Seq<char>, bool, Option<Seq<char>>, bool)>, n: int) -> nat
    decreases n,
{
    if n <= 0 || n > os.len() {
        0
    } else {
        passed_count(os, n - 1) + if os[n - 1].1 { 1nat } else { 0nat }
    }
}

/// What a suite's run shows: its heading, a mark per case, the details of
/// the failures, and how many passed.
pub open spec fn suite_report_pieces(
    section: Option<Seq<char>>,
    os: Seq<(Seq<char>, bool, Option<Seq<char>>, bool)>,
    verbosity: Verbosity,
    with_opts: bool,
) -> Seq<(Seq<char>, Tone)> {
    let quiet = verbosity == Verbosity::Quiet;
    let verbose = verbosity == Verbosity::Verbose;
    let n = os.len() as int;
    let passed = passed_count(os, n);
    let fails = failure_lines(os, n);
    (match section {
        Some(name) => if !quiet { seq![plain("=== "@ + name + " ===\n"@)] } else { seq![] },
        None => seq![],
    }) + marks(os, verbosity, with_opts, n) + (if !quiet && !verbose { seq![plain("\n"@)] } else { seq![] }) + (if fails.len()
        > 0 {
        seq![plain("\n"@), ("Failures:"@, Tone::RedBold), plain("\n"@)] + fails + seq![plain("\n"@)]
    } else {
        seq![]
    }) + (if !quiet {
        seq![(decimal(passed), if passed < os.len() { Tone::Red } else { Tone::Green }), plain("/"@ + decimal(os.len()) + " tests passed\n"@)]
    } else {
        seq![]
    })
}

/// A suite's report and counts.
pub struct SuiteReport {
    pub pieces: Vec<(String, Tone)>,
    pub passed: usize,
    pub failed: usize,
}

fn push_marks(con: &mut Console, outcomes: &Vec<CaseOutcome>, verbosity: Verbosity, with_opts: bool) -> (passed: usize)
    ensures
        ({
            let os = outcomes@.map_values(|o: CaseOutcome| outcome_of(o));
            &&& final(con)@ == old(con)@ + marks(os, verbosity, with_opts, os.len() as int)
            &&& passed == passed_count(os, os.len() as int)
            &&& passed <= os.len()
        }),
{
    let ghost os = outcomes@.map_values(|o: CaseOutcome| outcome_of(o));
    let quiet = verbosity.is_quiet();
    let verbose = verbosity.is_verbose();
    let ghost base = con@;
    let mut passed: usize = 0;
    let mut k: usize = 0;
    while k < outcomes.len()
        invariant
            os == outcomes@.map_values(|o: CaseOutcome| outcome_of(o)),
            quiet == (verbosity == Verbosity::Quiet),
            verbose == (verbosity == Verbosity::Verbose),
            k <= outcomes@.len(),
            passed == passed_count(os, k as int),
            passed <= k,
            con@ == base + marks(os, verbosity, with_opts, k as int),
        decreases outcomes@.len() - k,
    {
        let o = &outcomes[k];
        assert(os[k as int] == outcome_of(*o));
        let ghost before = con@;
        if verbose {
            con.text("  ");
            if o.passed {
                con.put(String::from_str("PASS"), Tone::GreenBold);
            } else if o.timed_out && !with_opts {
                con.put(String::from_str("TIMEOUT"), Tone::YellowBold);
            } else {
                con.put(String::from_str("FAIL"), Tone::RedBold);
            }
            let mut t: Vec<char> = Vec::new();
            push_str(&mut t, " ");
            push_str(&mut t, o.name.as_str());
            push_str(&mut t, "\n");
            con.put(chars_to_string(&t), Tone::Plain);
        } else if with_opts && quiet {
        } else if o.passed {
            con.put(String::from_str("."), Tone::Green);
        } else if o.timed_out && !with_opts {
            con.put(String::from_str("T"), Tone::Yellow);
        } else {
            con.put(String::from_str("F"), Tone::Red);
        }
        assert(con@ =~= before + mark_pieces(os[k as int], verbosity, with_opts));
        if o.passed {
            passed += 1;
        }
        k += 1;
    }
    passed
}

fn failure_console(outcomes: &Vec<CaseOutcome>) -> (fails: Console)
    ensures
        fails@ == failure_lines(outcomes@.map_values(|o: CaseOutcome| outcome_of(o)), outcomes@.len() as int),
{
    let ghost os = outcomes@.map_values(|o: CaseOutcome| outcome_of(o));
    let mut fails = Console::new();
    let mut k: usize = 0;
    while k < outcomes.len()
        invariant
            os == outcomes@.map_values(|o: CaseOutcome| outcome_of(o)),
            k <= outcomes@.len(),
            fails@ == failure_lines(os, k as int),
        decreases outcomes@.len() - k,
    {
        let o = &outcomes[k];
        assert(os[k as int] == outcome_of(*o));
        let ghost before = fails@;
        if !o.passed {
            match &o.detail {
                Some(d) => {
                    fails.text("  ");
                    fails.put(String::from_str("FAIL"), Tone::RedBold);
                    let mut t: Vec<char> = Vec::new();
                    push_str(&mut t, " ");
                    push_str(&mut t, o.name.as_str());
                    push_str(&mut t, "\n");
                    fails.put(chars_to_string(&t), Tone::Plain);
                    let mut t: Vec<char> = Vec::new();
                    push_str(&mut t, "      ");
                    push_str(&mut t, d.as_str());
                    push_str(&mut t, "\n");
                    fails.put(chars_to_string(&t), Tone::Plain);
                },
                None => {},
            }
        }
        assert(fails@ =~= failure_lines(os, k + 1));
        k += 1;
    }
    fails
}

/// Report on a suite's outcomes: see `suite_report_pieces`.
#[verifier::rlimit(50)]
pub fn suite_report(section: Option<&str>, outcomes: &Vec<CaseOutcome>, verbosity: Verbosity, with_opts: bool) -> (r: SuiteReport)
    ensures
        ({
            let os = outcomes@.map_values(|o: CaseOutcome| outcome_of(o));
            &&& pieces_view(r.pieces@) == suite_report_pieces(
                match section {
                    Some(s) => Some(s@),
                    None => None,
                },
                os,
                verbosity,
                with_opts,
            )
            &&& r.passed == passed_count(os, os.len() as int)
            &&& r.passed + r.failed == os.len()
        }),
{
    let ghost os = outcomes@.map_values(|o: CaseOutcome| outcome_of(o));
    let quiet = verbosity.is_quiet();
    let verbose = verbosity.is_verbose();
    let mut con = Console::new();
    match section {
        Some(name) => {
            if !quiet {
                let mut t: Vec<char> = Vec::new();
                push_str(&mut t, "=== ");
                push_str(&mut t, name);
                push_str(&mut t, " ===\n");
                con.put(chars_to_string(&t), Tone::Plain);
            }
        },
        None => {},
    }
    let passed = push_marks(&mut con, outcomes, verbosity, with_opts);
    if !quiet && !verbose {
        con.text("\n");
    }
    let fails = failure_console(outcomes);
    let ghost fl = fails@;
    let ghost mid = con@;
    if fails.pieces.len() > 0 {
        con.text("\n");
        con.put(String::from_str("Failures:"), Tone::RedBold);
        con.text("\n");
        con.append(fails);
        con.text("\n");
        assert(con@ =~= mid + (seq![plain("\n"@), ("Failures:"@, Tone::RedBold), plain("\n"@)] + fl + seq![plain("\n"@)]));
    }
    let ghost mid2 = con@;
    if !quiet {
        let mut t: Vec<char> = Vec::new();
        push_usize(&mut t, passed);
        if passed < outcomes.len() {
            con.put(chars_to_string(&t), Tone::Red);
        } else {
            con.put(chars_to_string(&t), Tone::Green);
        }
        let mut t: Vec<char> = Vec::new();
        push_str(&mut t, "/");
        push_usize(&mut t, outcomes.len());
        push_str(&mut t, " tests passed\n");
        con.put(chars_to_string(&t), Tone::Plain);
    }
    assert(con@ =~= suite_report_pieces(
        match section {
            Some(s) => Some(s@),
            None => None,
        },
        os,
        verbosity,
        with_opts,
    ));
    SuiteReport { pieces: con.pieces, passed, failed: outcomes.len() - passed }
}

} // verus!

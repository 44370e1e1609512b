use vstd::prelude::*;

use super::preprocess::{
    contains_seq, line_end, lemma_line_end, occurs_at, seq_contains, seq_starts_with, sub_chars, trim, trim_end_at,
    trim_start_at, trimmed,
};
use crate::paint::{paint_green, paint_red, paint_yellow, painted};
use crate::text::{
    bf_char, chars_to_string, char_is_whitespace, decimal, is_bf_char, is_white, push_chars, push_isize,
    push_str, push_usize, signed_decimal, str_to_chars,
};

verus! {

/// How serious a lint finding is.
#[derive(Clone, Copy, Debug, PartialEq, Eq, Structural)]
pub enum Severity {
    Warning,
    Error,
}

/// The name under which a severity is shown.
pub open spec fn severity_text(s: Severity) -> Seq<char> {
    match s {
        Severity::Warning => "warning"@,
        Severity::Error => "error"@,
    }
}

impl Severity {
    /// The name under which this severity is shown (`warning` or `error`).
    pub fn to_string(&self) -> (s: String)
        ensures
            s@ == severity_text(*self),
    {
        match self {
            Severity::Warning => String::from_str("warning"),
            Severity::Error => String::from_str("error"),
        }
    }
}

/// A lint finding with its rule, description and location.
#[derive(Clone, Debug)]
pub struct LintWarning {
    pub rule: String,
    pub message: String,
    pub line: Option<usize>,
    pub severity: Severity,
}

/// The value of a [`LintWarning`].
pub struct WarnView {
    pub rule: Seq<char>,
    pub message: Seq<char>,
    pub line: Option<nat>,
    pub severity: Severity,
}

impl View for LintWarning {
    type V = WarnView;

    open spec fn view(&self) -> WarnView {
        WarnView {
            rule: self.rule@,
            message: self.message@,
            line: match self.line {
                Some(l) => Some(l as nat),
                None => None,
            },
            severity: self.severity,
        }
    }
}

/// The values of a list of warnings.
pub open spec fn warns_view(v: Seq<LintWarning>) -> Seq<WarnView> {
    v.map_values(|w: LintWarning| w@)
}

/// A finding of severity `Warning`.
pub open spec fn warn(rule: Seq<char>, message: Seq<char>, line: Option<nat>) -> WarnView {
    WarnView { rule, message, line, severity: Severity::Warning }
}

proof fn lemma_warns_push(v: Seq<LintWarning>, w: LintWarning)
    ensures
        warns_view(v.push(w)) == warns_view(v).push(w@),
{
    assert(warns_view(v.push(w)) =~= warns_view(v).push(w@));
}

fn add_warning(warnings: &mut Vec<LintWarning>, rule: &str, message: String, line: Option<usize>)
    ensures
        warns_view(final(warnings)@) == warns_view(old(warnings)@).push(
            warn(
                rule@,
                message@,
                match line {
                    Some(l) => Some(l as nat),
                    None => None,
                },
            ),
        ),
{
    let w = LintWarning { rule: String::from_str(rule), message, line, severity: Severity::Warning };
    proof {
        lemma_warns_push(warnings@, w);
    }
    warnings.push(w);
}

// ---------------------------------------------------------------------------
// deep-nesting
// ---------------------------------------------------------------------------

/// Loop depth, line number and findings after reading `s`, for the rule that
/// flags loops nested deeper than five.
pub open spec fn nesting_scan(s: Seq<char>) -> (nat, nat, Seq<WarnView>)
    decreases s.len(),
{
    if s.len() == 0 {
        (0, 1, seq![])
    } else {
        let (d, l, w) = nesting_scan(s.drop_last());
        let c = s.last();
        if c == '\n' {
            (d, l + 1, w)
        } else if c == '[' {
            if d + 1 > 5 {
                (
                    d + 1,
                    l,
                    w.push(
                        warn(
                            "deep-nesting"@,
                            "loop nesting depth "@ + decimal(d + 1) + " exceeds maximum of 5"@,
                            Some(l),
                        ),
                    ),
                )
            } else {
                (d + 1, l, w)
            }
        } else if c == ']' {
            (if d > 0 { (d - 1) as nat } else { 0 }, l, w)
        } else {
            (d, l, w)
        }
    }
}

proof fn lemma_nesting_bounds(s: Seq<char>)
    ensures
        nesting_scan(s).0 <= s.len(),
        1 <= nesting_scan(s).1 <= s.len() + 1,
    decreases s.len(),
{
    if s.len() > 0 {
        lemma_nesting_bounds(s.drop_last());
    }
}

fn check_deep_nesting(src: &Vec<char>, warnings: &mut Vec<LintWarning>)
    requires
        src@.len() < usize::MAX,
    ensures
        warns_view(final(warnings)@) == warns_view(old(warnings)@) + nesting_scan(src@).2,
{
    let mut depth: usize = 0;
    let mut line: usize = 1;
    let mut i: usize = 0;
    while i < src.len()
        invariant
            i <= src@.len() < usize::MAX,
            nesting_scan(src@.take(i as int)).0 == depth as nat,
            nesting_scan(src@.take(i as int)).1 == line as nat,
            warns_view(warnings@) == warns_view(old(warnings)@) + nesting_scan(src@.take(i as int)).2,
        decreases src@.len() - i,
    {
        proof {
            lemma_nesting_bounds(src@.take(i as int));
            assert(src@.take(i + 1).drop_last() =~= src@.take(i as int));
        }
        let c = src[i];
        if c == '\n' {
            line += 1;
        } else if c == '[' {
            depth += 1;
            if depth > 5 {
                let mut m: Vec<char> = Vec::new();
                push_str(&mut m, "loop nesting depth ");
                push_usize(&mut m, depth);
                push_str(&mut m, " exceeds maximum of 5");
                let msg = chars_to_string(&m);
                add_warning(warnings, "deep-nesting", msg, Some(line));
            }
        } else if c == ']' {
            if depth > 0 {
                depth -= 1;
            }
        }
        i += 1;
        proof {
            assert(warns_view(warnings@) =~= warns_view(old(warnings)@) + nesting_scan(src@.take(i as int)).2);
        }
    }
    assert(src@.take(src@.len() as int) =~= src@);
}

// ---------------------------------------------------------------------------
// suspicious-pattern
// ---------------------------------------------------------------------------

/// Whether two neighbouring commands undo each other.
pub open spec fn undoing_pair(a: char, b: char) -> bool {
    (a == '>' && b == '<') || (a == '<' && b == '>') || (a == '+' && b == '-') || (a == '-' && b == '+')
}

/// Line number, the last command seen with its line, and findings after reading
/// `s`, for the rule that flags neighbouring commands (ignoring other characters)
/// that undo each other. A finding carries the line of its first command.
pub open spec fn pattern_scan(s: Seq<char>) -> (nat, Option<(char, nat)>, Seq<WarnView>)
    decreases s.len(),
{
    if s.len() == 0 {
        (1, None, seq![])
    } else {
        let (l, prev, w) = pattern_scan(s.drop_last());
        let c = s.last();
        if c == '\n' {
            (l + 1, prev, w)
        } else if is_bf_char(c) {
            match prev {
                Some((p, pl)) => if undoing_pair(p, c) {
                    (l, Some((c, l)), w.push(warn("suspicious-pattern"@, "adjacent "@ + seq![p, c] + " is a no-op"@, Some(pl))))
                } else {
                    (l, Some((c, l)), w)
                },
                None => (l, Some((c, l)), w),
            }
        } else {
            (l, prev, w)
        }
    }
}

proof fn lemma_pattern_bounds(s: Seq<char>)
    ensures
        1 <= pattern_scan(s).0 <= s.len() + 1,
        pattern_scan(s).1 matches Some((p, pl)) ==> pl <= pattern_scan(s).0,
    decreases s.len(),
{
    if s.len() > 0 {
        lemma_pattern_bounds(s.drop_last());
    }
}

fn check_suspicious_patterns(src: &Vec<char>, warnings: &mut Vec<LintWarning>)
    requires
        src@.len() < usize::MAX,
    ensures
        warns_view(final(warnings)@) == warns_view(old(warnings)@) + pattern_scan(src@).2,
{
    let mut line: usize = 1;
    let mut prev: Option<(char, usize)> = None;
    let mut i: usize = 0;
    while i < src.len()
        invariant
            i <= src@.len() < usize::MAX,
            pattern_scan(src@.take(i as int)).0 == line as nat,
            pattern_scan(src@.take(i as int)).1 == match prev {
                Some((p, pl)) => Some((p, pl as nat)),
                None => None,
            },
            warns_view(warnings@) == warns_view(old(warnings)@) + pattern_scan(src@.take(i as int)).2,
        decreases src@.len() - i,
    {
        proof {
            lemma_pattern_bounds(src@.take(i as int));
            assert(src@.take(i + 1).drop_last() =~= src@.take(i as int));
        }
        let c = src[i];
        if c == '\n' {
            line += 1;
        } else if bf_char(c) {
            match prev {
                Some((p, pl)) => {
                    if (p == '>' && c == '<') || (p == '<' && c == '>') || (p == '+' && c == '-') || (p == '-'
                        && c == '+') {
                        let mut m: Vec<char> = Vec::new();
                        push_str(&mut m, "adjacent ");
                        m.push(p);
                        m.push(c);
                        push_str(&mut m, " is a no-op");
                        proof {
                            assert(m@ =~= "adjacent "@ + seq![p, c] + " is a no-op"@);
                        }
                        let msg = chars_to_string(&m);
                        add_warning(warnings, "suspicious-pattern", msg, Some(pl));
                    }
                },
                None => {},
            }
            prev = Some((c, line));
        }
        i += 1;
        proof {
            assert(warns_view(warnings@) =~= warns_view(old(warnings)@) + pattern_scan(src@.take(i as int)).2);
        }
    }
    assert(src@.take(src@.len() as int) =~= src@);
}

// ---------------------------------------------------------------------------
// unbalanced-pointer
// ---------------------------------------------------------------------------

/// Loop depth and pointer offset outside loops after reading `s`.
pub open spec fn pointer_scan(s: Seq<char>) -> (nat, int)
    decreases s.len(),
{
    if s.len() == 0 {
        (0, 0)
    } else {
        let (d, o) = pointer_scan(s.drop_last());
        let c = s.last();
        if c == '[' {
            (d + 1, o)
        } else if c == ']' {
            (if d > 0 { (d - 1) as nat } else { 0 }, o)
        } else if c == '>' && d == 0 {
            (d, o + 1)
        } else if c == '<' && d == 0 {
            (d, o - 1)
        } else {
            (d, o)
        }
    }
}

/// The finding of the rule that flags a pointer that does not end where it
/// started (moves inside loops are not counted).
pub open spec fn pointer_warns(s: Seq<char>) -> Seq<WarnView> {
    let o = pointer_scan(s).1;
    if o != 0 {
        seq![
            warn(
                "unbalanced-pointer"@,
                "data pointer ends at offset "@ + signed_decimal(o) + " from start (outside loops)"@,
                None,
            ),
        ]
    } else {
        seq![]
    }
}

proof fn lemma_pointer_bounds(s: Seq<char>)
    ensures
        pointer_scan(s).0 <= s.len(),
        -s.len() <= pointer_scan(s).1 <= s.len(),
    decreases s.len(),
{
    if s.len() > 0 {
        lemma_pointer_bounds(s.drop_last());
    }
}

fn check_unbalanced_pointer(src: &Vec<char>, warnings: &mut Vec<LintWarning>)
    requires
        src@.len() <= isize::MAX,
    ensures
        warns_view(final(warnings)@) == warns_view(old(warnings)@) + pointer_warns(src@),
{
    let mut depth: usize = 0;
    let mut offset: isize = 0;
    let mut i: usize = 0;
    while i < src.len()
        invariant
            i <= src@.len() <= isize::MAX,
            pointer_scan(src@.take(i as int)).0 == depth as nat,
            pointer_scan(src@.take(i as int)).1 == offset as int,
        decreases src@.len() - i,
    {
        proof {
            lemma_pointer_bounds(src@.take(i as int));
            assert(src@.take(i + 1).drop_last() =~= src@.take(i as int));
        }
        let c = src[i];
        if c == '[' {
            depth += 1;
        } else if c == ']' {
            if depth > 0 {
                depth -= 1;
            }
        } else if c == '>' && depth == 0 {
            offset += 1;
        } else if c == '<' && depth == 0 {
            offset -= 1;
        }
        i += 1;
    }
    assert(src@.take(src@.len() as int) =~= src@);
    if offset != 0 {
        let mut m: Vec<char> = Vec::new();
        push_str(&mut m, "data pointer ends at offset ");
        push_isize(&mut m, offset);
        push_str(&mut m, " from start (outside loops)");
        let msg = chars_to_string(&m);
        add_warning(warnings, "unbalanced-pointer", msg, None);
        assert(warns_view(warnings@) =~= warns_view(old(warnings)@) + pointer_warns(src@));
    } else {
        assert(warns_view(warnings@) =~= warns_view(old(warnings)@) + pointer_warns(src@));
    }
}

// ---------------------------------------------------------------------------
// redundant-clear
// ---------------------------------------------------------------------------

/// The commands of `s`, other characters left out.
pub open spec fn bf_only(s: Seq<char>) -> Seq<char>
    decreases s.len(),
{
    if s.len() == 0 {
        seq![]
    } else if is_bf_char(s.last()) {
        bf_only(s.drop_last()).push(s.last())
    } else {
        bf_only(s.drop_last())
    }
}

/// The line of the first bracket of `s` (or one past the last line when there is none).
pub open spec fn bracket_line(s: Seq<char>) -> nat
    decreases s.len(),
{
    if s.len() == 0 || s[0] == '[' || s[0] == ']' {
        1
    } else if s[0] == '\n' {
        bracket_line(s.skip(1)) + 1
    } else {
        bracket_line(s.skip(1))
    }
}

/// The findings of the rule that flags a clear of a cell that is still zero,
/// and a clear right after another.
pub open spec fn clear_warns(s: Seq<char>) -> Seq<WarnView> {
    let b = bf_only(s);
    (if seq_starts_with(b, "[-]"@) || seq_starts_with(b, "[+]"@) {
        seq![warn("redundant-clear"@, "clear on cell that starts at zero"@, Some(bracket_line(s)))]
    } else {
        seq![]
    }) + (if seq_contains(b, "[-][-]"@) || seq_contains(b, "[+][+]"@) {
        seq![warn("redundant-clear"@, "consecutive clear operations; second clear is redundant"@, None)]
    } else {
        seq![]
    })
}

/// Whether `v` begins with `p`.
fn has_prefix(v: &Vec<char>, p: &str) -> (r: bool)
    ensures
        r == seq_starts_with(v@, p@),
{
    let pv = str_to_chars(p);
    if pv.len() > v.len() {
        return false;
    }
    let mut k: usize = 0;
    while k < pv.len()
        invariant
            pv@ == p@,
            pv@.len() <= v@.len(),
            k <= pv@.len(),
            forall|j: int| 0 <= j < k ==> v@[j] == pv@[j],
        decreases pv@.len() - k,
    {
        if v[k] != pv[k] {
            assert(v@.take(pv@.len() as int)[k as int] != pv@[k as int]);
            return false;
        }
        k += 1;
    }
    assert(v@.take(pv@.len() as int) =~= pv@);
    true
}

fn commands_of(src: &Vec<char>) -> (r: Vec<char>)
    ensures
        r@ == bf_only(src@),
{
    let mut r: Vec<char> = Vec::new();
    let mut i: usize = 0;
    while i < src.len()
        invariant
            i <= src@.len(),
            r@ == bf_only(src@.take(i as int)),
        decreases src@.len() - i,
    {
        assert(src@.take(i + 1).drop_last() =~= src@.take(i as int));
        if bf_char(src[i]) {
            r.push(src[i]);
        }
        i += 1;
    }
    assert(src@.take(src@.len() as int) =~= src@);
    r
}

fn first_bracket_line(src: &Vec<char>) -> (r: usize)
    requires
        src@.len() < usize::MAX,
    ensures
        r as nat == bracket_line(src@),
{
    let mut count: usize = 1;
    let mut i: usize = 0;
    assert(src@.skip(0) =~= src@);
    while i < src.len() && src[i] != '[' && src[i] != ']'
        invariant
            i <= src@.len() < usize::MAX,
            1 <= count <= i + 1,
            bracket_line(src@) == count - 1 + bracket_line(src@.skip(i as int)),
        decreases src@.len() - i,
    {
        assert(src@.skip(i as int).skip(1) =~= src@.skip(i + 1));
        if src[i] == '\n' {
            count += 1;
        }
        i += 1;
    }
    count
}

fn check_redundant_clear(src: &Vec<char>, warnings: &mut Vec<LintWarning>)
    requires
        src@.len() < usize::MAX,
    ensures
        warns_view(final(warnings)@) == warns_view(old(warnings)@) + clear_warns(src@),
{
    let b = commands_of(src);
    let ghost start = warns_view(warnings@);
    let first = has_prefix(&b, "[-]") || has_prefix(&b, "[+]");
    if first {
        let line = first_bracket_line(src);
        add_warning(warnings, "redundant-clear", String::from_str("clear on cell that starts at zero"), Some(line));
    }
    let ghost mid = warns_view(warnings@);
    let dm = str_to_chars("[-][-]");
    let dp = str_to_chars("[+][+]");
    let double = contains_seq(&b, &dm) || contains_seq(&b, &dp);
    if double {
        add_warning(
            warnings,
            "redundant-clear",
            String::from_str("consecutive clear operations; second clear is redundant"),
            None,
        );
    }
    assert(warns_view(warnings@) =~= start + clear_warns(src@));
}

// ---------------------------------------------------------------------------
// Rules that read the source line by line
// ---------------------------------------------------------------------------

/// Where the run of non-whitespace that starts at `i` ends.
pub open spec fn word_end(s: Seq<char>, i: int) -> int
    decreases s.len() - i,
{
    if 0 <= i < s.len() && !is_white(s[i]) { word_end(s, i + 1) } else { i }
}

/// The first whitespace-separated word of `s`, or `?` when it has none.
pub open spec fn first_word(s: Seq<char>) -> Seq<char> {
    let lo = trim_start_at(s, 0);
    let hi = word_end(s, lo);
    if lo < hi { s.subrange(lo, hi) } else { "?"@ }
}

/// The line that starts at position `p`, trimmed.
pub open spec fn line_text(s: Seq<char>, p: int) -> Seq<char> {
    trim(s.subrange(p, line_end(s, p)))
}

/// The findings of the rule that flags an `@fn` line whose previous non-blank
/// line does not start with `@doc`, over the lines from the one that starts at
/// `p`, which is line `n`; `doc` tells whether the last non-blank line before it
/// started with `@doc`.
pub open spec fn doc_warns_from(s: Seq<char>, p: int, n: nat, doc: bool) -> Seq<WarnView>
    decreases s.len() - p,
{
    if p < 0 || p > s.len() {
        seq![]
    } else {
        let e = line_end(s, p);
        let t = line_text(s, p);
        let here = if seq_starts_with(t, "@fn "@) && !doc {
            seq![warn("missing-doc"@, "function '"@ + first_word(t.skip(4)) + "' has no @doc comment"@, Some(n))]
        } else {
            seq![]
        };
        let nd = if t.len() == 0 { doc } else { seq_starts_with(t, "@doc"@) };
        if e < s.len() {
            proof {
                lemma_line_end(s, p);
            }
            here + doc_warns_from(s, e + 1, n + 1, nd)
        } else {
            here
        }
    }
}

/// The number of commands in the body of the function whose line starts at
/// the position the scan began from: the scan counts the commands after the
/// first `{`, and stops at the `}` that brings the brace depth back to zero,
/// or at the end of a line where the depth is zero after a `{` was seen.
pub open spec fn body_scan(s: Seq<char>, k: int, depth: int, in_body: bool, len: nat) -> nat
    decreases s.len() - k,
{
    if k < 0 || k >= s.len() {
        len
    } else {
        let c = s[k];
        if c == '\n' {
            if depth == 0 && in_body { len } else { body_scan(s, k + 1, depth, in_body, len) }
        } else if c == '{' {
            body_scan(s, k + 1, depth + 1, true, len)
        } else if c == '}' {
            if depth - 1 == 0 { len } else { body_scan(s, k + 1, depth - 1, in_body, len) }
        } else if in_body && is_bf_char(c) {
            body_scan(s, k + 1, depth, in_body, len + 1)
        } else {
            body_scan(s, k + 1, depth, in_body, len)
        }
    }
}

/// The findings of the rule that flags functions with more than 500 commands,
/// over the lines from the one that starts at `p`, which is line `n`.
pub open spec fn long_warns_from(s: Seq<char>, p: int, n: nat) -> Seq<WarnView>
    decreases s.len() - p,
{
    if p < 0 || p > s.len() {
        seq![]
    } else {
        let e = line_end(s, p);
        let t = line_text(s, p);
        let bl = body_scan(s, p, 0, false, 0);
        let here = if seq_starts_with(t, "@fn "@) && bl > 500 {
            seq![
                warn(
                    "long-function"@,
                    "function '"@ + first_word(t.skip(4)) + "' has "@ + decimal(bl) + " BF instructions (max 500)"@,
                    Some(n),
                ),
            ]
        } else {
            seq![]
        };
        if e < s.len() {
            proof {
                lemma_line_end(s, p);
            }
            here + long_warns_from(s, e + 1, n + 1)
        } else {
            here
        }
    }
}

/// Where the run of `"` that starts at `i` ends.
pub open spec fn quote_start(s: Seq<char>, i: int) -> int
    decreases s.len() - i,
{
    if 0 <= i < s.len() && s[i] == '"' { quote_start(s, i + 1) } else { i }
}

/// Where the run of `"` that ends at `hi` (not before `lo`) begins.
pub open spec fn quote_end(s: Seq<char>, lo: int, hi: int) -> int
    decreases hi - lo,
{
    if lo < hi && s[hi - 1] == '"' { quote_end(s, lo, hi - 1) } else { hi }
}

/// `s` without leading and trailing `"` (`trim_matches('"')`).
pub open spec fn strip_quotes(s: Seq<char>) -> Seq<char> {
    let lo = quote_start(s, 0);
    s.subrange(lo, quote_end(s, lo, s.len() as int))
}

/// The findings for every `@import` line with a non-empty path, from the line
/// that starts at `p`, which is line `n`.
pub open spec fn import_warns_from(s: Seq<char>, p: int, n: nat) -> Seq<WarnView>
    decreases s.len() - p,
{
    if p < 0 || p > s.len() {
        seq![]
    } else {
        let e = line_end(s, p);
        let t = line_text(s, p);
        let path = strip_quotes(trim(t.skip(8)));
        let here = if seq_starts_with(t, "@import "@) && path.len() > 0 {
            seq![warn("unused-import"@, "imported '"@ + path + "' but no @call directives found"@, Some(n))]
        } else {
            seq![]
        };
        if e < s.len() {
            proof {
                lemma_line_end(s, p);
            }
            here + import_warns_from(s, e + 1, n + 1)
        } else {
            here
        }
    }
}

/// The findings of the rule that flags imports in a source without any `@call`.
pub open spec fn import_warns(s: Seq<char>) -> Seq<WarnView> {
    if seq_contains(s, "@call "@) { seq![] } else { import_warns_from(s, 0, 1) }
}

fn line_end_at(src: &Vec<char>, p: usize) -> (e: usize)
    requires
        p <= src@.len(),
    ensures
        e == line_end(src@, p as int),
        p <= e <= src@.len(),
{
    let mut e = p;
    while e < src.len() && src[e] != '\n'
        invariant
            p <= e <= src@.len(),
            line_end(src@, p as int) == line_end(src@, e as int),
        decreases src@.len() - e,
    {
        e += 1;
    }
    e
}

fn line_text_at(src: &Vec<char>, p: usize) -> (r: (usize, Vec<char>))
    requires
        p <= src@.len(),
    ensures
        r.0 == line_end(src@, p as int),
        p <= r.0 <= src@.len(),
        r.1@ == line_text(src@, p as int),
{
    let e = line_end_at(src, p);
    let line = sub_chars(src, p, e);
    (e, trimmed(&line))
}

fn first_word_of(v: &Vec<char>) -> (r: Vec<char>)
    ensures
        r@ == first_word(v@),
{
    let mut lo: usize = 0;
    while lo < v.len() && char_is_whitespace(v[lo])
        invariant
            lo <= v@.len(),
            trim_start_at(v@, 0) == trim_start_at(v@, lo as int),
        decreases v@.len() - lo,
    {
        lo += 1;
    }
    let mut hi: usize = lo;
    while hi < v.len() && !char_is_whitespace(v[hi])
        invariant
            lo <= hi <= v@.len(),
            trim_start_at(v@, 0) == lo,
            word_end(v@, lo as int) == word_end(v@, hi as int),
        decreases v@.len() - hi,
    {
        hi += 1;
    }
    if lo < hi {
        sub_chars(v, lo, hi)
    } else {
        str_to_chars("?")
    }
}

/// The name of the function declared by a trimmed `@fn ` line.
fn fn_name_of(t: &Vec<char>) -> (r: Vec<char>)
    requires
        t@.len() >= 4,
    ensures
        r@ == first_word(t@.skip(4)),
{
    let rest = sub_chars(t, 4, t.len());
    assert(rest@ =~= t@.skip(4));
    first_word_of(&rest)
}

fn check_missing_doc(src: &Vec<char>, warnings: &mut Vec<LintWarning>)
    requires
        src@.len() < usize::MAX,
    ensures
        warns_view(final(warnings)@) == warns_view(old(warnings)@) + doc_warns_from(src@, 0, 1, false),
{
    let ghost start = warns_view(warnings@);
    let ghost total = doc_warns_from(src@, 0, 1, false);
    let mut p: usize = 0;
    let mut n: usize = 1;
    let mut doc = false;
    loop
        invariant_except_break
            p <= src@.len() < usize::MAX,
            n <= p + 1,
            warns_view(warnings@) + doc_warns_from(src@, p as int, n as nat, doc) == start + total,
        ensures
            warns_view(warnings@) == start + total,
        decreases src@.len() - p,
    {
        let ghost before = warns_view(warnings@);
        let (e, t) = line_text_at(src, p);
        let ghost here = if seq_starts_with(t@, "@fn "@) && !doc {
            seq![warn("missing-doc"@, "function '"@ + first_word(t@.skip(4)) + "' has no @doc comment"@, Some(n as nat))]
        } else {
            seq![]
        };
        if has_prefix(&t, "@fn ") && !doc {
            proof {
                reveal_strlit("@fn ");
            }
            let name = fn_name_of(&t);
            let mut m: Vec<char> = Vec::new();
            push_str(&mut m, "function '");
            push_chars(&mut m, &name);
            push_str(&mut m, "' has no @doc comment");
            let msg = chars_to_string(&m);
            add_warning(warnings, "missing-doc", msg, Some(n));
            assert(warns_view(warnings@) =~= before + here);
        } else {
            assert(warns_view(warnings@) =~= before + here);
        }
        if t.len() > 0 {
            doc = has_prefix(&t, "@doc");
        }
        if e < src.len() {
            proof {
                assert(before + (here + doc_warns_from(src@, e + 1, (n + 1) as nat, doc)) =~= (before + here)
                    + doc_warns_from(src@, e + 1, (n + 1) as nat, doc));
            }
            p = e + 1;
            n += 1;
        } else {
            break;
        }
    }
}

fn body_length(src: &Vec<char>, p: usize) -> (r: usize)
    requires
        p <= src@.len() <= isize::MAX,
    ensures
        r as nat == body_scan(src@, p as int, 0, false, 0),
{
    let mut k: usize = p;
    let mut depth: i64 = 0;
    let mut in_body = false;
    let mut len: usize = 0;
    while k < src.len()
        invariant
            p <= k <= src@.len() <= isize::MAX,
            len <= k - p,
            -(k - p) <= depth <= k - p,
            body_scan(src@, k as int, depth as int, in_body, len as nat) == body_scan(src@, p as int, 0, false, 0),
        decreases src@.len() - k,
    {
        let c = src[k];
        if c == '\n' {
            if depth == 0 && in_body {
                return len;
            }
        } else if c == '{' {
            depth += 1;
            in_body = true;
        } else if c == '}' {
            depth -= 1;
            if depth == 0 {
                return len;
            }
        } else if in_body && bf_char(c) {
            len += 1;
        }
        k += 1;
    }
    len
}

fn check_long_function(src: &Vec<char>, warnings: &mut Vec<LintWarning>)
    requires
        src@.len() < usize::MAX,
        src@.len() <= isize::MAX,
    ensures
        warns_view(final(warnings)@) == warns_view(old(warnings)@) + long_warns_from(src@, 0, 1),
{
    let ghost start = warns_view(warnings@);
    let ghost total = long_warns_from(src@, 0, 1);
    let mut p: usize = 0;
    let mut n: usize = 1;
    loop
        invariant_except_break
            p <= src@.len() < usize::MAX,
            src@.len() <= isize::MAX,
            n <= p + 1,
            warns_view(warnings@) + long_warns_from(src@, p as int, n as nat) == start + total,
        ensures
            warns_view(warnings@) == start + total,
        decreases src@.len() - p,
    {
        let ghost before = warns_view(warnings@);
        let (e, t) = line_text_at(src, p);
        let bl = body_length(src, p);
        let ghost here = if seq_starts_with(t@, "@fn "@) && bl > 500 {
            seq![
                warn(
                    "long-function"@,
                    "function '"@ + first_word(t@.skip(4)) + "' has "@ + decimal(bl as nat) + " BF instructions (max 500)"@,
                    Some(n as nat),
                ),
            ]
        } else {
            seq![]
        };
        if has_prefix(&t, "@fn ") && bl > 500 {
            proof {
                reveal_strlit("@fn ");
            }
            let name = fn_name_of(&t);
            let mut m: Vec<char> = Vec::new();
            push_str(&mut m, "function '");
            push_chars(&mut m, &name);
            push_str(&mut m, "' has ");
            push_usize(&mut m, bl);
            push_str(&mut m, " BF instructions (max 500)");
            let msg = chars_to_string(&m);
            add_warning(warnings, "long-function", msg, Some(n));
            assert(warns_view(warnings@) =~= before + here);
        } else {
            assert(warns_view(warnings@) =~= before + here);
        }
        if e < src.len() {
            proof {
                assert(before + (here + long_warns_from(src@, e + 1, (n + 1) as nat)) =~= (before + here)
                    + long_warns_from(src@, e + 1, (n + 1) as nat));
            }
            p = e + 1;
            n += 1;
        } else {
            break;
        }
    }
}

fn strip_quotes_of(v: &Vec<char>) -> (r: Vec<char>)
    ensures
        r@ == strip_quotes(v@),
{
    let mut lo: usize = 0;
    while lo < v.len() && v[lo] == '"'
        invariant
            lo <= v@.len(),
            quote_start(v@, 0) == quote_start(v@, lo as int),
        decreases v@.len() - lo,
    {
        lo += 1;
    }
    let mut hi: usize = v.len();
    while hi > lo && v[hi - 1] == '"'
        invariant
            lo <= hi <= v@.len(),
            quote_start(v@, 0) == lo,
            quote_end(v@, lo as int, v@.len() as int) == quote_end(v@, lo as int, hi as int),
        decreases hi,
    {
        hi -= 1;
    }
    sub_chars(v, lo, hi)
}

fn check_unused_import(src: &Vec<char>, warnings: &mut Vec<LintWarning>)
    requires
        src@.len() < usize::MAX,
    ensures
        warns_view(final(warnings)@) == warns_view(old(warnings)@) + import_warns(src@),
{
    let call = str_to_chars("@call ");
    if contains_seq(src, &call) {
        assert(warns_view(warnings@) =~= warns_view(old(warnings)@) + import_warns(src@));
        return;
    }
    let ghost start = warns_view(warnings@);
    let ghost total = import_warns_from(src@, 0, 1);
    let mut p: usize = 0;
    let mut n: usize = 1;
    loop
        invariant_except_break
            p <= src@.len() < usize::MAX,
            n <= p + 1,
            warns_view(warnings@) + import_warns_from(src@, p as int, n as nat) == start + total,
        ensures
            warns_view(warnings@) == start + total,
        decreases src@.len() - p,
    {
        let ghost before = warns_view(warnings@);
        let (e, t) = line_text_at(src, p);
        let is_import = has_prefix(&t, "@import ");
        let ghost path = strip_quotes(trim(t@.skip(8)));
        let ghost here = if seq_starts_with(t@, "@import "@) && path.len() > 0 {
            seq![warn("unused-import"@, "imported '"@ + path + "' but no @call directives found"@, Some(n as nat))]
        } else {
            seq![]
        };
        if is_import {
            proof {
                reveal_strlit("@import ");
            }
            let rest = sub_chars(&t, 8, t.len());
            assert(rest@ =~= t@.skip(8));
            let path_chars = strip_quotes_of(&trimmed(&rest));
            if path_chars.len() > 0 {
                let mut m: Vec<char> = Vec::new();
                push_str(&mut m, "imported '");
                push_chars(&mut m, &path_chars);
                push_str(&mut m, "' but no @call directives found");
                let msg = chars_to_string(&m);
                add_warning(warnings, "unused-import", msg, Some(n));
            }
            assert(warns_view(warnings@) =~= before + here);
        } else {
            assert(warns_view(warnings@) =~= before + here);
        }
        if e < src.len() {
            proof {
                assert(before + (here + import_warns_from(src@, e + 1, (n + 1) as nat)) =~= (before + here)
                    + import_warns_from(src@, e + 1, (n + 1) as nat));
            }
            p = e + 1;
            n += 1;
        } else {
            break;
        }
    }
    assert(warns_view(warnings@) =~= warns_view(old(warnings)@) + import_warns(src@));
}

// ---------------------------------------------------------------------------
// The linter
// ---------------------------------------------------------------------------

/// All findings for a source, rule by rule: deep nesting, neighbouring commands
/// that undo each other, redundant clears, an unbalanced pointer, functions
/// without `@doc`, functions longer than 500 commands, and unused imports.
pub open spec fn lint_spec(s: Seq<char>) -> Seq<WarnView> {
    nesting_scan(s).2 + pattern_scan(s).2 + clear_warns(s) + pointer_warns(s) + doc_warns_from(s, 0, 1, false)
        + long_warns_from(s, 0, 1) + import_warns(s)
}

/// Lint a source text.
pub fn lint_source(source: &str) -> (r: Vec<LintWarning>)
    requires
        source@.len() <= isize::MAX,
    ensures
        warns_view(r@) == lint_spec(source@),
{
    let src = str_to_chars(source);
    let mut warnings: Vec<LintWarning> = Vec::new();
    assert(warns_view(warnings@) =~= seq![]);
    check_deep_nesting(&src, &mut warnings);
    check_suspicious_patterns(&src, &mut warnings);
    check_redundant_clear(&src, &mut warnings);
    check_unbalanced_pointer(&src, &mut warnings);
    check_missing_doc(&src, &mut warnings);
    check_long_function(&src, &mut warnings);
    check_unused_import(&src, &mut warnings);
    assert(warns_view(warnings@) =~= lint_spec(source@));
    warnings
}

/// Whether some finding of `ws` has the rule and the message of `w`.
pub open spec fn has_same(ws: Seq<WarnView>, w: WarnView) -> bool {
    exists|i: int| 0 <= i < ws.len() && ws[i].rule == w.rule && ws[i].message == w.message
}

/// `base` followed by those findings of `extra` whose rule and message are not
/// already there, in order.
pub open spec fn merge_spec(base: Seq<WarnView>, extra: Seq<WarnView>) -> Seq<WarnView>
    decreases extra.len(),
{
    if extra.len() == 0 {
        base
    } else {
        let m = merge_spec(base, extra.drop_last());
        if has_same(m, extra.last()) { m } else { m.push(extra.last()) }
    }
}

fn find_same(ws: &Vec<LintWarning>, w: &LintWarning) -> (r: bool)
    ensures
        r == has_same(warns_view(ws@), w@),
{
    let mut i: usize = 0;
    while i < ws.len()
        invariant
            i <= ws@.len(),
            forall|j: int|
                0 <= j < i ==> !(#[trigger] warns_view(ws@)[j].rule == w@.rule && warns_view(ws@)[j].message
                    == w@.message),
        decreases ws@.len() - i,
    {
        if ws[i].rule == w.rule && ws[i].message == w.message {
            assert(warns_view(ws@)[i as int].rule == w@.rule && warns_view(ws@)[i as int].message == w@.message);
            return true;
        }
        i += 1;
    }
    false
}

/// Add the findings of `extra` (from the preprocessed text) whose rule and
/// message are not yet among `warnings`.
pub fn merge_warnings(warnings: &mut Vec<LintWarning>, extra: Vec<LintWarning>)
    ensures
        warns_view(final(warnings)@) == merge_spec(warns_view(old(warnings)@), warns_view(extra@)),
{
    let mut i: usize = 0;
    while i < extra.len()
        invariant
            i <= extra@.len(),
            warns_view(warnings@) == merge_spec(warns_view(old(warnings)@), warns_view(extra@.take(i as int))),
        decreases extra@.len() - i,
    {
        assert(warns_view(extra@.take(i + 1)).drop_last() =~= warns_view(extra@.take(i as int)));
        let w = &extra[i];
        if !find_same(warnings, w) {
            let copy = LintWarning {
                rule: w.rule.clone(),
                message: w.message.clone(),
                line: w.line,
                severity: w.severity,
            };
            proof {
                lemma_warns_push(warnings@, copy);
            }
            warnings.push(copy);
        }
        i += 1;
    }
    assert(extra@.take(extra@.len() as int) =~= extra@);
}

// ---------------------------------------------------------------------------
// Report
// ---------------------------------------------------------------------------

/// The report line of one finding; `warning` and `error` are the severity
/// words as shown.
pub open spec fn finding_line(path: Seq<char>, w: WarnView, warning: Seq<char>, error: Seq<char>) -> Seq<char> {
    (match w.line {
        Some(l) => path + ":"@ + decimal(l),
        None => path,
    }) + ": "@ + (match w.severity {
        Severity::Warning => warning,
        Severity::Error => error,
    }) + " ["@ + w.rule + "] "@ + w.message + "\n"@
}

/// The report lines of all findings.
pub open spec fn finding_lines(path: Seq<char>, ws: Seq<WarnView>, warning: Seq<char>, error: Seq<char>) -> Seq<char>
    decreases ws.len(),
{
    if ws.len() == 0 {
        seq![]
    } else {
        finding_lines(path, ws.drop_last(), warning, error) + finding_line(path, ws.last(), warning, error)
    }
}

/// The lint report for a file; `clean`, `warning` and `error` are the words
/// `no lint warnings`, `warning` and `error` as shown.
pub open spec fn report_spec(
    path: Seq<char>,
    ws: Seq<WarnView>,
    clean: Seq<char>,
    warning: Seq<char>,
    error: Seq<char>,
) -> Seq<char> {
    if ws.len() == 0 {
        path + ": "@ + clean + "\n"@
    } else {
        finding_lines(path, ws, warning, error) + "\n"@ + decimal(ws.len()) + " warning(s) in "@ + path + "\n"@
    }
}

/// The lint report for `path`, with the three words given as they are to be shown.
pub fn format_warnings_with(
    path: &str,
    warnings: &[LintWarning],
    clean: &str,
    warning: &str,
    error: &str,
) -> (r: String)
    ensures
        r@ == report_spec(path@, warns_view(warnings@), clean@, warning@, error@),
{
    let mut out: Vec<char> = Vec::new();
    if warnings.len() == 0 {
        push_str(&mut out, path);
        push_str(&mut out, ": ");
        push_str(&mut out, clean);
        push_str(&mut out, "\n");
        assert(out@ =~= report_spec(path@, warns_view(warnings@), clean@, warning@, error@));
        return chars_to_string(&out);
    }
    let mut i: usize = 0;
    while i < warnings.len()
        invariant
            i <= warnings@.len(),
            out@ == finding_lines(path@, warns_view(warnings@.take(i as int)), warning@, error@),
        decreases warnings@.len() - i,
    {
        assert(warns_view(warnings@.take(i + 1)).drop_last() =~= warns_view(warnings@.take(i as int)));
        let ghost before = out@;
        let w = &warnings[i];
        push_str(&mut out, path);
        match w.line {
            Some(l) => {
                push_str(&mut out, ":");
                push_usize(&mut out, l);
            },
            None => {},
        }
        push_str(&mut out, ": ");
        match w.severity {
            Severity::Warning => push_str(&mut out, warning),
            Severity::Error => push_str(&mut out, error),
        }
        push_str(&mut out, " [");
        push_str(&mut out, w.rule.as_str());
        push_str(&mut out, "] ");
        push_str(&mut out, w.message.as_str());
        push_str(&mut out, "\n");
        assert(out@ =~= before + finding_line(path@, w@, warning@, error@));
        i += 1;
    }
    assert(warnings@.take(warnings@.len() as int) =~= warnings@);
    let ghost lines = out@;
    push_str(&mut out, "\n");
    push_usize(&mut out, warnings.len());
    push_str(&mut out, " warning(s) in ");
    push_str(&mut out, path);
    push_str(&mut out, "\n");
    assert(out@ =~= report_spec(path@, warns_view(warnings@), clean@, warning@, error@));
    chars_to_string(&out)
}

/// The lint report for `path`, with the severity words in colour where the
/// terminal takes it.
pub fn format_warnings(path: &str, warnings: &[LintWarning]) -> (r: String)
    ensures
        exists|clean: Seq<char>, warning: Seq<char>, error: Seq<char>|
            painted("no lint warnings"@, "32"@, clean) && painted("warning"@, "33"@, warning) && painted(
                "error"@,
                "31"@,
                error,
            ) && r@ == report_spec(path@, warns_view(warnings@), clean, warning, error),
{
    let clean = paint_green("no lint warnings");
    let warning = paint_yellow("warning");
    let error = paint_red("error");
    format_warnings_with(path, warnings, clean.as_str(), warning.as_str(), error.as_str())
}

} // verus!

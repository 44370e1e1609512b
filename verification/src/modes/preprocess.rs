use vstd::prelude::*;

use super::directive_parser::{
    brace_close, expected_quote_message, found_debug, ident_end, lemma_brace_close,
    lemma_ident_end, lemma_quote_close, lemma_spaces_end, lemma_ws_end, push_found_debug,
    quote_close, skip_spaces, skip_whitespace, spaces_end, take_brace_body, take_identifier,
    take_quoted_string, ws_end,
};
use super::source_map::{Loc, SourceLocation, SourceMap, lemma_line_col_bounds, line_col, locs_view};
use super::stdlib::{
    STDLIB_ASCII, STDLIB_CLI, STDLIB_CONVERT, STDLIB_DEBUG, STDLIB_IO, STDLIB_LOGIC, STDLIB_MATH, STDLIB_MEMORY,
    STDLIB_STRING,
};
use crate::error::{Fail, OgreError, error_message, text_result};
use crate::text::{chars_to_string, is_white, push_chars, push_str, str_to_chars, unicode_alphabetic};

verus! {

// ---------------------------------------------------------------------------
// Text helpers
// ---------------------------------------------------------------------------

/// Whether `s` begins with `p`.
pub open spec fn seq_starts_with(s: Seq<char>, p: Seq<char>) -> bool {
    s.len() >= p.len() && s.take(p.len() as int) == p
}

/// Whether `s` ends with `p`.
pub open spec fn seq_ends_with(s: Seq<char>, p: Seq<char>) -> bool {
    s.len() >= p.len() && s.skip(s.len() - p.len()) == p
}

/// Whether `p` occurs in `s` at position `k`.
pub open spec fn occurs_at(s: Seq<char>, p: Seq<char>, k: int) -> bool {
    0 <= k && k + p.len() <= s.len() && s.subrange(k, k + p.len()) == p
}

/// Whether `p` occurs in `s`.
pub open spec fn seq_contains(s: Seq<char>, p: Seq<char>) -> bool {
    exists|k: int| occurs_at(s, p, k)
}

/// The parts joined with `sep` between them.
pub open spec fn join(parts: Seq<Seq<char>>, sep: Seq<char>) -> Seq<char>
    decreases parts.len(),
{
    if parts.len() == 0 {
        Seq::empty()
    } else if parts.len() == 1 {
        parts[0]
    } else {
        join(parts.drop_last(), sep) + sep + parts.last()
    }
}

/// Where the leading whitespace of `s` ends.
pub open spec fn trim_start_at(s: Seq<char>, i: int) -> int
    decreases s.len() - i,
{
    if 0 <= i < s.len() && is_white(s[i]) { trim_start_at(s, i + 1) } else { i }
}

/// Where the trailing whitespace of `s[lo..hi]` begins.
pub open spec fn trim_end_at(s: Seq<char>, lo: int, hi: int) -> int
    decreases hi - lo,
{
    if lo < hi && is_white(s[hi - 1]) { trim_end_at(s, lo, hi - 1) } else { hi }
}

/// `s` without leading and trailing whitespace (`str::trim`).
pub open spec fn trim(s: Seq<char>) -> Seq<char> {
    let lo = trim_start_at(s, 0);
    s.subrange(lo, trim_end_at(s, lo, s.len() as int))
}

/// The first newline at or after `i`, or the end of `s`.
pub open spec fn line_end(s: Seq<char>, i: int) -> int
    decreases s.len() - i,
{
    if 0 <= i < s.len() && s[i] != '\n' { line_end(s, i + 1) } else { i }
}

/// Where the run of ASCII digits that starts at `i` ends.
pub open spec fn digits_end(s: Seq<char>, i: int) -> int
    decreases s.len() - i,
{
    if 0 <= i < s.len() && '0' <= s[i] <= '9' { digits_end(s, i + 1) } else { i }
}

/// The value of a string of ASCII digits.
pub open spec fn digits_value(s: Seq<char>) -> nat
    decreases s.len(),
{
    if s.len() == 0 {
        0
    } else {
        digits_value(s.drop_last()) * 10 + ((s.last() as u32) - ('0' as u32)) as nat
    }
}

/// The line and column of position `n` of `s`, counting the way the preprocessor does.
pub open spec fn pos_line_col(s: Seq<char>, n: int) -> (usize, usize)
    decreases n,
{
    if n <= 0 {
        (1, 1)
    } else if n > s.len() {
        pos_line_col(s, s.len() as int)
    } else {
        let (l, c) = pos_line_col(s, n - 1);
        if s[n - 1] == '\n' { (l.saturating_add(1), 1) } else { (l, c.saturating_add(1)) }
    }
}

pub proof fn lemma_line_end(s: Seq<char>, i: int)
    requires
        0 <= i <= s.len(),
    ensures
        i <= line_end(s, i) <= s.len(),
        forall|k: int| i <= k < line_end(s, i) ==> #[trigger] s[k] != '\n',
    decreases s.len() - i,
{
    if i < s.len() && s[i] != '\n' {
        lemma_line_end(s, i + 1);
    }
}

pub proof fn lemma_digits_end(s: Seq<char>, i: int)
    requires
        0 <= i <= s.len(),
    ensures
        i <= digits_end(s, i) <= s.len(),
        forall|k: int| i <= k < digits_end(s, i) ==> '0' <= #[trigger] s[k] <= '9',
    decreases s.len() - i,
{
    if i < s.len() && '0' <= s[i] <= '9' {
        lemma_digits_end(s, i + 1);
    }
}

// ---------------------------------------------------------------------------
// Edit distance and suggestions
// ---------------------------------------------------------------------------

pub open spec fn min3(a: nat, b: nat, c: nat) -> nat {
    if a <= b && a <= c { a } else if b <= c { b } else { c }
}

/// Levenshtein edit distance between two character sequences.
pub open spec fn lev(a: Seq<char>, b: Seq<char>) -> nat
    decreases a.len() + b.len(),
{
    if a.len() == 0 {
        b.len()
    } else if b.len() == 0 {
        a.len()
    } else {
        min3(
            lev(a.drop_last(), b) + 1,
            lev(a, b.drop_last()) + 1,
            lev(a.drop_last(), b.drop_last()) + if a.last() == b.last() { 0nat } else { 1nat },
        )
    }
}

/// The closest candidate within distance 3 (and not equal to `name`); among equally
/// close ones, the first.
pub open spec fn best_match(cands: Seq<Seq<char>>, name: Seq<char>) -> Option<Seq<char>>
    decreases cands.len(),
{
    if cands.len() == 0 {
        None
    } else {
        let rest = best_match(cands.drop_last(), name);
        let c = cands.last();
        let d = lev(name, c);
        if 0 < d <= 3 && (rest is None || d < lev(name, rest->0)) {
            Some(c)
        } else {
            rest
        }
    }
}

/// `. Did you mean 'x'?` when there is a suggestion.
pub open spec fn did_you_mean(best: Option<Seq<char>>) -> Seq<char> {
    match best {
        Some(b) => ". Did you mean '"@ + b + "'?"@,
        None => Seq::empty(),
    }
}

/// The names of the standard library modules, in order.
pub open spec fn std_names() -> Seq<Seq<char>> {
    seq!["ascii"@, "cli"@, "convert"@, "debug"@, "io"@, "logic"@, "math"@, "memory"@, "string"@]
}

/// The source of a standard library module.
pub open spec fn std_text(name: Seq<char>) -> Option<Seq<char>> {
    if name == "ascii"@ {
        Some(STDLIB_ASCII@)
    } else if name == "cli"@ {
        Some(STDLIB_CLI@)
    } else if name == "convert"@ {
        Some(STDLIB_CONVERT@)
    } else if name == "debug"@ {
        Some(STDLIB_DEBUG@)
    } else if name == "io"@ {
        Some(STDLIB_IO@)
    } else if name == "logic"@ {
        Some(STDLIB_LOGIC@)
    } else if name == "math"@ {
        Some(STDLIB_MATH@)
    } else if name == "memory"@ {
        Some(STDLIB_MEMORY@)
    } else if name == "string"@ {
        Some(STDLIB_STRING@)
    } else {
        None
    }
}

/// Whether a module's source defines a function `name`.
pub open spec fn defines_fn(text: Seq<char>, name: Seq<char>) -> bool {
    seq_contains(text, "@fn "@ + name + " {"@)
}

/// The first `n` standard modules that define `name`.
pub open spec fn modules_defining(name: Seq<char>, n: int) -> Seq<Seq<char>>
    decreases n,
{
    if n <= 0 || n > std_names().len() {
        Seq::empty()
    } else {
        let rest = modules_defining(name, n - 1);
        let m = std_names()[n - 1];
        if defines_fn(std_text(m)->0, name) { rest.push(m) } else { rest }
    }
}

/// `std/m.bf` for each module `m`.
pub open spec fn std_paths(mods: Seq<Seq<char>>) -> Seq<Seq<char>> {
    mods.map_values(|m: Seq<char>| "std/"@ + m + ".bf"@)
}

/// The hint that names the standard modules that define a function.
pub open spec fn module_hint(name: Seq<char>) -> Seq<char> {
    let mods = modules_defining(name, 9);
    if mods.len() == 0 {
        Seq::empty()
    } else {
        "\n  hint: '"@ + name + "' is defined in "@ + join(std_paths(mods), ", "@)
            + ". Add: @import \"std/"@ + mods[0] + ".bf\""@
    }
}

/// The message for a call of a function that is not defined.
pub open spec fn unknown_function_text(name: Seq<char>, known: Seq<Seq<char>>) -> Seq<char> {
    "unknown function: '"@ + name + "'"@ + did_you_mean(best_match(known, name)) + module_hint(name)
}

/// The message for an import of a standard module that does not exist.
pub open spec fn unknown_module_text(name: Seq<char>) -> Seq<char> {
    "unknown standard library module: '"@ + name + "'"@ + did_you_mean(best_match(std_names(), name))
        + "\n  available modules: "@ + join(std_names(), ", "@)
}

// ---------------------------------------------------------------------------
// Tables: name -> value, in the order the names were first defined
// ---------------------------------------------------------------------------

/// The position of `k` among the names of `es`, or -1.
pub open spec fn tbl_find<V>(es: Seq<(Seq<char>, V)>, k: Seq<char>) -> int
    decreases es.len(),
{
    if es.len() == 0 {
        -1
    } else {
        let j = tbl_find(es.drop_last(), k);
        if j >= 0 {
            j
        } else if es.last().0 == k {
            es.len() - 1
        } else {
            -1
        }
    }
}

/// The value bound to `k`.
pub open spec fn tbl_get<V>(es: Seq<(Seq<char>, V)>, k: Seq<char>) -> Option<V> {
    let j = tbl_find(es, k);
    if j >= 0 { Some(es[j].1) } else { None }
}

/// Bind `k` to `v`: in place when `k` is bound, else at the end.
pub open spec fn tbl_insert<V>(es: Seq<(Seq<char>, V)>, k: Seq<char>, v: V) -> Seq<(Seq<char>, V)> {
    let j = tbl_find(es, k);
    if j >= 0 { es.update(j, (k, v)) } else { es.push((k, v)) }
}

/// The names of a table, in order.
pub open spec fn tbl_keys<V>(es: Seq<(Seq<char>, V)>) -> Seq<Seq<char>> {
    es.map_values(|p: (Seq<char>, V)| p.0)
}

pub proof fn lemma_tbl_find<V>(es: Seq<(Seq<char>, V)>, k: Seq<char>)
    ensures
        -1 <= tbl_find(es, k) < es.len(),
        tbl_find(es, k) >= 0 ==> es[tbl_find(es, k)].0 == k,
        tbl_find(es, k) >= 0 ==> forall|i: int| 0 <= i < tbl_find(es, k) ==> (#[trigger] es[i]).0 != k,
        tbl_find(es, k) < 0 ==> forall|i: int| 0 <= i < es.len() ==> (#[trigger] es[i]).0 != k,
    decreases es.len(),
{
    if es.len() > 0 {
        lemma_tbl_find(es.drop_last(), k);
        assert forall|i: int| 0 <= i < es.len() - 1 implies es.drop_last()[i] == #[trigger] es[i] by {}
    }
}

pub proof fn lemma_tbl_insert_keys<V>(es: Seq<(Seq<char>, V)>, k: Seq<char>, v: V)
    requires
        tbl_keys(es).no_duplicates(),
    ensures
        tbl_keys(tbl_insert(es, k, v)).no_duplicates(),
        tbl_keys(tbl_insert(es, k, v)).contains(k),
        forall|x: Seq<char>| tbl_keys(es).contains(x) ==> tbl_keys(tbl_insert(es, k, v)).contains(x),
{
    lemma_tbl_find(es, k);
    let r = tbl_insert(es, k, v);
    let j = tbl_find(es, k);
    if j >= 0 {
        assert(tbl_keys(r) =~= tbl_keys(es));
        assert(tbl_keys(r)[j] == k);
    } else {
        assert(tbl_keys(r) =~= tbl_keys(es).push(k));
        assert(tbl_keys(r)[es.len() as int] == k);
        assert forall|x: Seq<char>| tbl_keys(es).contains(x) implies tbl_keys(r).contains(x) by {
            let w = choose|w: int| 0 <= w < tbl_keys(es).len() && tbl_keys(es)[w] == x;
            assert(tbl_keys(r)[w] == x);
        }
    }
}

pub proof fn lemma_tbl_find_keys<V>(es: Seq<(Seq<char>, V)>, k: Seq<char>)
    ensures
        tbl_find(es, k) >= 0 <==> tbl_keys(es).contains(k),
{
    lemma_tbl_find(es, k);
    if tbl_keys(es).contains(k) {
        let w = choose|w: int| 0 <= w < tbl_keys(es).len() && tbl_keys(es)[w] == k;
        assert(es[w].0 == k);
    }
    if tbl_find(es, k) >= 0 {
        assert(tbl_keys(es)[tbl_find(es, k)] == k);
    }
}

/// A stack of distinct names, all of them names of the table, is shorter than the
/// table when a further name of the table is not on it.
pub proof fn lemma_stack_shorter<V>(es: Seq<(Seq<char>, V)>, stack: Seq<Seq<char>>, name: Seq<char>)
    requires
        tbl_keys(es).no_duplicates(),
        stack.no_duplicates(),
        forall|x: Seq<char>| stack.contains(x) ==> tbl_keys(es).contains(x),
        tbl_keys(es).contains(name),
        !stack.contains(name),
    ensures
        stack.len() < es.len(),
{
    let s2 = stack.push(name);
    assert(s2.no_duplicates()) by {
        assert forall|a: int, b: int| 0 <= a < b < s2.len() implies s2[a] != s2[b] by {
            if b == stack.len() {
                assert(stack.contains(s2[a]));
            }
        }
    }
    s2.unique_seq_to_set();
    tbl_keys(es).unique_seq_to_set();
    assert(s2.to_set().subset_of(tbl_keys(es).to_set())) by {
        assert forall|x: Seq<char>| s2.to_set().contains(x) implies tbl_keys(es).to_set().contains(x) by {
            assert(s2.contains(x));
            if x != name {
                let w = choose|w: int| 0 <= w < s2.len() && s2[w] == x;
                assert(stack[w] == x);
                assert(stack.contains(x));
            }
            assert(tbl_keys(es).contains(x));
        }
    }
    vstd::set_lib::lemma_len_subset(s2.to_set(), tbl_keys(es).to_set());
}

// ---------------------------------------------------------------------------
// Pass 2: expand
// ---------------------------------------------------------------------------

/// A directive starts at `i`: `@` followed by a letter.
pub open spec fn is_directive_at(s: Seq<char>, i: int) -> bool {
    0 <= i && i + 1 < s.len() && s[i] == '@' && unicode_alphabetic(s[i + 1])
}

/// The keyword of the directive at `i`.
pub open spec fn kw_at(s: Seq<char>, i: int) -> Seq<char> {
    s.subrange(i + 1, ident_end(s, i + 1))
}

/// The message of a call cycle: the names on the stack, then the repeated one.
pub open spec fn cycle_text(stack: Seq<Seq<char>>, name: Seq<char>) -> Seq<char> {
    join(stack.push(name), " → "@)
}

/// `n` plus signs.
pub open spec fn pluses(n: nat) -> Seq<char> {
    Seq::new(n, |i: int| '+')
}

/// Expand the code from position `i` on: every `@call` is replaced by the expanded
/// body of the function, every `@use` by as many `+` as the constant says.
pub open spec fn expand_at(
    fns: Seq<(Seq<char>, Seq<char>)>,
    consts: Seq<(Seq<char>, usize)>,
    code: Seq<char>,
    i: int,
    stack: Seq<Seq<char>>,
) -> Result<Seq<char>, Fail>
    decreases fns.len() - stack.len(), code.len() - i,
{
    if i < 0 || i >= code.len() {
        Ok(Seq::empty())
    } else if is_directive_at(code, i) {
        let j = ident_end(code, i + 1);
        let kw = code.subrange(i + 1, j);
        proof {
            lemma_ident_end(code, i + 1);
            lemma_spaces_end(code, j);
        }
        let k = spaces_end(code, j);
        proof {
            lemma_ident_end(code, k);
        }
        let e = ident_end(code, k);
        let name = code.subrange(k, e);
        if kw == "call"@ {
            if stack.contains(name) {
                Err(Fail::CycleDetected(cycle_text(stack, name)))
            } else if tbl_find(fns, name) < 0 {
                Err(Fail::UnknownFunction(unknown_function_text(name, tbl_keys(fns))))
            } else if stack.len() >= fns.len() {
                Err(Fail::CycleDetected(cycle_text(stack, name)))
            } else {
                match expand_at(fns, consts, tbl_get(fns, name)->0, 0, stack.push(name)) {
                    Err(x) => Err(x),
                    Ok(b) => match expand_at(fns, consts, code, e, stack) {
                        Err(x) => Err(x),
                        Ok(rest) => Ok(b + rest),
                    },
                }
            }
        } else if kw == "use"@ {
            match tbl_get(consts, name) {
                None => Err(Fail::Other("undefined constant: @use "@ + name)),
                Some(v) => match expand_at(fns, consts, code, e, stack) {
                    Err(x) => Err(x),
                    Ok(rest) => Ok(pluses(v as nat) + rest),
                },
            }
        } else {
            match expand_at(fns, consts, code, j, stack) {
                Err(x) => Err(x),
                Ok(rest) => Ok(seq!['@'] + kw + rest),
            }
        }
    } else {
        match expand_at(fns, consts, code, i + 1, stack) {
            Err(x) => Err(x),
            Ok(rest) => Ok(seq![code[i]] + rest),
        }
    }
}

// ---------------------------------------------------------------------------
// Pass 1: collect
// ---------------------------------------------------------------------------

/// A file that an `@import` may name, as the caller has read it: the path the
/// import resolves to, the canonical form of that path, and its text.
pub struct FileView {
    pub path: Seq<char>,
    pub canonical: Seq<char>,
    pub text: Seq<char>,
}

/// The first file of `files` with the given path.
pub open spec fn find_file(files: Seq<FileView>, path: Seq<char>) -> Option<FileView>
    decreases files.len(),
{
    if files.len() == 0 {
        None
    } else {
        match find_file(files.drop_last(), path) {
            Some(f) => Some(f),
            None => if files.last().path == path { Some(files.last()) } else { None },
        }
    }
}

/// What `Path::join` gives for `base` and `rel`.
pub uninterp spec fn joined_path(base: Seq<char>, rel: Seq<char>) -> Seq<char>;

/// What `Path::parent` gives for `p`.
pub uninterp spec fn parent_path(p: Seq<char>) -> Option<Seq<char>>;

/// The directory that the imports of a file at `p` are read from.
pub open spec fn import_base(p: Seq<char>) -> Seq<char> {
    match parent_path(p) {
        Some(q) => q,
        None => "."@,
    }
}

/// The module named by the path of a standard library import (`std/m.bf` or `std/m`).
pub open spec fn std_module_name(path: Seq<char>) -> Seq<char> {
    let rest = path.skip(4);
    if seq_ends_with(rest, ".bf"@) { rest.take(rest.len() - 3) } else { rest }
}

/// The preprocessor state.
#[verifier::ext_equal]
pub struct PreState {
    /// Function bodies.
    pub functions: Seq<(Seq<char>, Seq<char>)>,
    /// Doc comments of functions.
    pub docs: Seq<(Seq<char>, Seq<char>)>,
    /// Numeric constants.
    pub constants: Seq<(Seq<char>, usize)>,
    /// What was imported: canonical paths, and `<stdlib:m>` for standard modules.
    pub imported: Seq<Seq<char>>,
    /// The file each function was defined in.
    pub origins: Seq<(Seq<char>, Seq<char>)>,
    /// Locations of the characters of the top-level code read so far.
    pub map: Seq<Loc>,
}

/// Where the collect pass stands in one source.
#[verifier::ext_equal]
pub struct Cursor {
    /// The top-level code so far.
    pub top: Seq<char>,
    /// Doc lines waiting for the next `@fn`.
    pub doc: Seq<char>,
    pub line: usize,
    pub col: usize,
}

pub open spec fn fresh_cursor() -> Cursor {
    Cursor { top: Seq::empty(), doc: Seq::empty(), line: 1, col: 1 }
}

/// The state before anything is read, with the given functions already known.
pub open spec fn initial_state(functions: Seq<(Seq<char>, Seq<char>)>) -> PreState {
    PreState {
        functions,
        docs: Seq::empty(),
        constants: Seq::empty(),
        imported: Seq::empty(),
        origins: Seq::empty(),
        map: Seq::empty(),
    }
}

/// Locations for the `+` characters of a `@use`.
pub open spec fn use_locs(file: Seq<char>, line: usize, col: usize, n: usize) -> Seq<Loc> {
    Seq::new(n as nat, |x: int| Loc { file, line, column: col.saturating_add(x as usize), function: None })
}

/// One step of the collect pass at `i` for everything but `@import`: the position
/// after it, and the new state and cursor.
pub open spec fn collect_step(src: Seq<char>, file: Seq<char>, i: int, st: PreState, cur: Cursor)
    -> Result<(int, PreState, Cursor), Fail>
{
    if is_directive_at(src, i) {
        let j = ident_end(src, i + 1);
        let kw = src.subrange(i + 1, j);
        let col1 = cur.col.saturating_add(1).saturating_add((j - (i + 1)) as usize);
        let k = spaces_end(src, j);
        let c2 = pos_line_col(src, k).1;
        let e = ident_end(src, k);
        let name = src.subrange(k, e);
        if kw == "doc"@ {
            let le = line_end(src, k);
            let doc = (if cur.doc.len() > 0 { cur.doc.push('\n') } else { cur.doc }) + trim(src.subrange(k, le));
            Ok((le, st, Cursor { doc, col: c2.saturating_add((le - k) as usize), ..cur }))
        } else if kw == "fn"@ {
            if name.len() == 0 {
                Err(Fail::Other("@fn: missing function name"@))
            } else {
                let w = ws_end(src, e);
                if w >= src.len() || src[w] != '{' {
                    Err(Fail::Other("@fn "@ + name + ": expected '{', found "@ + found_debug(src, w)))
                } else {
                    let close = brace_close(src, w + 1, 1);
                    if w + 1 >= src.len() || close >= src.len() {
                        Err(Fail::Other("@fn "@ + name + ": unclosed '{'"@))
                    } else {
                        let body = src.subrange(w + 1, close);
                        let (l, c) = pos_line_col(src, close + 1);
                        let docs = if cur.doc.len() > 0 { tbl_insert(st.docs, name, cur.doc) } else { st.docs };
                        Ok((close + 1, PreState {
                            functions: tbl_insert(st.functions, name, body),
                            docs,
                            origins: tbl_insert(st.origins, name, file),
                            ..st
                        }, Cursor { doc: Seq::empty(), line: l, col: c, ..cur }))
                    }
                }
            }
        } else if kw == "call"@ {
            if name.len() == 0 {
                Err(Fail::Other("@call: missing function name"@))
            } else {
                Ok((e, st, Cursor { top: cur.top + "@call "@ + name, col: c2, ..cur }))
            }
        } else if kw == "const"@ {
            if name.len() == 0 {
                Err(Fail::Other("@const: missing constant name"@))
            } else {
                let k2 = spaces_end(src, e);
                let c3 = pos_line_col(src, k2).1;
                let d = digits_end(src, k2);
                let num = src.subrange(k2, d);
                if num.len() == 0 {
                    Err(Fail::Other("@const "@ + name + ": expected numeric value"@))
                } else if digits_value(num) > usize::MAX {
                    Err(Fail::Other("@const "@ + name + ": invalid value \""@ + num + "\""@))
                } else {
                    Ok((d, PreState {
                        constants: tbl_insert(st.constants, name, digits_value(num) as usize),
                        ..st
                    }, Cursor { col: c3.saturating_add((d - k2) as usize), ..cur }))
                }
            }
        } else if kw == "use"@ {
            if name.len() == 0 {
                Err(Fail::Other("@use: missing constant name"@))
            } else {
                match tbl_get(st.constants, name) {
                    None => Err(Fail::Other("undefined constant: @use "@ + name)),
                    Some(v) => Ok((e, PreState { map: st.map + use_locs(file, cur.line, col1, v), ..st },
                        Cursor { top: cur.top + pluses(v as nat), col: c2, ..cur })),
                }
            }
        } else {
            Err(Fail::UnknownDirective(kw))
        }
    } else {
        let c = src[i];
        Ok((i + 1, PreState {
            map: st.map.push(Loc { file, line: cur.line, column: cur.col, function: None }),
            ..st
        }, Cursor {
            top: cur.top.push(c),
            line: if c == '\n' { cur.line.saturating_add(1) } else { cur.line },
            col: if c == '\n' { 1 } else { cur.col.saturating_add(1) },
            ..cur
        }))
    }
}

/// The collect pass over `src` from position `i`: `@import`, `@fn`, `@doc`, `@const`
/// are read into the state, `@use` becomes `+` characters, and `@call` is kept
/// as a marker in the top-level code it returns. `fuel` bounds the nesting of
/// imports; each nested import takes one unit.
pub open spec fn collect_from(
    files: Seq<FileView>,
    src: Seq<char>,
    base: Seq<char>,
    file: Seq<char>,
    i: int,
    st: PreState,
    cur: Cursor,
    fuel: nat,
) -> Result<(PreState, Seq<char>), Fail>
    decreases fuel, src.len() - i,
{
    if i < 0 || i >= src.len() {
        Ok((st, cur.top))
    } else if is_directive_at(src, i) && kw_at(src, i) == "import"@ {
        let j = ident_end(src, i + 1);
        proof {
            lemma_ident_end(src, i + 1);
            lemma_spaces_end(src, j);
        }
        let k = spaces_end(src, j);
        if k >= src.len() || src[k] != '"' {
            Err(Fail::Other("@import: "@ + expected_quote_message(src, k)))
        } else {
            proof {
                lemma_quote_close(src, k + 1);
            }
            let q = quote_close(src, k + 1);
            if q >= src.len() {
                Err(Fail::Other("@import: "@ + "unterminated string literal"@))
            } else {
                let path = src.subrange(k + 1, q);
                let k2 = q + 1;
                let cur2 = Cursor { col: pos_line_col(src, k2).1, ..cur };
                if seq_starts_with(path, "std/"@) {
                    let m = std_module_name(path);
                    match std_text(m) {
                        None => Err(Fail::UnknownStdModule(unknown_module_text(m))),
                        Some(text) => {
                            let sentinel = "<stdlib:"@ + m + ">"@;
                            if st.imported.contains(sentinel) {
                                collect_from(files, src, base, file, k2, st, cur2, fuel)
                            } else if fuel == 0 {
                                Err(Fail::ImportCycle(sentinel))
                            } else {
                                match collect_from(
                                    files,
                                    text,
                                    base,
                                    "std/"@ + m + ".bf"@,
                                    0,
                                    PreState { imported: st.imported.push(sentinel), ..st },
                                    fresh_cursor(),
                                    (fuel - 1) as nat,
                                ) {
                                    Err(x) => Err(x),
                                    Ok((st2, _)) => collect_from(files, src, base, file, k2, st2, cur2, fuel),
                                }
                            }
                        },
                    }
                } else {
                    let ip = joined_path(base, path);
                    match find_file(files, ip) {
                        None => Err(Fail::FileNotFound(ip)),
                        Some(f) => if st.imported.contains(f.canonical) || fuel == 0 {
                            Err(Fail::ImportCycle(ip))
                        } else {
                            match collect_from(
                                files,
                                f.text,
                                import_base(ip),
                                ip,
                                0,
                                PreState { imported: st.imported.push(f.canonical), ..st },
                                fresh_cursor(),
                                (fuel - 1) as nat,
                            ) {
                                Err(x) => Err(x),
                                Ok((st2, _)) => collect_from(files, src, base, file, k2, st2, cur2, fuel),
                            }
                        },
                    }
                }
            }
        }
    } else {
        match collect_step(src, file, i, st, cur) {
            Err(x) => Err(x),
            Ok((j, st2, cur2)) => if i < j <= src.len() {
                collect_from(files, src, base, file, j, st2, cur2, fuel)
            } else {
                Ok((st2, cur2.top))
            },
        }
    }
}

/// Locations of the characters of an expanded function body: the file of the
/// function, and line and column within the body.
pub open spec fn body_locs(file: Seq<char>, name: Seq<char>, b: Seq<char>) -> Seq<Loc> {
    Seq::new(
        b.len(),
        |x: int| Loc { file, line: pos_line_col(b, x).0, column: pos_line_col(b, x).1, function: Some(name) },
    )
}

/// Locations of the `+` characters of a `@use` met in the expand pass.
pub open spec fn const_locs(n: usize) -> Seq<Loc> {
    Seq::new(n as nat, |x: int| Loc { file: "<const>"@, line: 1, column: 1, function: None })
}

/// The file a function was defined in, or `<unknown>`.
pub open spec fn origin_of(origins: Seq<(Seq<char>, Seq<char>)>, name: Seq<char>) -> Seq<char> {
    match tbl_get(origins, name) {
        Some(f) => f,
        None => "<unknown>"@,
    }
}

/// The expand pass over top-level code from `i` that also gives a location for
/// each output character: `locs` are the locations the collect pass recorded,
/// `idx` the next of them to hand out.
pub open spec fn expand_track(
    fns: Seq<(Seq<char>, Seq<char>)>,
    consts: Seq<(Seq<char>, usize)>,
    origins: Seq<(Seq<char>, Seq<char>)>,
    code: Seq<char>,
    i: int,
    locs: Seq<Loc>,
    idx: int,
) -> Result<(Seq<char>, Seq<Loc>), Fail>
    decreases code.len() - i,
{
    if i < 0 || i >= code.len() {
        Ok((Seq::empty(), Seq::empty()))
    } else if is_directive_at(code, i) {
        let j = ident_end(code, i + 1);
        let kw = code.subrange(i + 1, j);
        proof {
            lemma_ident_end(code, i + 1);
            lemma_spaces_end(code, j);
        }
        let k = spaces_end(code, j);
        proof {
            lemma_ident_end(code, k);
        }
        let e = ident_end(code, k);
        let name = code.subrange(k, e);
        if kw == "call"@ {
            if tbl_find(fns, name) < 0 {
                Err(Fail::UnknownFunction(unknown_function_text(name, tbl_keys(fns))))
            } else {
                match expand_at(fns, consts, tbl_get(fns, name)->0, 0, seq![name]) {
                    Err(x) => Err(x),
                    Ok(b) => match expand_track(fns, consts, origins, code, e, locs, idx) {
                        Err(x) => Err(x),
                        Ok((rest, rl)) => Ok((b + rest, body_locs(origin_of(origins, name), name, b) + rl)),
                    },
                }
            }
        } else if kw == "use"@ {
            match tbl_get(consts, name) {
                None => Err(Fail::Other("undefined constant: @use "@ + name)),
                Some(v) => match expand_track(fns, consts, origins, code, e, locs, idx) {
                    Err(x) => Err(x),
                    Ok((rest, rl)) => Ok((pluses(v as nat) + rest, const_locs(v) + rl)),
                },
            }
        } else {
            match expand_track(fns, consts, origins, code, j, locs, idx) {
                Err(x) => Err(x),
                Ok((rest, rl)) => Ok((seq!['@'] + kw + rest, rl)),
            }
        }
    } else {
        match expand_track(fns, consts, origins, code, i + 1, locs, idx + 1) {
            Err(x) => Err(x),
            Ok((rest, rl)) => Ok((
                seq![code[i]] + rest,
                (if 0 <= idx < locs.len() { seq![locs[idx]] } else { Seq::empty() }) + rl,
            )),
        }
    }
}

/// The text part of a tracked expansion.
pub open spec fn track_text(r: Result<(Seq<char>, Seq<Loc>), Fail>) -> Result<Seq<char>, Fail> {
    match r {
        Ok((t, _)) => Ok(t),
        Err(x) => Err(x),
    }
}

/// Both passes over `src`, with a location for each output character.
pub open spec fn preprocess_map_spec(
    files: Seq<FileView>,
    src: Seq<char>,
    base: Seq<char>,
    file: Seq<char>,
) -> Result<(Seq<char>, Seq<Loc>), Fail> {
    match collect_source(files, src, base, file, Seq::empty()) {
        Err(x) => Err(x),
        Ok((st, top)) => expand_track(st.functions, st.constants, st.origins, top, 0, st.map, 0),
    }
}

/// Both passes, with the functions and doc comments that the collect pass found.
pub open spec fn docs_spec(files: Seq<FileView>, src: Seq<char>, base: Seq<char>) -> Result<
    (Seq<char>, Seq<(Seq<char>, Seq<char>)>, Seq<(Seq<char>, Seq<char>)>),
    Fail,
> {
    match collect_source(files, src, base, Seq::empty(), Seq::empty()) {
        Err(x) => Err(x),
        Ok((st, top)) => match expand_at(st.functions, st.constants, top, 0, Seq::empty()) {
            Err(x) => Err(x),
            Ok(out) => Ok((out, st.functions, st.docs)),
        },
    }
}

/// The functions that the collect pass finds in `src`.
pub open spec fn functions_spec(files: Seq<FileView>, src: Seq<char>, base: Seq<char>) -> Result<
    Seq<(Seq<char>, Seq<char>)>,
    Fail,
> {
    match collect_source(files, src, base, Seq::empty(), Seq::empty()) {
        Err(x) => Err(x),
        Ok((st, _)) => Ok(st.functions),
    }
}

/// How many nested imports the collect pass allows: more than a chain of
/// distinct sources can be deep (each file once, then one standard module,
/// which imports nothing), so that only a repeated source, which is an import
/// cycle, could exhaust it.
pub open spec fn import_fuel(files: Seq<FileView>) -> nat {
    if files.len() + 8 > usize::MAX { usize::MAX as nat } else { files.len() + 8 }
}

/// Collect `src` from a fresh state that knows `functions`.
pub open spec fn collect_source(
    files: Seq<FileView>,
    src: Seq<char>,
    base: Seq<char>,
    file: Seq<char>,
    functions: Seq<(Seq<char>, Seq<char>)>,
) -> Result<(PreState, Seq<char>), Fail> {
    collect_from(files, src, base, file, 0, initial_state(functions), fresh_cursor(), import_fuel(files))
}

/// Both passes over `src`: collect, then expand the top-level code.
pub open spec fn preprocess_spec(
    files: Seq<FileView>,
    src: Seq<char>,
    base: Seq<char>,
    functions: Seq<(Seq<char>, Seq<char>)>,
) -> Result<Seq<char>, Fail> {
    match collect_source(files, src, base, Seq::empty(), functions) {
        Err(x) => Err(x),
        Ok((st, top)) => expand_at(st.functions, st.constants, top, 0, Seq::empty()),
    }
}

/// std's `Path::join`, as text. Claimed: the result is `joined_path` of the two
/// arguments, a function of them alone.
#[verifier::external_body]
pub(crate) fn join_path(base: &str, rel: &str) -> (r: String)
    ensures
        r@ == joined_path(base@, rel@),
{
    std::path::Path::new(base).join(rel).to_string_lossy().into_owned()
}

/// std's `Path::parent`, as text. Claimed: the result is `parent_path` of the
/// argument, a function of it alone.
#[verifier::external_body]
fn parent_of(p: &str) -> (r: Option<String>)
    ensures
        match r {
            Some(q) => parent_path(p@) == Some(q@),
            None => parent_path(p@) is None,
        },
{
    match std::path::Path::new(p).parent() {
        Some(q) => Some(q.to_string_lossy().into_owned()),
        None => None,
    }
}

/// A file that an `@import` may name, as read by the caller: the path the import
/// resolves to, the canonical form of that path, and the file's text.
#[derive(Debug, Clone)]
pub struct SourceFile {
    pub path: String,
    pub canonical: String,
    pub text: String,
}

impl View for SourceFile {
    type V = FileView;

    open spec fn view(&self) -> FileView {
        FileView { path: self.path@, canonical: self.canonical@, text: self.text@ }
    }
}

/// The values of a list of files.
pub open spec fn files_view(files: Seq<SourceFile>) -> Seq<FileView> {
    files.map_values(|f: SourceFile| f@)
}

impl SourceFile {
    pub fn new(path: String, canonical: String, text: String) -> (r: Self)
        ensures
            r@ == (FileView { path: path@, canonical: canonical@, text: text@ }),
    {
        SourceFile { path, canonical, text }
    }
}

proof fn lemma_find_file_prefix(fs: Seq<FileView>, p: Seq<char>, n: int)
    requires
        0 <= n <= fs.len(),
        find_file(fs.take(n), p) is Some,
    ensures
        find_file(fs, p) == find_file(fs.take(n), p),
    decreases fs.len() - n,
{
    if n < fs.len() {
        assert(fs.take(n + 1).drop_last() =~= fs.take(n));
        lemma_find_file_prefix(fs, p, n + 1);
    } else {
        assert(fs.take(n) =~= fs);
    }
}

/// The first file of `files` with the given path.
fn lookup_file<'a>(files: &'a [SourceFile], path: &String) -> (r: Option<&'a SourceFile>)
    ensures
        match r {
            Some(f) => find_file(files_view(files@), path@) == Some(f@),
            None => find_file(files_view(files@), path@) is None,
        },
{
    let ghost fv = files_view(files@);
    let mut k: usize = 0;
    while k < files.len()
        invariant
            fv == files_view(files@),
            k <= files@.len(),
            find_file(fv.take(k as int), path@) is None,
        decreases files@.len() - k,
    {
        proof {
            assert(fv.take(k as int + 1).drop_last() =~= fv.take(k as int));
        }
        if files[k].path == *path {
            proof {
                lemma_find_file_prefix(fv, path@, k as int + 1);
            }
            return Some(&files[k]);
        }
        k += 1;
    }
    assert(fv.take(files@.len() as int) =~= fv);
    None
}

/// The texts of a list of strings.
pub open spec fn strs(v: Seq<String>) -> Seq<Seq<char>> {
    v.map_values(|s: String| s@)
}

pub proof fn lemma_strs_push(v: Seq<String>, s: String)
    ensures
        strs(v.push(s)) == strs(v).push(s@),
{
    assert(strs(v.push(s)) =~= strs(v).push(s@));
}

/// The value of a list of named texts.
pub open spec fn pairs_view(v: Seq<(String, String)>) -> Seq<(Seq<char>, Seq<char>)> {
    v.map_values(|p: (String, String)| (p.0@, p.1@))
}

/// The value of a list of named numbers.
pub open spec fn consts_view(v: Seq<(String, usize)>) -> Seq<(Seq<char>, usize)> {
    v.map_values(|p: (String, usize)| (p.0@, p.1))
}

/// A table from names to texts, in the order the names were first bound
/// (function bodies, doc comments).
#[derive(Debug, Clone)]
pub struct FnTable {
    entries: Vec<(String, String)>,
}

impl View for FnTable {
    type V = Seq<(Seq<char>, Seq<char>)>;

    closed spec fn view(&self) -> Seq<(Seq<char>, Seq<char>)> {
        pairs_view(self.entries@)
    }
}

/// The position of the first entry named `key`.
fn find_entry(entries: &Vec<(String, String)>, key: &String) -> (r: Option<usize>)
    ensures
        match r {
            Some(j) => j as int == tbl_find(pairs_view(entries@), key@) && j < entries@.len(),
            None => tbl_find(pairs_view(entries@), key@) < 0,
        },
{
    let ghost es = pairs_view(entries@);
    proof {
        lemma_tbl_find(es, key@);
    }
    let mut k: usize = 0;
    while k < entries.len()
        invariant
            es == pairs_view(entries@),
            k <= entries@.len(),
            forall|i: int| 0 <= i < k ==> (#[trigger] es[i]).0 != key@,
        decreases entries@.len() - k,
    {
        if entries[k].0 == *key {
            assert(es[k as int].0 == key@);
            proof {
                lemma_tbl_find(es, key@);
            }
            return Some(k);
        }
        k += 1;
    }
    proof {
        lemma_tbl_find(es, key@);
        if tbl_find(es, key@) >= 0 {
            assert(es[tbl_find(es, key@)].0 == key@);
        }
    }
    None
}

/// The position of the first constant named `key`.
fn find_const(entries: &Vec<(String, usize)>, key: &String) -> (r: Option<usize>)
    ensures
        match r {
            Some(j) => j as int == tbl_find(consts_view(entries@), key@) && j < entries@.len(),
            None => tbl_find(consts_view(entries@), key@) < 0,
        },
{
    let ghost es = consts_view(entries@);
    proof {
        lemma_tbl_find(es, key@);
    }
    let mut k: usize = 0;
    while k < entries.len()
        invariant
            es == consts_view(entries@),
            k <= entries@.len(),
            forall|i: int| 0 <= i < k ==> (#[trigger] es[i]).0 != key@,
        decreases entries@.len() - k,
    {
        if entries[k].0 == *key {
            assert(es[k as int].0 == key@);
            proof {
                lemma_tbl_find(es, key@);
            }
            return Some(k);
        }
        k += 1;
    }
    proof {
        lemma_tbl_find(es, key@);
        if tbl_find(es, key@) >= 0 {
            assert(es[tbl_find(es, key@)].0 == key@);
        }
    }
    None
}

/// Bind `key` to `value` in a list of named numbers.
fn insert_const(entries: &mut Vec<(String, usize)>, key: String, value: usize)
    ensures
        consts_view(final(entries)@) == tbl_insert(consts_view(old(entries)@), key@, value),
{
    match find_const(entries, &key) {
        Some(j) => {
            entries.set(j, (key, value));
            assert(consts_view(entries@) =~= tbl_insert(consts_view(old(entries)@), key@, value));
        },
        None => {
            entries.push((key, value));
            assert(consts_view(entries@) =~= tbl_insert(consts_view(old(entries)@), key@, value));
        },
    }
}

/// Whether a list of strings holds `s`.
fn contains_string(v: &Vec<String>, s: &String) -> (r: bool)
    ensures
        r == strs(v@).contains(s@),
{
    let mut k: usize = 0;
    while k < v.len()
        invariant
            k <= v@.len(),
            forall|i: int| 0 <= i < k ==> (#[trigger] strs(v@)[i]) != s@,
        decreases v@.len() - k,
    {
        if v[k] == *s {
            assert(strs(v@)[k as int] == s@);
            return true;
        }
        k += 1;
    }
    false
}

impl FnTable {
    /// Distinct names.
    pub open spec fn wf(&self) -> bool {
        tbl_keys(self@).no_duplicates()
    }

    pub fn new() -> (r: Self)
        ensures
            r@ == Seq::<(Seq<char>, Seq<char>)>::empty(),
            r.wf(),
    {
        let r = FnTable { entries: Vec::new() };
        assert(r@ =~= Seq::<(Seq<char>, Seq<char>)>::empty());
        assert(tbl_keys(r@) =~= Seq::<Seq<char>>::empty());
        r
    }

    pub fn len(&self) -> (n: usize)
        ensures
            n == self@.len(),
    {
        self.entries.len()
    }

    pub fn is_empty(&self) -> (b: bool)
        ensures
            b == (self@.len() == 0),
    {
        self.entries.len() == 0
    }

    pub fn contains_key(&self, key: &str) -> (b: bool)
        ensures
            b == (tbl_find(self@, key@) >= 0),
    {
        let k = String::from_str(key);
        find_entry(&self.entries, &k).is_some()
    }

    pub fn get(&self, key: &str) -> (r: Option<&String>)
        ensures
            match r {
                Some(v) => tbl_get(self@, key@) == Some(v@),
                None => tbl_get(self@, key@) is None,
            },
    {
        let k = String::from_str(key);
        match find_entry(&self.entries, &k) {
            Some(j) => Some(&self.entries[j].1),
            None => None,
        }
    }

    pub fn insert(&mut self, key: String, value: String)
        ensures
            final(self)@ == tbl_insert(old(self)@, key@, value@),
            old(self).wf() ==> final(self).wf(),
    {
        proof {
            if old(self).wf() {
                lemma_tbl_insert_keys(old(self)@, key@, value@);
            }
        }
        let ghost kv = key@;
        let ghost vv = value@;
        match find_entry(&self.entries, &key) {
            Some(j) => {
                self.entries.set(j, (key, value));
            },
            None => {
                self.entries.push((key, value));
            },
        }
        assert(self@ =~= tbl_insert(old(self)@, kv, vv));
    }

    /// The `k`-th entry: a name and its text.
    pub fn entry(&self, k: usize) -> (r: (&String, &String))
        requires
            k < self@.len(),
        ensures
            (r.0@, r.1@) == self@[k as int],
    {
        (&self.entries[k].0, &self.entries[k].1)
    }

    /// The names, in order.
    pub fn keys(&self) -> (r: Vec<String>)
        ensures
            strs(r@) == tbl_keys(self@),
    {
        let mut r: Vec<String> = Vec::new();
        let mut k: usize = 0;
        while k < self.entries.len()
            invariant
                k <= self.entries@.len(),
                strs(r@) == tbl_keys(self@).take(k as int),
            decreases self.entries@.len() - k,
        {
            let key = self.entries[k].0.clone();
            let ghost old_r = r@;
            proof {
                assert(tbl_keys(self@)[k as int] == self.entries@[k as int].0@);
                assert(key@ == self.entries@[k as int].0@);
            }
            r.push(key);
            proof {
                assert(strs(r@) =~= strs(old_r).push(tbl_keys(self@)[k as int]));
                assert(tbl_keys(self@).take(k as int + 1) =~= tbl_keys(self@).take(k as int).push(tbl_keys(self@)[k as int]));
            }
            k += 1;
            assert(strs(r@) =~= tbl_keys(self@).take(k as int));
        }
        assert(tbl_keys(self@).take(k as int) =~= tbl_keys(self@));
        r
    }

    /// A copy of the table.
    pub fn copy(&self) -> (r: Self)
        ensures
            r@ == self@,
    {
        let mut v: Vec<(String, String)> = Vec::new();
        let mut k: usize = 0;
        while k < self.entries.len()
            invariant
                k <= self.entries@.len(),
                pairs_view(v@) == self@.take(k as int),
            decreases self.entries@.len() - k,
        {
            let (a, b) = &self.entries[k];
            let pair = (a.clone(), b.clone());
            let ghost old_v = v@;
            proof {
                assert(self@[k as int] == (self.entries@[k as int].0@, self.entries@[k as int].1@));
                assert((pair.0@, pair.1@) == self@[k as int]);
            }
            v.push(pair);
            proof {
                assert(pairs_view(v@) =~= pairs_view(old_v).push(self@[k as int]));
                assert(self@.take(k as int + 1) =~= self@.take(k as int).push(self@[k as int]));
            }
            k += 1;
            assert(pairs_view(v@) =~= self@.take(k as int));
        }
        assert(self@.take(k as int) =~= self@);
        FnTable { entries: v }
    }
}

// ---------------------------------------------------------------------------
// Executable helpers
// ---------------------------------------------------------------------------

/// The characters `v[lo..hi]`.
pub(crate) fn sub_chars(v: &Vec<char>, lo: usize, hi: usize) -> (r: Vec<char>)
    requires
        lo <= hi <= v@.len(),
    ensures
        r@ == v@.subrange(lo as int, hi as int),
{
    let mut r: Vec<char> = Vec::new();
    let mut k = lo;
    while k < hi
        invariant
            lo <= k <= hi <= v@.len(),
            r@ == v@.subrange(lo as int, k as int),
        decreases hi - k,
    {
        r.push(v[k]);
        k += 1;
        assert(r@ =~= v@.subrange(lo as int, k as int));
    }
    r
}

/// `pos_line_col(src, n)`: the line and column of position `n`.
fn line_col_at(src: &Vec<char>, n: usize) -> (r: (usize, usize))
    ensures
        r == pos_line_col(src@, n as int),
{
    let stop = if n < src.len() { n } else { src.len() };
    let mut line: usize = 1;
    let mut col: usize = 1;
    let mut idx: usize = 0;
    while idx < stop
        invariant
            stop <= src@.len(),
            stop == if n < src@.len() { n as int } else { src@.len() as int },
            idx <= stop,
            (line, col) == pos_line_col(src@, idx as int),
        decreases stop - idx,
    {
        if src[idx] == '\n' {
            line = line.saturating_add(1);
            col = 1;
        } else {
            col = col.saturating_add(1);
        }
        idx += 1;
    }
    (line, col)
}

/// `trim(v)`.
pub(crate) fn trimmed(v: &Vec<char>) -> (r: Vec<char>)
    ensures
        r@ == trim(v@),
{
    let mut lo: usize = 0;
    while lo < v.len() && crate::text::char_is_whitespace(v[lo])
        invariant
            lo <= v@.len(),
            trim_start_at(v@, 0) == trim_start_at(v@, lo as int),
        decreases v@.len() - lo,
    {
        lo += 1;
    }
    let mut hi: usize = v.len();
    while hi > lo && crate::text::char_is_whitespace(v[hi - 1])
        invariant
            lo <= hi <= v@.len(),
            trim_start_at(v@, 0) == lo,
            trim_end_at(v@, lo as int, v@.len() as int) == trim_end_at(v@, lo as int, hi as int),
        decreases hi,
    {
        hi -= 1;
    }
    sub_chars(v, lo, hi)
}

/// Whether `pat` occurs in `text`.
pub(crate) fn contains_seq(text: &Vec<char>, pat: &Vec<char>) -> (r: bool)
    ensures
        r == seq_contains(text@, pat@),
{
    if pat.len() > text.len() {
        assert forall|k: int| !occurs_at(text@, pat@, k) by {}
        return false;
    }
    if pat.len() == 0 {
        assert(text@.subrange(0, 0) =~= pat@);
        assert(occurs_at(text@, pat@, 0));
        return true;
    }
    let last: usize = text.len() - pat.len();
    let mut k: usize = 0;
    while k <= last
        invariant
            0 < pat@.len() <= text@.len(),
            last as int == text@.len() - pat@.len(),
            last < text.len(),
            k <= last + 1,
            forall|x: int| 0 <= x < k ==> !occurs_at(text@, pat@, x),
        decreases last + 1 - k,
    {
        let mut t: usize = 0;
        let mut same = true;
        while same && t < pat.len()
            invariant
                0 < pat@.len() <= text@.len(),
                k + pat.len() <= text.len(),
                t <= pat@.len(),
                forall|y: int| 0 <= y < t ==> text@[k + y] == pat@[y],
                !same ==> t < pat@.len() && text@[k + t] != pat@[t as int],
            decreases pat@.len() - t + (if same { 1int } else { 0int }),
        {
            if text[k + t] == pat[t] {
                t += 1;
            } else {
                same = false;
            }
        }
        if same {
            assert(text@.subrange(k as int, k + pat@.len()) =~= pat@);
            assert(occurs_at(text@, pat@, k as int));
            return true;
        }
        assert(text@.subrange(k as int, k + pat@.len())[t as int] != pat@[t as int]);
        k += 1;
    }
    assert forall|x: int| !occurs_at(text@, pat@, x) by {
        if 0 <= x < k {
        }
    }
    false
}

pub open spec fn cap4(x: nat) -> nat {
    if x < 4 { x } else { 4 }
}

proof fn lemma_lev_step(a: Seq<char>, b: Seq<char>, i: int, j: int)
    requires
        0 <= i < a.len(),
        0 <= j < b.len(),
    ensures
        lev(a.take(i + 1), b.take(j + 1)) == min3(
            lev(a.take(i), b.take(j + 1)) + 1,
            lev(a.take(i + 1), b.take(j)) + 1,
            lev(a.take(i), b.take(j)) + if a[i] == b[j] { 0nat } else { 1nat },
        ),
{
    assert(a.take(i + 1).drop_last() =~= a.take(i));
    assert(b.take(j + 1).drop_last() =~= b.take(j));
}

/// Levenshtein distance, counted up to 4: `min(lev(a, b), 4)`.
fn edit_distance_upto4(a: &Vec<char>, b: &Vec<char>) -> (d: usize)
    ensures
        d == cap4(lev(a@, b@)),
{
    let m = b.len();
    let mut prev: Vec<usize> = Vec::new();
    let mut j: usize = 0;
    while j < m
        invariant
            m == b@.len(),
            j <= m,
            prev@.len() == j,
            forall|x: int| 0 <= x < j ==> prev@[x] == cap4(lev(a@.take(0), b@.take(x))),
        decreases m - j,
    {
        proof {
            assert(a@.take(0).len() == 0);
        }
        prev.push(if j < 4 { j } else { 4 });
        j += 1;
    }
    proof {
        assert(a@.take(0).len() == 0);
    }
    prev.push(if m < 4 { m } else { 4 });
    let mut i: usize = 0;
    while i < a.len()
        invariant
            m == b@.len(),
            i <= a@.len(),
            prev@.len() == m + 1,
            forall|x: int| 0 <= x <= m ==> prev@[x] == cap4(lev(a@.take(i as int), b@.take(x))),
        decreases a@.len() - i,
    {
        let mut curr: Vec<usize> = Vec::new();
        proof {
            assert(b@.take(0).len() == 0);
            assert(a@.take(i + 1).len() == i + 1);
        }
        curr.push(if i + 1 < 4 { i + 1 } else { 4 });
        let mut jj: usize = 0;
        while jj < m
            invariant
                m == b@.len(),
                i < a@.len(),
                jj <= m,
                prev@.len() == m + 1,
                curr@.len() == jj + 1,
                forall|x: int| 0 <= x <= m ==> prev@[x] == cap4(lev(a@.take(i as int), b@.take(x))),
                forall|x: int| 0 <= x <= jj ==> curr@[x] == cap4(lev(a@.take(i + 1), b@.take(x))),
            decreases m - jj,
        {
            let cost: usize = if a[i] == b[jj] { 0 } else { 1 };
            let x1 = prev[jj] + cost;
            let x2 = prev[jj + 1] + 1;
            let x3 = curr[jj] + 1;
            let mut v = x1;
            if x2 < v {
                v = x2;
            }
            if x3 < v {
                v = x3;
            }
            if v > 4 {
                v = 4;
            }
            proof {
                lemma_lev_step(a@, b@, i as int, jj as int);
            }
            curr.push(v);
            jj += 1;
        }
        prev = curr;
        i += 1;
    }
    proof {
        assert(a@.take(a@.len() as int) =~= a@);
        assert(b@.take(m as int) =~= b@);
    }
    prev[m]
}

/// Get the source code for a standard library module by name.
pub fn get_stdlib_module(name: &str) -> (r: Option<&'static str>)
    ensures
        match r {
            Some(t) => std_text(name@) == Some(t@),
            None => std_text(name@) is None,
        },
{
    let n = String::from_str(name);
    if n == String::from_str("ascii") {
        Some(STDLIB_ASCII)
    } else if n == String::from_str("cli") {
        Some(STDLIB_CLI)
    } else if n == String::from_str("convert") {
        Some(STDLIB_CONVERT)
    } else if n == String::from_str("debug") {
        Some(STDLIB_DEBUG)
    } else if n == String::from_str("io") {
        Some(STDLIB_IO)
    } else if n == String::from_str("logic") {
        Some(STDLIB_LOGIC)
    } else if n == String::from_str("math") {
        Some(STDLIB_MATH)
    } else if n == String::from_str("memory") {
        Some(STDLIB_MEMORY)
    } else if n == String::from_str("string") {
        Some(STDLIB_STRING)
    } else {
        None
    }
}

/// List all available standard library module names.
pub fn stdlib_modules() -> (r: Vec<&'static str>)
    ensures
        r@.len() == std_names().len(),
        forall|k: int| 0 <= k < r@.len() ==> (#[trigger] r@[k])@ == std_names()[k],
{
    let r: Vec<&'static str> = vec!["ascii", "cli", "convert", "debug", "io", "logic", "math", "memory", "string"];
    r
}

/// The module names as strings.
fn std_name_strings() -> (r: Vec<String>)
    ensures
        strs(r@) == std_names(),
{
    let mut r: Vec<String> = Vec::new();
    r.push(String::from_str("ascii"));
    r.push(String::from_str("cli"));
    r.push(String::from_str("convert"));
    r.push(String::from_str("debug"));
    r.push(String::from_str("io"));
    r.push(String::from_str("logic"));
    r.push(String::from_str("math"));
    r.push(String::from_str("memory"));
    r.push(String::from_str("string"));
    assert(strs(r@) =~= std_names());
    r
}

/// The position in `cands` of `best_match(cands, name)`.
fn best_suggestion(cands: &Vec<String>, name: &Vec<char>) -> (r: Option<usize>)
    ensures
        match r {
            Some(k) => k < cands@.len() && best_match(strs(cands@), name@) == Some(cands@[k as int]@),
            None => best_match(strs(cands@), name@) is None,
        },
{
    let mut best: Option<usize> = None;
    let mut best_d: usize = 0;
    let mut k: usize = 0;
    while k < cands.len()
        invariant
            k <= cands@.len(),
            match best {
                Some(b) => b < k && best_match(strs(cands@).take(k as int), name@) == Some(cands@[b as int]@)
                    && best_d == lev(name@, cands@[b as int]@) && 0 < best_d <= 3,
                None => best_match(strs(cands@).take(k as int), name@) is None,
            },
        decreases cands@.len() - k,
    {
        let c = str_to_chars(cands[k].as_str());
        let d = edit_distance_upto4(name, &c);
        proof {
            assert(strs(cands@).take(k as int + 1).drop_last() =~= strs(cands@).take(k as int));
            assert(strs(cands@).take(k as int + 1).last() == cands@[k as int]@);
        }
        if 0 < d && d <= 3 {
            let better = match best {
                Some(_) => d < best_d,
                None => true,
            };
            if better {
                best = Some(k);
                best_d = d;
            }
        }
        k += 1;
    }
    assert(strs(cands@).take(k as int) =~= strs(cands@));
    best
}

/// Append `did_you_mean(best_match(cands, name))`.
fn push_did_you_mean(out: &mut Vec<char>, cands: &Vec<String>, name: &Vec<char>)
    ensures
        final(out)@ == old(out)@ + did_you_mean(best_match(strs(cands@), name@)),
{
    match best_suggestion(cands, name) {
        Some(k) => {
            push_str(out, ". Did you mean '");
            push_str(out, cands[k].as_str());
            push_str(out, "'?");
            assert(out@ =~= old(out)@ + did_you_mean(best_match(strs(cands@), name@)));
        },
        None => {
            assert(out@ =~= old(out)@ + did_you_mean(best_match(strs(cands@), name@)));
        },
    }
}

/// Append `join(parts, sep)`.
pub(crate) fn push_joined(out: &mut Vec<char>, parts: &Vec<String>, sep: &str)
    ensures
        final(out)@ == old(out)@ + join(strs(parts@), sep@),
{
    let ghost start = out@;
    let mut k: usize = 0;
    while k < parts.len()
        invariant
            k <= parts@.len(),
            out@ == start + join(strs(parts@).take(k as int), sep@),
        decreases parts@.len() - k,
    {
        proof {
            assert(strs(parts@).take(k as int + 1).drop_last() =~= strs(parts@).take(k as int));
        }
        if k > 0 {
            push_str(out, sep);
        }
        push_str(out, parts[k].as_str());
        k += 1;
        proof {
            if k == 1 {
                assert(strs(parts@).take(1)[0] == parts@[0]@);
                assert(join(strs(parts@).take(0), sep@) =~= Seq::<char>::empty());
                assert(out@ =~= start + join(strs(parts@).take(k as int), sep@));
            } else {
                assert(out@ =~= start + join(strs(parts@).take(k as int), sep@));
            }
        }
    }
    assert(strs(parts@).take(k as int) =~= strs(parts@));
}

/// The standard modules that define a function `name`, in order.
fn modules_with_fn(name: &Vec<char>) -> (r: Vec<String>)
    ensures
        strs(r@) == modules_defining(name@, 9),
{
    let names = std_name_strings();
    let mut pat: Vec<char> = Vec::new();
    push_str(&mut pat, "@fn ");
    push_chars(&mut pat, name);
    push_str(&mut pat, " {");
    assert(pat@ =~= "@fn "@ + name@ + " {"@);
    let mut r: Vec<String> = Vec::new();
    let mut k: usize = 0;
    while k < names.len()
        invariant
            strs(names@) == std_names(),
            pat@ == "@fn "@ + name@ + " {"@,
            k <= names@.len(),
            strs(r@) == modules_defining(name@, k as int),
        decreases names@.len() - k,
    {
        let m = &names[k];
        assert(m@ == std_names()[k as int]);
        let text = match get_stdlib_module(m.as_str()) {
            Some(t) => t,
            None => {
                assert(false);
                ""
            },
        };
        let tc = str_to_chars(text);
        if contains_seq(&tc, &pat) {
            r.push(m.clone());
            assert(strs(r@) =~= modules_defining(name@, k as int + 1));
        } else {
            assert(strs(r@) =~= modules_defining(name@, k as int + 1));
        }
        k += 1;
    }
    r
}

/// Build a helpful error message for unknown function calls.
fn unknown_function_message(name: &Vec<char>, known: &FnTable) -> (r: String)
    ensures
        r@ == unknown_function_text(name@, tbl_keys(known@)),
{
    let mut out: Vec<char> = Vec::new();
    push_str(&mut out, "unknown function: '");
    push_chars(&mut out, name);
    push_str(&mut out, "'");
    let keys = known.keys();
    push_did_you_mean(&mut out, &keys, name);
    let mods = modules_with_fn(name);
    let ghost before = out@;
    if mods.len() > 0 {
        push_str(&mut out, "\n  hint: '");
        push_chars(&mut out, name);
        push_str(&mut out, "' is defined in ");
        let mut paths: Vec<String> = Vec::new();
        let mut k: usize = 0;
        while k < mods.len()
            invariant
                k <= mods@.len(),
                strs(paths@) == std_paths(strs(mods@)).take(k as int),
            decreases mods@.len() - k,
        {
            let mut p: Vec<char> = Vec::new();
            push_str(&mut p, "std/");
            push_str(&mut p, mods[k].as_str());
            push_str(&mut p, ".bf");
            let ps = chars_to_string(&p);
            proof {
                lemma_strs_push(paths@, ps);
                assert(std_paths(strs(mods@)).take(k as int + 1) =~= std_paths(strs(mods@)).take(k as int).push(
                    "std/"@ + mods@[k as int]@ + ".bf"@));
                assert(ps@ =~= "std/"@ + mods@[k as int]@ + ".bf"@);
            }
            paths.push(ps);
            k += 1;
            assert(strs(paths@) =~= std_paths(strs(mods@)).take(k as int));
        }
        assert(std_paths(strs(mods@)).take(k as int) =~= std_paths(strs(mods@)));
        push_joined(&mut out, &paths, ", ");
        push_str(&mut out, ". Add: @import \"std/");
        push_str(&mut out, mods[0].as_str());
        push_str(&mut out, ".bf\"");
        assert(out@ =~= before + module_hint(name@));
    } else {
        assert(out@ =~= before + module_hint(name@));
    }
    assert(out@ =~= unknown_function_text(name@, tbl_keys(known@)));
    chars_to_string(&out)
}

/// Build a helpful error message for unknown stdlib module imports.
fn unknown_module_message(name: &Vec<char>) -> (r: String)
    ensures
        r@ == unknown_module_text(name@),
{
    let names = std_name_strings();
    let mut out: Vec<char> = Vec::new();
    push_str(&mut out, "unknown standard library module: '");
    push_chars(&mut out, name);
    push_str(&mut out, "'");
    push_did_you_mean(&mut out, &names, name);
    push_str(&mut out, "\n  available modules: ");
    push_joined(&mut out, &names, ", ");
    assert(out@ =~= unknown_module_text(name@));
    chars_to_string(&out)
}

/// The message of a call cycle.
fn cycle_message(stack: &Vec<String>, name: &String) -> (r: String)
    ensures
        r@ == cycle_text(strs(stack@), name@),
{
    let mut parts: Vec<String> = Vec::new();
    let mut k: usize = 0;
    while k < stack.len()
        invariant
            k <= stack@.len(),
            strs(parts@) == strs(stack@).take(k as int),
        decreases stack@.len() - k,
    {
        let sk = stack[k].clone();
        proof {
            lemma_strs_push(parts@, sk);
            assert(strs(stack@).take(k as int + 1) =~= strs(stack@).take(k as int).push(stack@[k as int]@));
        }
        parts.push(sk);
        k += 1;
    }
    let nm = name.clone();
    proof {
        lemma_strs_push(parts@, nm);
        assert(strs(stack@).take(k as int) =~= strs(stack@));
    }
    parts.push(nm);
    let mut out: Vec<char> = Vec::new();
    push_joined(&mut out, &parts, " → ");
    assert(out@ =~= cycle_text(strs(stack@), name@));
    chars_to_string(&out)
}

// ---------------------------------------------------------------------------
// The preprocessor
// ---------------------------------------------------------------------------

pub proof fn lemma_locs_push(v: Seq<SourceLocation>, l: SourceLocation)
    ensures
        locs_view(v.push(l)) == locs_view(v).push(l@),
{
    assert(locs_view(v.push(l)) =~= locs_view(v).push(l@));
}

/// The directive keywords are different words.
pub proof fn lemma_keywords()
    ensures
        "import"@ != "doc"@, "import"@ != "fn"@, "import"@ != "call"@, "import"@ != "const"@,
        "import"@ != "use"@, "doc"@ != "fn"@, "doc"@ != "call"@, "doc"@ != "const"@, "doc"@ != "use"@,
        "fn"@ != "call"@, "fn"@ != "const"@, "fn"@ != "use"@, "call"@ != "const"@, "call"@ != "use"@,
        "const"@ != "use"@,
{
    reveal_strlit("import");
    reveal_strlit("doc");
    reveal_strlit("fn");
    reveal_strlit("call");
    reveal_strlit("const");
    reveal_strlit("use");
    assert("import"@.len() != "doc"@.len());
    assert("import"@.len() != "fn"@.len());
    assert("import"@.len() != "call"@.len());
    assert("import"@.len() != "const"@.len());
    assert("import"@.len() != "use"@.len());
    assert("doc"@.len() != "fn"@.len());
    assert("doc"@.len() != "call"@.len());
    assert("doc"@.len() != "const"@.len());
    assert("doc"@[0] != "use"@[0]);
    assert("fn"@.len() != "call"@.len());
    assert("fn"@.len() != "const"@.len());
    assert("fn"@.len() != "use"@.len());
    assert("call"@.len() != "const"@.len());
    assert("call"@.len() != "use"@.len());
    assert("const"@.len() != "use"@.len());
}

/// Two-pass macro preprocessor for @fn/@call/@import directives.
///
/// Pass 1 (collect): resolve @import recursively, accumulate @fn bodies,
/// return top-level BF code (with @call markers preserved).
///
/// Pass 2 (expand): replace every @call with the recursively-expanded body,
/// using a call-stack Vec for cycle detection.
pub struct Preprocessor {
    functions: FnTable,
    fn_docs: FnTable,
    constants: Vec<(String, usize)>,
    imported: Vec<String>,
    /// Track which file each @fn body came from.
    fn_origins: FnTable,
    /// Locations of the top-level characters read so far.
    source_map: Vec<SourceLocation>,
}

impl View for Preprocessor {
    type V = PreState;

    closed spec fn view(&self) -> PreState {
        PreState {
            functions: self.functions@,
            docs: self.fn_docs@,
            constants: consts_view(self.constants@),
            imported: strs(self.imported@),
            origins: self.fn_origins@,
            map: locs_view(self.source_map@),
        }
    }
}

/// Where the collect pass stands in one source (executable form of [`Cursor`]).
struct Scan {
    top: Vec<char>,
    doc: Vec<char>,
    line: usize,
    col: usize,
}

impl View for Scan {
    type V = Cursor;

    closed spec fn view(&self) -> Cursor {
        Cursor { top: self.top@, doc: self.doc@, line: self.line, col: self.col }
    }
}

impl Scan {
    fn new() -> (r: Self)
        ensures
            r@ == fresh_cursor(),
    {
        let r = Scan { top: Vec::new(), doc: Vec::new(), line: 1, col: 1 };
        assert(r@ =~= fresh_cursor());
        r
    }
}

/// `"@fn " + name + tail` as a string.
fn fn_message(name: &String, tail: &str) -> (r: String)
    ensures
        r@ == "@fn "@ + name@ + tail@,
{
    let mut v: Vec<char> = Vec::new();
    push_str(&mut v, "@fn ");
    push_str(&mut v, name.as_str());
    push_str(&mut v, tail);
    assert(v@ =~= "@fn "@ + name@ + tail@);
    chars_to_string(&v)
}

/// `pre + s` as a string.
fn prefixed(pre: &str, s: &String) -> (r: String)
    ensures
        r@ == pre@ + s@,
{
    let mut v: Vec<char> = Vec::new();
    push_str(&mut v, pre);
    push_str(&mut v, s.as_str());
    chars_to_string(&v)
}

/// The value of the digits `v[lo..hi]`, or `None` when it does not fit in `usize`.
fn parse_digits(v: &Vec<char>, lo: usize, hi: usize) -> (r: Option<usize>)
    requires
        lo <= hi <= v@.len(),
        forall|k: int| lo <= k < hi ==> '0' <= #[trigger] v@[k] <= '9',
    ensures
        match r {
            Some(n) => n as nat == digits_value(v@.subrange(lo as int, hi as int)),
            None => digits_value(v@.subrange(lo as int, hi as int)) > usize::MAX,
        },
{
    let mut acc: usize = 0;
    let mut ok = true;
    let mut t = lo;
    while t < hi
        invariant
            lo <= t <= hi <= v@.len(),
            forall|k: int| lo <= k < hi ==> '0' <= #[trigger] v@[k] <= '9',
            ok ==> acc as nat == digits_value(v@.subrange(lo as int, t as int)),
            !ok ==> digits_value(v@.subrange(lo as int, t as int)) > usize::MAX,
        decreases hi - t,
    {
        let c = v[t];
        let dig: usize = ((c as u32) - ('0' as u32)) as usize;
        proof {
            let sub = v@.subrange(lo as int, t + 1);
            assert(sub.drop_last() =~= v@.subrange(lo as int, t as int));
            assert(sub.last() == c);
        }
        if ok {
            match acc.checked_mul(10) {
                Some(x) => match x.checked_add(dig) {
                    Some(y) => {
                        acc = y;
                    },
                    None => {
                        ok = false;
                    },
                },
                None => {
                    ok = false;
                },
            }
        }
        t += 1;
    }
    if ok { Some(acc) } else { None }
}

impl Preprocessor {
    fn new() -> (r: Self)
        ensures
            r@ == initial_state(Seq::empty()),
            r.functions.wf(),
    {
        let r = Preprocessor {
            functions: FnTable::new(),
            fn_docs: FnTable::new(),
            constants: Vec::new(),
            imported: Vec::new(),
            fn_origins: FnTable::new(),
            source_map: Vec::new(),
        };
        assert(r@ =~= initial_state(Seq::empty()));
        r
    }

    /// A preprocessor that already knows the given functions.
    fn with_functions(functions: FnTable) -> (r: Self)
        requires
            functions.wf(),
        ensures
            r@ == initial_state(functions@),
            r.functions.wf(),
    {
        let r = Preprocessor {
            functions,
            fn_docs: FnTable::new(),
            constants: Vec::new(),
            imported: Vec::new(),
            fn_origins: FnTable::new(),
            source_map: Vec::new(),
        };
        assert(r@ =~= initial_state(functions@));
        r
    }

    /// A top-level character that is not a directive.
    fn regular(&mut self, src: &Vec<char>, file: &String, i: usize, cur: &mut Scan)
        requires
            i < src@.len(),
            !is_directive_at(src@, i as int),
        ensures
            collect_step(src@, file@, i as int, old(self)@, old(cur)@) == Ok::<(int, PreState, Cursor), Fail>(
                (i + 1, final(self)@, final(cur)@),
            ),
            final(self).functions == old(self).functions,
    {
        let c = src[i];
        let loc = SourceLocation::new(file.clone(), cur.line, cur.col);
        self.source_map.push(loc);
        cur.top.push(c);
        if c == '\n' {
            cur.line = cur.line.saturating_add(1);
            cur.col = 1;
        } else {
            cur.col = cur.col.saturating_add(1);
        }
        proof {
            lemma_locs_push(old(self).source_map@, loc);
        }
        assert(self@ =~= (PreState { map: old(self)@.map.push(loc@), ..old(self)@ }));
    }

    /// `@doc text`: a doc line for the next `@fn`.
    fn directive_doc(&mut self, src: &Vec<char>, file: &String, i: usize, j: usize, cur: &mut Scan) -> (k: usize)
        requires
            is_directive_at(src@, i as int),
            j as int == ident_end(src@, i + 1),
            src@.subrange(i + 1, j as int) == "doc"@,
        ensures
            collect_step(src@, file@, i as int, old(self)@, old(cur)@) == Ok::<(int, PreState, Cursor), Fail>(
                (k as int, final(self)@, final(cur)@),
            ),
            final(self).functions == old(self).functions,
            i < k <= src@.len(),
    {
        proof {
            lemma_keywords();
        }
        proof {
            lemma_ident_end(src@, i + 1);
            lemma_spaces_end(src@, j as int);
        }
        let mut k = j;
        skip_spaces(src.as_slice(), &mut k);
        let (_, c2) = line_col_at(src, k);
        let mut e = k;
        while e < src.len() && src[e] != '\n'
            invariant
                k <= e <= src@.len(),
                line_end(src@, k as int) == line_end(src@, e as int),
            decreases src@.len() - e,
        {
            e += 1;
        }
        let text = sub_chars(src, k, e);
        let t = trimmed(&text);
        if cur.doc.len() > 0 {
            cur.doc.push('\n');
        }
        push_chars(&mut cur.doc, &t);
        cur.col = c2.saturating_add(e - k);
        proof {
            assert(cur@.doc =~= (if old(cur)@.doc.len() > 0 { old(cur)@.doc.push('\n') } else { old(cur)@.doc })
                + trim(src@.subrange(k as int, e as int)));
        }
        e
    }

    /// `@fn name { body }`: define a function.
    fn directive_fn(&mut self, src: &Vec<char>, file: &String, i: usize, j: usize, cur: &mut Scan) -> (r: Result<usize, OgreError>)
        requires
            is_directive_at(src@, i as int),
            j as int == ident_end(src@, i + 1),
            src@.subrange(i + 1, j as int) == "fn"@,
        ensures
            match r {
                Ok(k) => collect_step(src@, file@, i as int, old(self)@, old(cur)@) == Ok::<(int, PreState, Cursor), Fail>(
                    (k as int, final(self)@, final(cur)@),
                ) && i < k <= src@.len(),
                Err(e) => collect_step(src@, file@, i as int, old(self)@, old(cur)@) == Err::<(int, PreState, Cursor), Fail>(e@),
            },
            old(self).functions.wf() ==> final(self).functions.wf(),
    {
        proof {
            lemma_keywords();
        }
        proof {
            lemma_ident_end(src@, i + 1);
            lemma_spaces_end(src@, j as int);
        }
        let mut k = j;
        skip_spaces(src.as_slice(), &mut k);
        proof {
            lemma_ident_end(src@, k as int);
        }
        let mut e = k;
        let name = take_identifier(src.as_slice(), &mut e);
        if name.as_str().is_empty() {
            return Err(OgreError::Other(String::from_str("@fn: missing function name")));
        }
        proof {
            lemma_ws_end(src@, e as int);
        }
        let mut w = e;
        skip_whitespace(src.as_slice(), &mut w);
        if w >= src.len() || src[w] != '{' {
            let mut v: Vec<char> = Vec::new();
            push_str(&mut v, "@fn ");
            push_str(&mut v, name.as_str());
            push_str(&mut v, ": expected '{', found ");
            push_found_debug(&mut v, src.as_slice(), w);
            assert(v@ =~= "@fn "@ + name@ + ": expected '{', found "@ + found_debug(src@, w as int));
            return Err(OgreError::Other(chars_to_string(&v)));
        }
        let mut b = w + 1;
        proof {
            lemma_brace_close(src@, b as int, 1);
        }
        let body = match take_brace_body(src.as_slice(), &mut b) {
            Ok(body) => body,
            Err(_) => {
                return Err(OgreError::Other(fn_message(&name, ": unclosed '{'")));
            },
        };
        let (l, c) = line_col_at(src, b);
        if cur.doc.len() > 0 {
            let d = chars_to_string(&cur.doc);
            self.fn_docs.insert(name.clone(), d);
            cur.doc = Vec::new();
        }
        self.fn_origins.insert(name.clone(), file.clone());
        self.functions.insert(name, body);
        cur.line = l;
        cur.col = c;
        proof {
            assert(cur@.doc =~= Seq::<char>::empty());
        }
        Ok(b)
    }

    /// `@call name`: keep a marker for the expand pass.
    fn directive_call(&mut self, src: &Vec<char>, file: &String, i: usize, j: usize, cur: &mut Scan) -> (r: Result<usize, OgreError>)
        requires
            is_directive_at(src@, i as int),
            j as int == ident_end(src@, i + 1),
            src@.subrange(i + 1, j as int) == "call"@,
        ensures
            match r {
                Ok(k) => collect_step(src@, file@, i as int, old(self)@, old(cur)@) == Ok::<(int, PreState, Cursor), Fail>(
                    (k as int, final(self)@, final(cur)@),
                ) && i < k <= src@.len(),
                Err(e) => collect_step(src@, file@, i as int, old(self)@, old(cur)@) == Err::<(int, PreState, Cursor), Fail>(e@),
            },
            *final(self) == *old(self),
    {
        proof {
            lemma_keywords();
        }
        proof {
            lemma_ident_end(src@, i + 1);
            lemma_spaces_end(src@, j as int);
        }
        let mut k = j;
        skip_spaces(src.as_slice(), &mut k);
        proof {
            lemma_ident_end(src@, k as int);
        }
        let (_, c2) = line_col_at(src, k);
        let mut e = k;
        let name = take_identifier(src.as_slice(), &mut e);
        if name.as_str().is_empty() {
            return Err(OgreError::Other(String::from_str("@call: missing function name")));
        }
        push_str(&mut cur.top, "@call ");
        push_str(&mut cur.top, name.as_str());
        cur.col = c2;
        proof {
            assert(cur@.top =~= old(cur)@.top + "@call "@ + name@);
        }
        Ok(e)
    }

    /// `@const NAME value`: define a constant.
    fn directive_const(&mut self, src: &Vec<char>, file: &String, i: usize, j: usize, cur: &mut Scan) -> (r: Result<usize, OgreError>)
        requires
            is_directive_at(src@, i as int),
            j as int == ident_end(src@, i + 1),
            src@.subrange(i + 1, j as int) == "const"@,
        ensures
            match r {
                Ok(k) => collect_step(src@, file@, i as int, old(self)@, old(cur)@) == Ok::<(int, PreState, Cursor), Fail>(
                    (k as int, final(self)@, final(cur)@),
                ) && i < k <= src@.len(),
                Err(e) => collect_step(src@, file@, i as int, old(self)@, old(cur)@) == Err::<(int, PreState, Cursor), Fail>(e@),
            },
            final(self).functions == old(self).functions,
    {
        proof {
            lemma_keywords();
        }
        proof {
            lemma_ident_end(src@, i + 1);
            lemma_spaces_end(src@, j as int);
        }
        let mut k = j;
        skip_spaces(src.as_slice(), &mut k);
        proof {
            lemma_ident_end(src@, k as int);
        }
        let mut e = k;
        let name = take_identifier(src.as_slice(), &mut e);
        if name.as_str().is_empty() {
            return Err(OgreError::Other(String::from_str("@const: missing constant name")));
        }
        proof {
            lemma_spaces_end(src@, e as int);
        }
        let mut k2 = e;
        skip_spaces(src.as_slice(), &mut k2);
        let (_, c3) = line_col_at(src, k2);
        let mut d = k2;
        while d < src.len() && '0' <= src[d] && src[d] <= '9'
            invariant
                k2 <= d <= src@.len(),
                digits_end(src@, k2 as int) == digits_end(src@, d as int),
                forall|x: int| k2 <= x < d ==> '0' <= #[trigger] src@[x] <= '9',
            decreases src@.len() - d,
        {
            d += 1;
        }
        if d == k2 {
            return Err(OgreError::Other(fn_like_message("@const ", &name, ": expected numeric value")));
        }
        match parse_digits(src, k2, d) {
            None => {
                let num = sub_chars(src, k2, d);
                let mut v: Vec<char> = Vec::new();
                push_str(&mut v, "@const ");
                push_str(&mut v, name.as_str());
                push_str(&mut v, ": invalid value \"");
                push_chars(&mut v, &num);
                push_str(&mut v, "\"");
                assert(v@ =~= "@const "@ + name@ + ": invalid value \""@ + num@ + "\""@);
                Err(OgreError::Other(chars_to_string(&v)))
            },
            Some(value) => {
                let ghost nm = name@;
                insert_const(&mut self.constants, name, value);
                cur.col = c3.saturating_add(d - k2);
                proof {
                    assert(self@ =~= (PreState {
                        constants: tbl_insert(old(self)@.constants, nm, value),
                        ..old(self)@
                    }));
                }
                Ok(d)
            },
        }
    }

    /// `@use NAME`: as many `+` as the constant.
    fn directive_use(&mut self, src: &Vec<char>, file: &String, i: usize, j: usize, cur: &mut Scan) -> (r: Result<usize, OgreError>)
        requires
            is_directive_at(src@, i as int),
            j as int == ident_end(src@, i + 1),
            src@.subrange(i + 1, j as int) == "use"@,
        ensures
            match r {
                Ok(k) => collect_step(src@, file@, i as int, old(self)@, old(cur)@) == Ok::<(int, PreState, Cursor), Fail>(
                    (k as int, final(self)@, final(cur)@),
                ) && i < k <= src@.len(),
                Err(e) => collect_step(src@, file@, i as int, old(self)@, old(cur)@) == Err::<(int, PreState, Cursor), Fail>(e@),
            },
            final(self).functions == old(self).functions,
    {
        proof {
            lemma_keywords();
        }
        proof {
            lemma_ident_end(src@, i + 1);
            lemma_spaces_end(src@, j as int);
        }
        let col1 = cur.col.saturating_add(1).saturating_add(j - (i + 1));
        let mut k = j;
        skip_spaces(src.as_slice(), &mut k);
        proof {
            lemma_ident_end(src@, k as int);
        }
        let (_, c2) = line_col_at(src, k);
        let mut e = k;
        let name = take_identifier(src.as_slice(), &mut e);
        if name.as_str().is_empty() {
            return Err(OgreError::Other(String::from_str("@use: missing constant name")));
        }
        match find_const(&self.constants, &name) {
            None => Err(OgreError::Other(prefixed("undefined constant: @use ", &name))),
            Some(idx) => {
                let v = self.constants[idx].1;
                let ghost map0 = locs_view(self.source_map@);
                let ghost top0 = cur.top@;
                let line = cur.line;
                let mut x: usize = 0;
                while x < v
                    invariant
                        x <= v,
                        locs_view(self.source_map@) == map0 + use_locs(file@, line, col1, v).take(x as int),
                        cur.top@ == top0 + pluses(x as nat),
                        cur.line == line,
                        self.functions == old(self).functions,
                        self.fn_docs == old(self).fn_docs,
                        self.fn_origins == old(self).fn_origins,
                        self.constants == old(self).constants,
                        self.imported == old(self).imported,
                        cur.doc == old(cur).doc,
                        cur.col == old(cur).col,
                    decreases v - x,
                {
                    cur.top.push('+');
                    let loc = SourceLocation::new(file.clone(), line, col1.saturating_add(x));
                    proof {
                        lemma_locs_push(self.source_map@, loc);
                        assert(use_locs(file@, line, col1, v).take(x + 1) =~= use_locs(file@, line, col1, v).take(
                            x as int).push(loc@));
                    }
                    self.source_map.push(loc);
                    x += 1;
                    proof {
                        assert(cur.top@ =~= top0 + pluses(x as nat));
                        assert(locs_view(self.source_map@) =~= map0 + use_locs(file@, line, col1, v).take(x as int));
                    }
                }
                cur.col = c2;
                proof {
                    assert(use_locs(file@, line, col1, v).take(v as int) =~= use_locs(file@, line, col1, v));
                    assert(self@ =~= (PreState { map: old(self)@.map + use_locs(file@, old(cur)@.line, col1, v), ..old(self)@ }));
                }
                Ok(e)
            },
        }
    }
}

/// `pre + name + tail` as a string.
fn fn_like_message(pre: &str, name: &String, tail: &str) -> (r: String)
    ensures
        r@ == pre@ + name@ + tail@,
{
    let mut v: Vec<char> = Vec::new();
    push_str(&mut v, pre);
    push_str(&mut v, name.as_str());
    push_str(&mut v, tail);
    assert(v@ =~= pre@ + name@ + tail@);
    chars_to_string(&v)
}

/// Whether a path names a standard module: it begins with `std/`.
fn is_std_path(p: &Vec<char>) -> (b: bool)
    ensures
        b == seq_starts_with(p@, "std/"@),
        b ==> p@.len() >= 4,
{
    proof {
        reveal_strlit("std/");
    }
    if p.len() < 4 {
        return false;
    }
    let b = p[0] == 's' && p[1] == 't' && p[2] == 'd' && p[3] == '/';
    proof {
        if b {
            assert(p@.take(4) =~= "std/"@);
        } else {
            assert(p@.take(4) != "std/"@) by {
                if p@.take(4) == "std/"@ {
                    assert(p@.take(4)[0] == 's');
                    assert(p@.take(4)[1] == 't');
                    assert(p@.take(4)[2] == 'd');
                    assert(p@.take(4)[3] == '/');
                }
            }
        }
    }
    b
}

/// The module that a standard library path names.
fn std_module_of(p: &Vec<char>) -> (m: Vec<char>)
    requires
        p@.len() >= 4,
    ensures
        m@ == std_module_name(p@),
{
    proof {
        reveal_strlit(".bf");
    }
    let rest = sub_chars(p, 4, p.len());
    assert(rest@ =~= p@.skip(4));
    let n = rest.len();
    if n >= 3 && rest[n - 3] == '.' && rest[n - 2] == 'b' && rest[n - 1] == 'f' {
        assert(rest@.skip(n - 3) =~= ".bf"@);
        let m = sub_chars(&rest, 0, n - 3);
        assert(m@ =~= rest@.take(n - 3));
        m
    } else {
        assert(!seq_ends_with(rest@, ".bf"@)) by {
            if seq_ends_with(rest@, ".bf"@) {
                assert(rest@.skip(n - 3)[0] == '.');
                assert(rest@.skip(n - 3)[1] == 'b');
                assert(rest@.skip(n - 3)[2] == 'f');
            }
        }
        rest
    }
}

impl Preprocessor {
    /// `@import "path"`: read the functions of a standard module or of a file.
    fn directive_import(
        &mut self,
        files: &[SourceFile],
        src: &Vec<char>,
        base_dir: &String,
        file: &String,
        i: usize,
        j: usize,
        cur: &mut Scan,
        fuel: usize,
    ) -> (r: Result<usize, OgreError>)
        requires
            is_directive_at(src@, i as int),
            j as int == ident_end(src@, i + 1),
            kw_at(src@, i as int) == "import"@,
            old(self).functions.wf(),
        ensures
            final(self).functions.wf(),
            match r {
                Ok(k2) => i < k2 <= src@.len() && collect_from(files_view(files@), src@, base_dir@, file@, i as int,
                    old(self)@, old(cur)@, fuel as nat) == collect_from(files_view(files@), src@, base_dir@, file@,
                    k2 as int, final(self)@, final(cur)@, fuel as nat),
                Err(e) => collect_from(files_view(files@), src@, base_dir@, file@, i as int, old(self)@, old(cur)@,
                    fuel as nat) == Err::<(PreState, Seq<char>), Fail>(e@),
            },
        decreases fuel, 0nat,
    {
        proof {
            lemma_ident_end(src@, i + 1);
            lemma_spaces_end(src@, j as int);
        }
        let mut k = j;
        skip_spaces(src.as_slice(), &mut k);
        proof {
            if k < src@.len() {
                lemma_quote_close(src@, k + 1);
            }
        }
        let path = match take_quoted_string(src.as_slice(), &mut k) {
            Ok(p) => p,
            Err(e) => {
                let m = e.message();
                return Err(OgreError::Other(prefixed("@import: ", &m)));
            },
        };
        let k2 = k;
        let (_, c3) = line_col_at(src, k2);
        let pc = str_to_chars(path.as_str());
        if is_std_path(&pc) {
            let m = std_module_of(&pc);
            let ms = chars_to_string(&m);
            match get_stdlib_module(ms.as_str()) {
                None => Err(OgreError::UnknownStdModule(unknown_module_message(&m))),
                Some(text) => {
                    let mut sv: Vec<char> = Vec::new();
                    push_str(&mut sv, "<stdlib:");
                    push_chars(&mut sv, &m);
                    push_str(&mut sv, ">");
                    let sentinel = chars_to_string(&sv);
                    assert(sentinel@ =~= "<stdlib:"@ + m@ + ">"@);
                    if contains_string(&self.imported, &sentinel) {
                        cur.col = c3;
                        return Ok(k2);
                    }
                    if fuel == 0 {
                        return Err(OgreError::ImportCycle(sentinel));
                    }
                    proof {
                        lemma_strs_push(self.imported@, sentinel);
                    }
                    self.imported.push(sentinel);
                    let tc = str_to_chars(text);
                    let mut pv: Vec<char> = Vec::new();
                    push_str(&mut pv, "std/");
                    push_chars(&mut pv, &m);
                    push_str(&mut pv, ".bf");
                    let sp = chars_to_string(&pv);
                    assert(sp@ =~= "std/"@ + m@ + ".bf"@);
                    match self.collect(files, &tc, base_dir, &sp, fuel - 1) {
                        Err(e) => {
                            return Err(e);
                        },
                        Ok(_) => {},
                    }
                    cur.col = c3;
                    Ok(k2)
                },
            }
        } else {
            let ip = join_path(base_dir.as_str(), path.as_str());
            match lookup_file(files, &ip) {
                None => Err(OgreError::FileNotFound(ip)),
                Some(f) => {
                    if contains_string(&self.imported, &f.canonical) || fuel == 0 {
                        return Err(OgreError::ImportCycle(ip));
                    }
                    let canon = f.canonical.clone();
                    proof {
                        lemma_strs_push(self.imported@, canon);
                    }
                    self.imported.push(canon);
                    let b2 = match parent_of(ip.as_str()) {
                        Some(q) => q,
                        None => String::from_str("."),
                    };
                    let tc = str_to_chars(f.text.as_str());
                    match self.collect(files, &tc, &b2, &ip, fuel - 1) {
                        Err(e) => {
                            return Err(e);
                        },
                        Ok(_) => {},
                    }
                    cur.col = c3;
                    Ok(k2)
                },
            }
        }
    }

    /// Pass 1 over one source: read directives into the state and return the
    /// top-level code, with `@call` markers kept for the expand pass.
    fn collect(&mut self, files: &[SourceFile], src: &Vec<char>, base_dir: &String, file: &String, fuel: usize) -> (r:
        Result<Vec<char>, OgreError>)
        requires
            old(self).functions.wf(),
        ensures
            final(self).functions.wf(),
            match r {
                Ok(top) => collect_from(files_view(files@), src@, base_dir@, file@, 0, old(self)@, fresh_cursor(),
                    fuel as nat) == Ok::<(PreState, Seq<char>), Fail>((final(self)@, top@)),
                Err(e) => collect_from(files_view(files@), src@, base_dir@, file@, 0, old(self)@, fresh_cursor(),
                    fuel as nat) == Err::<(PreState, Seq<char>), Fail>(e@),
            },
        decreases fuel, 1nat,
    {
        let ghost fv = files_view(files@);
        let mut cur = Scan::new();
        let mut i: usize = 0;
        while i < src.len()
            invariant
                fv == files_view(files@),
                self.functions.wf(),
                i <= src@.len(),
                collect_from(fv, src@, base_dir@, file@, 0, old(self)@, fresh_cursor(), fuel as nat) == collect_from(
                    fv, src@, base_dir@, file@, i as int, self@, cur@, fuel as nat),
            decreases src@.len() - i,
        {
            proof {
                lemma_keywords();
            }
            let is_dir = i + 1 < src.len() && src[i] == '@' && crate::text::char_is_alphabetic(src[i + 1]);
            if is_dir {
                let mut j = i + 1;
                let kw = take_identifier(src.as_slice(), &mut j);
                assert(kw@ == kw_at(src@, i as int));
                if kw == String::from_str("import") {
                    match self.directive_import(files, src, base_dir, file, i, j, &mut cur, fuel) {
                        Err(e) => {
                            return Err(e);
                        },
                        Ok(k) => {
                            i = k;
                        },
                    }
                } else {
                    let step = if kw == String::from_str("doc") {
                        Ok(self.directive_doc(src, file, i, j, &mut cur))
                    } else if kw == String::from_str("fn") {
                        self.directive_fn(src, file, i, j, &mut cur)
                    } else if kw == String::from_str("call") {
                        self.directive_call(src, file, i, j, &mut cur)
                    } else if kw == String::from_str("const") {
                        self.directive_const(src, file, i, j, &mut cur)
                    } else if kw == String::from_str("use") {
                        self.directive_use(src, file, i, j, &mut cur)
                    } else {
                        Err(OgreError::UnknownDirective(kw))
                    };
                    match step {
                        Err(e) => {
                            return Err(e);
                        },
                        Ok(k) => {
                            i = k;
                        },
                    }
                }
            } else {
                self.regular(src, file, i, &mut cur);
                i += 1;
            }
        }
        Ok(cur.top)
    }
}

impl Preprocessor {
    /// Pass 2: replace every `@call` with the expanded body of the function and
    /// every `@use` with `+` characters.
    fn expand(&self, code: &Vec<char>, stack: &mut Vec<String>) -> (r: Result<Vec<char>, OgreError>)
        requires
            self.functions.wf(),
            strs(old(stack)@).no_duplicates(),
            forall|x: Seq<char>| strs(old(stack)@).contains(x) ==> tbl_keys(self.functions@).contains(x),
        ensures
            match r {
                Ok(out) => expand_at(self.functions@, consts_view(self.constants@), code@, 0, strs(old(stack)@))
                    == Ok::<Seq<char>, Fail>(out@) && final(stack)@ == old(stack)@,
                Err(e) => expand_at(self.functions@, consts_view(self.constants@), code@, 0, strs(old(stack)@))
                    == Err::<Seq<char>, Fail>(e@),
            },
        decreases self.functions@.len() - old(stack)@.len(),
    {
        let ghost fns = self.functions@;
        let ghost cs = consts_view(self.constants@);
        let ghost st0 = strs(stack@);
        let mut out: Vec<char> = Vec::new();
        let mut i: usize = 0;
        while i < code.len()
            invariant
                fns == self.functions@,
                cs == consts_view(self.constants@),
                self.functions.wf(),
                stack@ == old(stack)@,
                st0 == strs(stack@),
                st0.no_duplicates(),
                forall|x: Seq<char>| st0.contains(x) ==> tbl_keys(fns).contains(x),
                i <= code@.len(),
                expand_at(fns, cs, code@, 0, st0) == match expand_at(fns, cs, code@, i as int, st0) {
                    Ok(rest) => Ok(out@ + rest),
                    Err(x) => Err(x),
                },
            decreases code@.len() - i,
        {
            proof {
                reveal_strlit("call");
                reveal_strlit("use");
            }
            let is_dir = i + 1 < code.len() && code[i] == '@' && crate::text::char_is_alphabetic(code[i + 1]);
            if is_dir {
                proof {
                    lemma_ident_end(code@, i + 1);
                }
                let mut j = i + 1;
                let kw = take_identifier(code.as_slice(), &mut j);
                proof {
                    lemma_spaces_end(code@, j as int);
                }
                let mut k = j;
                skip_spaces(code.as_slice(), &mut k);
                proof {
                    lemma_ident_end(code@, k as int);
                }
                let mut e = k;
                if kw == String::from_str("call") {
                    let name = take_identifier(code.as_slice(), &mut e);
                    if contains_string(stack, &name) {
                        return Err(OgreError::CycleDetected(cycle_message(stack, &name)));
                    }
                    let body = match self.functions.get(name.as_str()) {
                        Some(b) => b,
                        None => {
                            let nc = str_to_chars(name.as_str());
                            return Err(OgreError::UnknownFunction(unknown_function_message(&nc, &self.functions)));
                        },
                    };
                    proof {
                        lemma_tbl_find_keys(fns, name@);
                        lemma_stack_shorter(fns, st0, name@);
                    }
                    let body_chars = str_to_chars(body.as_str());
                    let nm = name.clone();
                    proof {
                        lemma_strs_push(stack@, nm);
                        let s2 = st0.push(name@);
                        assert forall|a: int, b: int| 0 <= a < b < s2.len() implies s2[a] != s2[b] by {
                            if b == st0.len() {
                                assert(st0.contains(s2[a]));
                            }
                        }
                        assert forall|x: Seq<char>| s2.contains(x) implies tbl_keys(fns).contains(x) by {
                            let w = choose|w: int| 0 <= w < s2.len() && s2[w] == x;
                            if w < st0.len() {
                                assert(st0[w] == x);
                                assert(st0.contains(x));
                            }
                        }
                    }
                    stack.push(nm);
                    let sub = self.expand(&body_chars, stack);
                    let b = match sub {
                        Ok(b) => b,
                        Err(x) => {
                            return Err(x);
                        },
                    };
                    stack.pop();
                    proof {
                        assert(stack@ =~= old(stack)@);
                    }
                    let ghost before = out@;
                    push_chars(&mut out, &b);
                    proof {
                        match expand_at(fns, cs, code@, e as int, st0) {
                            Ok(rest) => {
                                assert(before + (b@ + rest) =~= out@ + rest);
                            },
                            Err(_) => {},
                        }
                    }
                    i = e;
                } else if kw == String::from_str("use") {
                    let name = take_identifier(code.as_slice(), &mut e);
                    match find_const(&self.constants, &name) {
                        None => {
                            return Err(OgreError::Other(prefixed("undefined constant: @use ", &name)));
                        },
                        Some(idx) => {
                            let v = self.constants[idx].1;
                            let ghost before = out@;
                            let mut x: usize = 0;
                            while x < v
                                invariant
                                    x <= v,
                                    out@ == before + pluses(x as nat),
                                decreases v - x,
                            {
                                out.push('+');
                                x += 1;
                                assert(out@ =~= before + pluses(x as nat));
                            }
                            proof {
                                match expand_at(fns, cs, code@, e as int, st0) {
                                    Ok(rest) => {
                                        assert(before + (pluses(v as nat) + rest) =~= out@ + rest);
                                    },
                                    Err(_) => {},
                                }
                            }
                            i = e;
                        },
                    }
                } else {
                    let ghost before = out@;
                    out.push('@');
                    push_str(&mut out, kw.as_str());
                    proof {
                        match expand_at(fns, cs, code@, j as int, st0) {
                            Ok(rest) => {
                                assert(before + (seq!['@'] + kw@ + rest) =~= out@ + rest);
                            },
                            Err(_) => {},
                        }
                    }
                    i = j;
                }
            } else {
                let ghost before = out@;
                out.push(code[i]);
                proof {
                    match expand_at(fns, cs, code@, i + 1, st0) {
                        Ok(rest) => {
                            assert(before + (seq![code@[i as int]] + rest) =~= out@ + rest);
                        },
                        Err(_) => {},
                    }
                }
                i += 1;
            }
        }
        proof {
            assert(out@ + Seq::<char>::empty() =~= out@);
        }
        Ok(out)
    }
}

/// Build the locations of an expanded function body.
fn push_body_locs(map: &mut Vec<SourceLocation>, file: &String, name: &String, b: &Vec<char>)
    ensures
        locs_view(final(map)@) == locs_view(old(map)@) + body_locs(file@, name@, b@),
{
    let ghost start = locs_view(map@);
    let mut line: usize = 1;
    let mut col: usize = 1;
    let mut x: usize = 0;
    while x < b.len()
        invariant
            x <= b@.len(),
            (line, col) == pos_line_col(b@, x as int),
            locs_view(map@) == start + body_locs(file@, name@, b@).take(x as int),
        decreases b@.len() - x,
    {
        let loc = SourceLocation::with_function(file.clone(), line, col, name.clone());
        proof {
            lemma_locs_push(map@, loc);
            assert(body_locs(file@, name@, b@).take(x + 1) =~= body_locs(file@, name@, b@).take(x as int).push(loc@));
        }
        map.push(loc);
        if b[x] == '\n' {
            line = line.saturating_add(1);
            col = 1;
        } else {
            col = col.saturating_add(1);
        }
        x += 1;
    }
    assert(body_locs(file@, name@, b@).take(x as int) =~= body_locs(file@, name@, b@));
}

impl Preprocessor {
    /// The expand pass over top-level code that also builds a location for each
    /// output character, from the locations the collect pass recorded.
    fn expand_with_tracking(&self, code: &Vec<char>) -> (r: Result<(Vec<char>, Vec<SourceLocation>), OgreError>)
        requires
            self.functions.wf(),
        ensures
            match r {
                Ok((out, locs)) => expand_track(self.functions@, consts_view(self.constants@), self.fn_origins@,
                    code@, 0, locs_view(self.source_map@), 0) == Ok::<(Seq<char>, Seq<Loc>), Fail>(
                    (out@, locs_view(locs@)),
                ),
                Err(e) => expand_track(self.functions@, consts_view(self.constants@), self.fn_origins@, code@, 0,
                    locs_view(self.source_map@), 0) == Err::<(Seq<char>, Seq<Loc>), Fail>(e@),
            },
    {
        let ghost fns = self.functions@;
        let ghost cs = consts_view(self.constants@);
        let ghost os = self.fn_origins@;
        let ghost ls = locs_view(self.source_map@);
        let mut out: Vec<char> = Vec::new();
        let mut map: Vec<SourceLocation> = Vec::new();
        let mut i: usize = 0;
        let mut idx: usize = 0;
        while i < code.len()
            invariant
                fns == self.functions@,
                cs == consts_view(self.constants@),
                os == self.fn_origins@,
                ls == locs_view(self.source_map@),
                self.functions.wf(),
                i <= code@.len(),
                idx <= i,
                expand_track(fns, cs, os, code@, 0, ls, 0) == match expand_track(fns, cs, os, code@, i as int, ls, idx as int) {
                    Ok((rest, rl)) => Ok((out@ + rest, locs_view(map@) + rl)),
                    Err(x) => Err(x),
                },
            decreases code@.len() - i,
        {
            proof {
                reveal_strlit("call");
                reveal_strlit("use");
            }
            let is_dir = i + 1 < code.len() && code[i] == '@' && crate::text::char_is_alphabetic(code[i + 1]);
            if is_dir {
                proof {
                    lemma_ident_end(code@, i + 1);
                }
                let mut j = i + 1;
                let kw = take_identifier(code.as_slice(), &mut j);
                proof {
                    lemma_spaces_end(code@, j as int);
                }
                let mut k = j;
                skip_spaces(code.as_slice(), &mut k);
                proof {
                    lemma_ident_end(code@, k as int);
                }
                let mut e = k;
                if kw == String::from_str("call") {
                    let name = take_identifier(code.as_slice(), &mut e);
                    let body = match self.functions.get(name.as_str()) {
                        Some(b) => b,
                        None => {
                            let nc = str_to_chars(name.as_str());
                            return Err(OgreError::UnknownFunction(unknown_function_message(&nc, &self.functions)));
                        },
                    };
                    proof {
                        lemma_tbl_find_keys(fns, name@);
                    }
                    let body_chars = str_to_chars(body.as_str());
                    let mut stack: Vec<String> = Vec::new();
                    stack.push(name.clone());
                    proof {
                        assert(strs(stack@) =~= seq![name@]);
                        assert forall|x: Seq<char>| strs(stack@).contains(x) implies tbl_keys(fns).contains(x) by {
                            assert(strs(stack@)[0] == x);
                        }
                    }
                    let b = match self.expand(&body_chars, &mut stack) {
                        Ok(b) => b,
                        Err(x) => {
                            return Err(x);
                        },
                    };
                    let fn_file = match self.fn_origins.get(name.as_str()) {
                        Some(f) => f.clone(),
                        None => String::from_str("<unknown>"),
                    };
                    let ghost before = out@;
                    let ghost mbefore = locs_view(map@);
                    push_chars(&mut out, &b);
                    push_body_locs(&mut map, &fn_file, &name, &b);
                    proof {
                        assert(fn_file@ == origin_of(os, name@));
                        match expand_track(fns, cs, os, code@, e as int, ls, idx as int) {
                            Ok((rest, rl)) => {
                                assert(before + (b@ + rest) =~= out@ + rest);
                                assert(mbefore + (body_locs(fn_file@, name@, b@) + rl) =~= locs_view(map@) + rl);
                            },
                            Err(_) => {},
                        }
                    }
                    i = e;
                } else if kw == String::from_str("use") {
                    let name = take_identifier(code.as_slice(), &mut e);
                    match find_const(&self.constants, &name) {
                        None => {
                            return Err(OgreError::Other(prefixed("undefined constant: @use ", &name)));
                        },
                        Some(ci) => {
                            let v = self.constants[ci].1;
                            let ghost before = out@;
                            let ghost mbefore = locs_view(map@);
                            let mut x: usize = 0;
                            while x < v
                                invariant
                                    x <= v,
                                    out@ == before + pluses(x as nat),
                                    locs_view(map@) == mbefore + const_locs(v).take(x as int),
                                decreases v - x,
                            {
                                out.push('+');
                                let loc = SourceLocation::new(String::from_str("<const>"), 1, 1);
                                proof {
                                    lemma_locs_push(map@, loc);
                                    assert(const_locs(v).take(x + 1) =~= const_locs(v).take(x as int).push(loc@));
                                }
                                map.push(loc);
                                x += 1;
                                assert(out@ =~= before + pluses(x as nat));
                            }
                            proof {
                                assert(const_locs(v).take(v as int) =~= const_locs(v));
                                match expand_track(fns, cs, os, code@, e as int, ls, idx as int) {
                                    Ok((rest, rl)) => {
                                        assert(before + (pluses(v as nat) + rest) =~= out@ + rest);
                                        assert(mbefore + (const_locs(v) + rl) =~= locs_view(map@) + rl);
                                    },
                                    Err(_) => {},
                                }
                            }
                            i = e;
                        },
                    }
                } else {
                    let ghost before = out@;
                    out.push('@');
                    push_str(&mut out, kw.as_str());
                    proof {
                        match expand_track(fns, cs, os, code@, j as int, ls, idx as int) {
                            Ok((rest, rl)) => {
                                assert(before + (seq!['@'] + kw@ + rest) =~= out@ + rest);
                            },
                            Err(_) => {},
                        }
                    }
                    i = j;
                }
            } else {
                let ghost before = out@;
                let ghost mbefore = locs_view(map@);
                out.push(code[i]);
                if idx < self.source_map.len() {
                    let loc = self.source_map[idx].copy();
                    proof {
                        lemma_locs_push(map@, loc);
                    }
                    map.push(loc);
                }
                proof {
                    match expand_track(fns, cs, os, code@, i + 1, ls, idx + 1) {
                        Ok((rest, rl)) => {
                            assert(before + (seq![code@[i as int]] + rest) =~= out@ + rest);
                            if idx < ls.len() {
                                assert(mbefore + (seq![ls[idx as int]] + rl) =~= locs_view(map@) + rl);
                            } else {
                                assert(mbefore + (Seq::<Loc>::empty() + rl) =~= locs_view(map@) + rl);
                            }
                        },
                        Err(_) => {},
                    }
                }
                idx += 1;
                i += 1;
            }
        }
        proof {
            assert(out@ + Seq::<char>::empty() =~= out@);
            assert(locs_view(map@) + Seq::<Loc>::empty() =~= locs_view(map@));
        }
        Ok((out, map))
    }
}

impl Preprocessor {
    /// The collect pass over a whole source.
    fn collect_top(&mut self, source: &str, base_dir: &str, file: &str, files: &[SourceFile]) -> (r: Result<
        Vec<char>,
        OgreError,
    >)
        requires
            old(self).functions.wf(),
        ensures
            final(self).functions.wf(),
            match r {
                Ok(top) => collect_from(files_view(files@), source@, base_dir@, file@, 0, old(self)@, fresh_cursor(),
                    import_fuel(files_view(files@))) == Ok::<(PreState, Seq<char>), Fail>((final(self)@, top@)),
                Err(e) => collect_from(files_view(files@), source@, base_dir@, file@, 0, old(self)@, fresh_cursor(),
                    import_fuel(files_view(files@))) == Err::<(PreState, Seq<char>), Fail>(e@),
            },
    {
        let src = str_to_chars(source);
        let base = String::from_str(base_dir);
        let f = String::from_str(file);
        let fuel = files.len().saturating_add(8);
        assert(files_view(files@).len() == files@.len());
        self.collect(files, &src, &base, &f, fuel)
    }

    /// Process a source string with @import paths resolved relative to `base_dir`.
    /// An import of a file names the path it resolves to; the file must be among
    /// `files`, else the result is `FileNotFound` with that path.
    pub fn process_source(source: &str, base_dir: &str, files: &[SourceFile]) -> (r: Result<String, OgreError>)
        ensures
            text_result(r) == preprocess_spec(files_view(files@), source@, base_dir@, Seq::empty()),
    {
        let mut pp = Preprocessor::new();
        proof {
            reveal_strlit("");
            assert(""@ =~= Seq::<char>::empty());
        }
        let top = match pp.collect_top(source, base_dir, "", files) {
            Ok(t) => t,
            Err(e) => {
                return Err(e);
            },
        };
        let mut stack: Vec<String> = Vec::new();
        proof {
            assert(strs(stack@) =~= Seq::<Seq<char>>::empty());
        }
        match pp.expand(&top, &mut stack) {
            Ok(out) => Ok(chars_to_string(&out)),
            Err(e) => Err(e),
        }
    }

    /// Process a source with dependency functions available for @call expansion
    /// as if they were imported.
    pub fn process_source_with_deps(source: &str, base_dir: &str, files: &[SourceFile], dep_functions: &FnTable) -> (r:
        Result<String, OgreError>)
        requires
            dep_functions.wf(),
        ensures
            text_result(r) == preprocess_spec(files_view(files@), source@, base_dir@, dep_functions@),
    {
        let mut pp = Preprocessor::with_functions(dep_functions.copy());
        proof {
            reveal_strlit("");
            assert(""@ =~= Seq::<char>::empty());
        }
        let top = match pp.collect_top(source, base_dir, "", files) {
            Ok(t) => t,
            Err(e) => {
                return Err(e);
            },
        };
        let mut stack: Vec<String> = Vec::new();
        proof {
            assert(strs(stack@) =~= Seq::<Seq<char>>::empty());
        }
        match pp.expand(&top, &mut stack) {
            Ok(out) => Ok(chars_to_string(&out)),
            Err(e) => Err(e),
        }
    }

    /// Process source and return the preprocessor state (for doc generation).
    /// Returns (expanded_code, functions, fn_docs).
    pub fn process_source_with_docs(source: &str, base_dir: &str, files: &[SourceFile]) -> (r: Result<
        (String, FnTable, FnTable),
        OgreError,
    >)
        ensures
            match r {
                Ok((out, fns, docs)) => docs_spec(files_view(files@), source@, base_dir@) == Ok::<
                    (Seq<char>, Seq<(Seq<char>, Seq<char>)>, Seq<(Seq<char>, Seq<char>)>),
                    Fail,
                >((out@, fns@, docs@)) && fns.wf(),
                Err(e) => docs_spec(files_view(files@), source@, base_dir@) == Err::<
                    (Seq<char>, Seq<(Seq<char>, Seq<char>)>, Seq<(Seq<char>, Seq<char>)>),
                    Fail,
                >(e@),
            },
    {
        let mut pp = Preprocessor::new();
        proof {
            reveal_strlit("");
            assert(""@ =~= Seq::<char>::empty());
        }
        let top = match pp.collect_top(source, base_dir, "", files) {
            Ok(t) => t,
            Err(e) => {
                return Err(e);
            },
        };
        let mut stack: Vec<String> = Vec::new();
        proof {
            assert(strs(stack@) =~= Seq::<Seq<char>>::empty());
        }
        match pp.expand(&top, &mut stack) {
            Ok(out) => Ok((chars_to_string(&out), pp.functions, pp.fn_docs)),
            Err(e) => Err(e),
        }
    }

    /// Process source and return expanded code with a SourceMap that gives, for
    /// each character of the expanded code, where it came from.
    pub fn process_source_with_map(source: &str, base_dir: &str, file_path: &str, files: &[SourceFile]) -> (r:
        Result<(String, SourceMap), OgreError>)
        ensures
            match r {
                Ok((out, map)) => preprocess_map_spec(files_view(files@), source@, base_dir@, file_path@) == Ok::<
                    (Seq<char>, Seq<Loc>),
                    Fail,
                >((out@, map@)),
                Err(e) => preprocess_map_spec(files_view(files@), source@, base_dir@, file_path@) == Err::<
                    (Seq<char>, Seq<Loc>),
                    Fail,
                >(e@),
            },
    {
        let mut pp = Preprocessor::new();
        let top = match pp.collect_top(source, base_dir, file_path, files) {
            Ok(t) => t,
            Err(e) => {
                return Err(e);
            },
        };
        match pp.expand_with_tracking(&top) {
            Ok((out, locs)) => Ok((chars_to_string(&out), SourceMap::from_locations(locs))),
            Err(e) => Err(e),
        }
    }

    /// Collect all @fn definitions from a source string (for REPL preloading).
    pub fn collect_functions_from_source(source: &str, base_dir: &str, files: &[SourceFile]) -> (r: Result<
        FnTable,
        OgreError,
    >)
        ensures
            match r {
                Ok(fns) => functions_spec(files_view(files@), source@, base_dir@) == Ok::<
                    Seq<(Seq<char>, Seq<char>)>,
                    Fail,
                >(fns@) && fns.wf(),
                Err(e) => functions_spec(files_view(files@), source@, base_dir@) == Err::<
                    Seq<(Seq<char>, Seq<char>)>,
                    Fail,
                >(e@),
            },
    {
        let mut pp = Preprocessor::new();
        proof {
            reveal_strlit("");
            assert(""@ =~= Seq::<char>::empty());
        }
        match pp.collect_top(source, base_dir, "", files) {
            Ok(_) => Ok(pp.functions),
            Err(e) => Err(e),
        }
    }

    /// Expand @call/@use directives in code given a set of known functions.
    /// Used by the REPL to preprocess user input against preloaded definitions.
    pub fn expand_with_functions(code: &str, functions: &FnTable, files: &[SourceFile]) -> (r: Result<
        String,
        OgreError,
    >)
        requires
            functions.wf(),
        ensures
            text_result(r) == preprocess_spec(files_view(files@), code@, "."@, functions@),
    {
        Self::process_source_with_deps(code, ".", files, functions)
    }
}

// ---------------------------------------------------------------------------
// The source map does not change the output
// ---------------------------------------------------------------------------

/// Two states that agree on everything but the locations and function origins.
pub open spec fn same_core(a: PreState, b: PreState) -> bool {
    a.functions == b.functions && a.docs == b.docs && a.constants == b.constants && a.imported == b.imported
}

/// Two collect results that agree on everything but locations.
pub open spec fn collect_agree(r1: Result<(PreState, Seq<char>), Fail>, r2: Result<(PreState, Seq<char>), Fail>) -> bool {
    match (r1, r2) {
        (Ok((a, t1)), Ok((b, t2))) => same_core(a, b) && t1 == t2,
        (Err(x), Err(y)) => x == y,
        _ => false,
    }
}

proof fn lemma_step_agree(src: Seq<char>, f1: Seq<char>, f2: Seq<char>, i: int, s1: PreState, s2: PreState, c1: Cursor, c2: Cursor)
    requires
        0 <= i < src.len(),
        same_core(s1, s2),
        c1.top == c2.top,
        c1.doc == c2.doc,
    ensures
        match (collect_step(src, f1, i, s1, c1), collect_step(src, f2, i, s2, c2)) {
            (Ok((j1, a, x)), Ok((j2, b, y))) => j1 == j2 && same_core(a, b) && x.top == y.top && x.doc == y.doc,
            (Err(e1), Err(e2)) => e1 == e2,
            _ => false,
        },
{
}

proof fn lemma_collect_agree(
    files: Seq<FileView>,
    src: Seq<char>,
    base: Seq<char>,
    f1: Seq<char>,
    f2: Seq<char>,
    i: int,
    s1: PreState,
    s2: PreState,
    c1: Cursor,
    c2: Cursor,
    fuel: nat,
)
    requires
        same_core(s1, s2),
        c1.top == c2.top,
        c1.doc == c2.doc,
    ensures
        collect_agree(
            collect_from(files, src, base, f1, i, s1, c1, fuel),
            collect_from(files, src, base, f2, i, s2, c2, fuel),
        ),
    decreases fuel, src.len() - i,
{
    if i < 0 || i >= src.len() {
    } else if is_directive_at(src, i) && kw_at(src, i) == "import"@ {
        let j = ident_end(src, i + 1);
        lemma_ident_end(src, i + 1);
        lemma_spaces_end(src, j);
        let k = spaces_end(src, j);
        if k >= src.len() || src[k] != '"' {
        } else {
            lemma_quote_close(src, k + 1);
            let q = quote_close(src, k + 1);
            if q < src.len() {
                let path = src.subrange(k + 1, q);
                let k2 = q + 1;
                let cur1 = Cursor { col: pos_line_col(src, k2).1, ..c1 };
                let cur2 = Cursor { col: pos_line_col(src, k2).1, ..c2 };
                if seq_starts_with(path, "std/"@) {
                    let m = std_module_name(path);
                    match std_text(m) {
                        None => {},
                        Some(text) => {
                            let sentinel = "<stdlib:"@ + m + ">"@;
                            if s1.imported.contains(sentinel) {
                                lemma_collect_agree(files, src, base, f1, f2, k2, s1, s2, cur1, cur2, fuel);
                            } else if fuel == 0 {
                            } else {
                                let n1 = PreState { imported: s1.imported.push(sentinel), ..s1 };
                                let n2 = PreState { imported: s2.imported.push(sentinel), ..s2 };
                                let sp = "std/"@ + m + ".bf"@;
                                lemma_collect_agree(files, text, base, sp, sp, 0, n1, n2, fresh_cursor(), fresh_cursor(), (fuel - 1) as nat);
                                match (
                                    collect_from(files, text, base, sp, 0, n1, fresh_cursor(), (fuel - 1) as nat),
                                    collect_from(files, text, base, sp, 0, n2, fresh_cursor(), (fuel - 1) as nat),
                                ) {
                                    (Ok((a, _)), Ok((b, _))) => {
                                        lemma_collect_agree(files, src, base, f1, f2, k2, a, b, cur1, cur2, fuel);
                                    },
                                    _ => {},
                                }
                            }
                        },
                    }
                } else {
                    let ip = joined_path(base, path);
                    match find_file(files, ip) {
                        None => {},
                        Some(f) => if s1.imported.contains(f.canonical) || fuel == 0 {
                        } else {
                            let n1 = PreState { imported: s1.imported.push(f.canonical), ..s1 };
                            let n2 = PreState { imported: s2.imported.push(f.canonical), ..s2 };
                            lemma_collect_agree(files, f.text, import_base(ip), ip, ip, 0, n1, n2, fresh_cursor(), fresh_cursor(), (fuel - 1) as nat);
                            match (
                                collect_from(files, f.text, import_base(ip), ip, 0, n1, fresh_cursor(), (fuel - 1) as nat),
                                collect_from(files, f.text, import_base(ip), ip, 0, n2, fresh_cursor(), (fuel - 1) as nat),
                            ) {
                                (Ok((a, _)), Ok((b, _))) => {
                                    lemma_collect_agree(files, src, base, f1, f2, k2, a, b, cur1, cur2, fuel);
                                },
                                _ => {},
                            }
                        },
                    }
                }
            }
        }
    } else {
        lemma_step_agree(src, f1, f2, i, s1, s2, c1, c2);
        match (collect_step(src, f1, i, s1, c1), collect_step(src, f2, i, s2, c2)) {
            (Ok((j, a, x)), Ok((_, b, y))) => {
                if i < j <= src.len() {
                    lemma_collect_agree(files, src, base, f1, f2, j, a, b, x, y, fuel);
                }
            },
            _ => {},
        }
    }
}

proof fn lemma_track_matches(
    fns: Seq<(Seq<char>, Seq<char>)>,
    consts: Seq<(Seq<char>, usize)>,
    origins: Seq<(Seq<char>, Seq<char>)>,
    code: Seq<char>,
    i: int,
    locs: Seq<Loc>,
    idx: int,
)
    ensures
        track_text(expand_track(fns, consts, origins, code, i, locs, idx)) == expand_at(fns, consts, code, i, Seq::empty()),
    decreases code.len() - i,
{
    if i < 0 || i >= code.len() {
    } else if is_directive_at(code, i) {
        let j = ident_end(code, i + 1);
        lemma_ident_end(code, i + 1);
        lemma_spaces_end(code, j);
        let k = spaces_end(code, j);
        lemma_ident_end(code, k);
        let e = ident_end(code, k);
        let name = code.subrange(k, e);
        let kw = code.subrange(i + 1, j);
        let empty = Seq::<Seq<char>>::empty();
        assert(!empty.contains(name));
        assert(empty.push(name) =~= seq![name]);
        if kw == "call"@ {
            if tbl_find(fns, name) >= 0 {
                lemma_tbl_find(fns, name);
            }
            lemma_track_matches(fns, consts, origins, code, e, locs, idx);
        } else if kw == "use"@ {
            lemma_track_matches(fns, consts, origins, code, e, locs, idx);
        } else {
            lemma_track_matches(fns, consts, origins, code, j, locs, idx);
        }
    } else {
        lemma_track_matches(fns, consts, origins, code, i + 1, locs, idx + 1);
    }
}

/// Building a source map changes nothing in the expanded code: processing with a
/// map gives the same text, or the same error, as processing without one.
pub proof fn law_map_keeps_output(files: Seq<FileView>, src: Seq<char>, base: Seq<char>, file: Seq<char>)
    ensures
        track_text(preprocess_map_spec(files, src, base, file)) == preprocess_spec(files, src, base, Seq::empty()),
{
    let init = initial_state(Seq::empty());
    lemma_collect_agree(files, src, base, file, Seq::empty(), 0, init, init, fresh_cursor(), fresh_cursor(), import_fuel(files));
    match (collect_source(files, src, base, file, Seq::empty()), collect_source(files, src, base, Seq::empty(), Seq::empty())) {
        (Ok((a, t)), Ok((b, _))) => {
            lemma_track_matches(a.functions, a.constants, a.origins, t, 0, a.map, 0);
        },
        _ => {},
    }
}

// ---------------------------------------------------------------------------
// Plain brainfuck passes through
// ---------------------------------------------------------------------------

proof fn lemma_collect_plain(
    files: Seq<FileView>,
    src: Seq<char>,
    base: Seq<char>,
    file: Seq<char>,
    i: int,
    st: PreState,
    cur: Cursor,
    fuel: nat,
)
    requires
        !src.contains('@'),
        0 <= i <= src.len(),
    ensures
        collect_from(files, src, base, file, i, st, cur, fuel) is Ok,
        collect_from(files, src, base, file, i, st, cur, fuel)->Ok_0.1 == cur.top + src.subrange(i, src.len() as int),
        collect_from(files, src, base, file, i, st, cur, fuel)->Ok_0.0.functions == st.functions,
        collect_from(files, src, base, file, i, st, cur, fuel)->Ok_0.0.constants == st.constants,
    decreases src.len() - i,
{
    if i >= src.len() {
        assert(src.subrange(i, src.len() as int) =~= Seq::<char>::empty());
        assert(cur.top + Seq::<char>::empty() =~= cur.top);
    } else {
        assert(src[i] != '@');
        assert(!is_directive_at(src, i));
        let (j, st2, cur2) = collect_step(src, file, i, st, cur)->Ok_0;
        assert(j == i + 1);
        lemma_collect_plain(files, src, base, file, i + 1, st2, cur2, fuel);
        assert(cur2.top + src.subrange(i + 1, src.len() as int) =~= cur.top + src.subrange(i, src.len() as int));
    }
}

proof fn lemma_expand_plain(
    fns: Seq<(Seq<char>, Seq<char>)>,
    consts: Seq<(Seq<char>, usize)>,
    code: Seq<char>,
    i: int,
    stack: Seq<Seq<char>>,
)
    requires
        !code.contains('@'),
        0 <= i <= code.len(),
    ensures
        expand_at(fns, consts, code, i, stack) == Ok::<Seq<char>, Fail>(code.subrange(i, code.len() as int)),
    decreases code.len() - i,
{
    if i < code.len() {
        assert(code[i] != '@');
        lemma_expand_plain(fns, consts, code, i + 1, stack);
        assert(seq![code[i]] + code.subrange(i + 1, code.len() as int) =~= code.subrange(i, code.len() as int));
    } else {
        assert(code.subrange(i, code.len() as int) =~= Seq::<char>::empty());
    }
}

/// Law: a source without `@` holds no directive, and preprocessing gives it
/// back unchanged, whatever files and functions are at hand.
pub proof fn law_plain_source_unchanged(
    files: Seq<FileView>,
    src: Seq<char>,
    base: Seq<char>,
    functions: Seq<(Seq<char>, Seq<char>)>,
)
    requires
        !src.contains('@'),
    ensures
        preprocess_spec(files, src, base, functions) == Ok::<Seq<char>, Fail>(src),
{
    let st0 = initial_state(functions);
    let c0 = fresh_cursor();
    lemma_collect_plain(files, src, base, Seq::empty(), 0, st0, c0, import_fuel(files));
    assert(c0.top + src.subrange(0, src.len() as int) =~= src);
    let (st, top) = collect_source(files, src, base, Seq::empty(), functions)->Ok_0;
    lemma_expand_plain(st.functions, st.constants, top, 0, Seq::empty());
    assert(top.subrange(0, top.len() as int) =~= top);
}

/// The location of each of the first `n` characters of a plain source: its
/// file, and its own line and column.
pub open spec fn plain_locs(src: Seq<char>, file: Seq<char>, n: nat) -> Seq<Loc> {
    Seq::new(n, |k: int| Loc {
        file,
        line: line_col(src, k).0 as usize,
        column: line_col(src, k).1 as usize,
        function: None,
    })
}

proof fn lemma_collect_plain_map(
    files: Seq<FileView>,
    src: Seq<char>,
    base: Seq<char>,
    file: Seq<char>,
    i: int,
    st: PreState,
    cur: Cursor,
    fuel: nat,
)
    requires
        !src.contains('@'),
        src.len() < usize::MAX,
        0 <= i <= src.len(),
        st.map == plain_locs(src, file, i as nat),
        cur.line == line_col(src, i).0,
        cur.col == line_col(src, i).1,
    ensures
        collect_from(files, src, base, file, i, st, cur, fuel) is Ok,
        collect_from(files, src, base, file, i, st, cur, fuel)->Ok_0.0.map == plain_locs(src, file, src.len()),
    decreases src.len() - i,
{
    if i < src.len() {
        assert(src[i] != '@');
        assert(!is_directive_at(src, i));
        let (j, st2, cur2) = collect_step(src, file, i, st, cur)->Ok_0;
        lemma_line_col_bounds(src, i);
        lemma_line_col_bounds(src, i + 1);
        assert(st2.map =~= plain_locs(src, file, (i + 1) as nat));
        lemma_collect_plain_map(files, src, base, file, i + 1, st2, cur2, fuel);
    }
}

proof fn lemma_track_plain(
    fns: Seq<(Seq<char>, Seq<char>)>,
    consts: Seq<(Seq<char>, usize)>,
    origins: Seq<(Seq<char>, Seq<char>)>,
    code: Seq<char>,
    i: int,
    locs: Seq<Loc>,
)
    requires
        !code.contains('@'),
        0 <= i <= code.len(),
        locs.len() == code.len(),
    ensures
        expand_track(fns, consts, origins, code, i, locs, i) == Ok::<(Seq<char>, Seq<Loc>), Fail>(
            (code.subrange(i, code.len() as int), locs.subrange(i, code.len() as int)),
        ),
    decreases code.len() - i,
{
    if i < code.len() {
        assert(code[i] != '@');
        lemma_track_plain(fns, consts, origins, code, i + 1, locs);
        assert(seq![code[i]] + code.subrange(i + 1, code.len() as int) =~= code.subrange(i, code.len() as int));
        assert(seq![locs[i]] + locs.subrange(i + 1, code.len() as int) =~= locs.subrange(i, code.len() as int));
    } else {
        assert(code.subrange(i, code.len() as int) =~= Seq::<char>::empty());
        assert(locs.subrange(i, code.len() as int) =~= Seq::<Loc>::empty());
    }
}

/// Law: a source without `@` comes back unchanged from preprocessing with a
/// source map, and each of its characters is mapped to its own file, line and
/// column.
pub proof fn law_plain_source_map(files: Seq<FileView>, src: Seq<char>, base: Seq<char>, file: Seq<char>)
    requires
        !src.contains('@'),
        src.len() < usize::MAX,
    ensures
        preprocess_map_spec(files, src, base, file) == Ok::<(Seq<char>, Seq<Loc>), Fail>(
            (src, plain_locs(src, file, src.len())),
        ),
{
    let st0 = initial_state(Seq::empty());
    let c0 = fresh_cursor();
    assert(st0.map =~= plain_locs(src, file, 0));
    lemma_collect_plain_map(files, src, base, file, 0, st0, c0, import_fuel(files));
    lemma_collect_plain(files, src, base, file, 0, st0, c0, import_fuel(files));
    assert(c0.top + src.subrange(0, src.len() as int) =~= src);
    let (st, top) = collect_source(files, src, base, file, Seq::empty())->Ok_0;
    lemma_track_plain(st.functions, st.constants, st.origins, top, 0, st.map);
    assert(top.subrange(0, top.len() as int) =~= top);
    assert(st.map.subrange(0, top.len() as int) =~= st.map);
}

} // verus!

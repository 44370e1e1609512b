use vstd::prelude::*;

use crate::error::{Fail, OgreError, text_result};
use crate::text::{char_is_alphanumeric, char_is_whitespace, chars_to_string, is_white, unicode_alphanumeric};

verus! {

/// A character that may stand in an identifier: alphanumeric or `_`.
pub open spec fn is_ident_char(c: char) -> bool {
    unicode_alphanumeric(c) || c == '_'
}

/// Where the identifier that starts at `i` ends.
pub open spec fn ident_end(s: Seq<char>, i: int) -> int
    decreases s.len() - i,
{
    if 0 <= i < s.len() && is_ident_char(s[i]) { ident_end(s, i + 1) } else { i }
}

/// Where the run of spaces and tabs that starts at `i` ends.
pub open spec fn spaces_end(s: Seq<char>, i: int) -> int
    decreases s.len() - i,
{
    if 0 <= i < s.len() && (s[i] == ' ' || s[i] == '\t') { spaces_end(s, i + 1) } else { i }
}

/// Where the run of whitespace that starts at `i` ends.
pub open spec fn ws_end(s: Seq<char>, i: int) -> int
    decreases s.len() - i,
{
    if 0 <= i < s.len() && is_white(s[i]) { ws_end(s, i + 1) } else { i }
}

/// The first `"` at or after `i`, or the end of `s`.
pub open spec fn quote_close(s: Seq<char>, i: int) -> int
    decreases s.len() - i,
{
    if 0 <= i < s.len() && s[i] != '"' { quote_close(s, i + 1) } else { i }
}

/// The position of the `}` that closes a brace body read from `i` at nesting `depth`
/// (at least one), or the end of `s` when it is never closed.
pub open spec fn brace_close(s: Seq<char>, i: int, depth: nat) -> int
    decreases s.len() - i,
{
    if i < 0 || i >= s.len() {
        s.len() as int
    } else if s[i] == '{' {
        brace_close(s, i + 1, depth + 1)
    } else if s[i] == '}' {
        if depth <= 1 { i } else { brace_close(s, i + 1, (depth - 1) as nat) }
    } else {
        brace_close(s, i + 1, depth)
    }
}

pub proof fn lemma_ident_end(s: Seq<char>, i: int)
    requires
        0 <= i <= s.len(),
    ensures
        i <= ident_end(s, i) <= s.len(),
        forall|k: int| i <= k < ident_end(s, i) ==> is_ident_char(#[trigger] s[k]),
        ident_end(s, i) < s.len() ==> !is_ident_char(s[ident_end(s, i)]),
    decreases s.len() - i,
{
    if i < s.len() && is_ident_char(s[i]) {
        lemma_ident_end(s, i + 1);
    }
}

pub proof fn lemma_spaces_end(s: Seq<char>, i: int)
    requires
        0 <= i <= s.len(),
    ensures
        i <= spaces_end(s, i) <= s.len(),
    decreases s.len() - i,
{
    if i < s.len() && (s[i] == ' ' || s[i] == '\t') {
        lemma_spaces_end(s, i + 1);
    }
}

pub proof fn lemma_ws_end(s: Seq<char>, i: int)
    requires
        0 <= i <= s.len(),
    ensures
        i <= ws_end(s, i) <= s.len(),
    decreases s.len() - i,
{
    if i < s.len() && is_white(s[i]) {
        lemma_ws_end(s, i + 1);
    }
}

pub proof fn lemma_quote_close(s: Seq<char>, i: int)
    requires
        0 <= i <= s.len(),
    ensures
        i <= quote_close(s, i) <= s.len(),
        quote_close(s, i) < s.len() ==> s[quote_close(s, i)] == '"',
    decreases s.len() - i,
{
    if i < s.len() && s[i] != '"' {
        lemma_quote_close(s, i + 1);
    }
}

pub proof fn lemma_brace_close(s: Seq<char>, i: int, depth: nat)
    requires
        0 <= i <= s.len(),
    ensures
        i <= brace_close(s, i, depth) <= s.len(),
        brace_close(s, i, depth) < s.len() ==> s[brace_close(s, i, depth)] == '}',
    decreases s.len() - i,
{
    if i < s.len() {
        if s[i] == '{' {
            lemma_brace_close(s, i + 1, depth + 1);
        } else if s[i] == '}' {
            if depth > 1 {
                lemma_brace_close(s, i + 1, (depth - 1) as nat);
            }
        } else {
            lemma_brace_close(s, i + 1, depth);
        }
    }
}

/// How `{:?}` shows a character (std's `Debug` for `char`).
pub uninterp spec fn char_debug(c: char) -> Seq<char>;

/// std's `Debug` for `char`. Claimed: the text is the quoted, escaped character
/// named by `char_debug`.
#[verifier::external_body]
pub fn debug_char(c: char) -> (s: String)
    ensures
        s@ == char_debug(c),
{
    format!("{:?}", c)
}

/// Read an identifier (alphanumeric + underscore) from `chars` starting at `*i`.
pub fn take_identifier(chars: &[char], i: &mut usize) -> (s: String)
    ensures
        *final(i) == ident_end(chars@, *old(i) as int),
        *old(i) <= chars@.len() ==> s@ == chars@.subrange(*old(i) as int, *final(i) as int),
        *old(i) > chars@.len() ==> s@.len() == 0,
{
    let ghost start = *i;
    let mut v: Vec<char> = Vec::new();
    while *i < chars.len() && (char_is_alphanumeric(chars[*i]) || chars[*i] == '_')
        invariant
            start <= *i,
            start <= chars@.len() ==> *i <= chars@.len(),
            ident_end(chars@, start as int) == ident_end(chars@, *i as int),
            start <= chars@.len() ==> v@ == chars@.subrange(start as int, *i as int),
            start > chars@.len() ==> v@.len() == 0 && *i == start,
        decreases chars@.len() - *i,
    {
        v.push(chars[*i]);
        *i += 1;
        assert(v@ =~= chars@.subrange(start as int, *i as int));
    }
    chars_to_string(&v)
}

/// Skip horizontal whitespace (spaces and tabs).
pub fn skip_spaces(chars: &[char], i: &mut usize)
    ensures
        *final(i) == spaces_end(chars@, *old(i) as int),
{
    let ghost start = *i;
    while *i < chars.len() && (chars[*i] == ' ' || chars[*i] == '\t')
        invariant
            spaces_end(chars@, start as int) == spaces_end(chars@, *i as int),
        decreases chars@.len() - *i,
    {
        *i += 1;
    }
}

/// Skip all whitespace (including newlines).
pub fn skip_whitespace(chars: &[char], i: &mut usize)
    ensures
        *final(i) == ws_end(chars@, *old(i) as int),
{
    let ghost start = *i;
    while *i < chars.len() && char_is_whitespace(chars[*i])
        invariant
            ws_end(chars@, start as int) == ws_end(chars@, *i as int),
        decreases chars@.len() - *i,
    {
        *i += 1;
    }
}

/// How `{:?}` shows the character at `i`, if there is one (`Some('x')` or `None`).
pub open spec fn found_debug(s: Seq<char>, i: int) -> Seq<char> {
    if 0 <= i < s.len() { "Some("@ + char_debug(s[i]) + ")"@ } else { "None"@ }
}

/// Append `found_debug(chars, i)` to `out`.
pub fn push_found_debug(out: &mut Vec<char>, chars: &[char], i: usize)
    ensures
        final(out)@ == old(out)@ + found_debug(chars@, i as int),
{
    let ghost start = out@;
    if i < chars.len() {
        crate::text::push_str(out, "Some(");
        let d = debug_char(chars[i]);
        crate::text::push_str(out, d.as_str());
        crate::text::push_str(out, ")");
        assert(out@ =~= start + ("Some("@ + char_debug(chars@[i as int]) + ")"@));
    } else {
        crate::text::push_str(out, "None");
    }
}

/// The error of a quoted string that does not start at `i`.
pub open spec fn expected_quote_message(s: Seq<char>, i: int) -> Seq<char> {
    "expected '\"', found "@ + found_debug(s, i)
}

/// Read a double-quoted string, consuming both quotes.
pub fn take_quoted_string(chars: &[char], i: &mut usize) -> (r: Result<String, OgreError>)
    ensures
        ({
            let s = chars@;
            let i0 = *old(i) as int;
            if i0 >= s.len() || s[i0] != '"' {
                &&& text_result(r) == Err::<Seq<char>, Fail>(Fail::Other(expected_quote_message(s, i0)))
                &&& *final(i) == i0
            } else if quote_close(s, i0 + 1) >= s.len() {
                &&& text_result(r) == Err::<Seq<char>, Fail>(Fail::Other("unterminated string literal"@))
                &&& *final(i) == s.len()
            } else {
                &&& r is Ok
                &&& r->Ok_0@ == s.subrange(i0 + 1, quote_close(s, i0 + 1))
                &&& *final(i) == quote_close(s, i0 + 1) + 1
            }
        }),
{
    if *i >= chars.len() || chars[*i] != '"' {
        let mut v: Vec<char> = Vec::new();
        crate::text::push_str(&mut v, "expected '\"', found ");
        push_found_debug(&mut v, chars, *i);
        let msg = chars_to_string(&v);
        return Err(OgreError::Other(msg));
    }
    *i += 1;
    let ghost start = *i;
    proof {
        lemma_quote_close(chars@, start as int);
    }
    let mut v: Vec<char> = Vec::new();
    loop
        invariant_except_break
            start == *old(i) + 1,
            *old(i) < chars@.len(),
            chars@[*old(i) as int] == '"',
            start <= *i <= chars@.len(),
            start <= quote_close(chars@, start as int),
            quote_close(chars@, start as int) == quote_close(chars@, *i as int),
            v@ == chars@.subrange(start as int, *i as int),
        ensures
            start < *i <= chars@.len(),
            *i - 1 == quote_close(chars@, start as int),
            v@ == chars@.subrange(start as int, *i - 1),
        decreases chars@.len() - *i,
    {
        if *i >= chars.len() {
            let msg = String::from_str("unterminated string literal");
            return Err(OgreError::Other(msg));
        }
        if chars[*i] == '"' {
            *i += 1;
            break;
        }
        v.push(chars[*i]);
        *i += 1;
        assert(v@ =~= chars@.subrange(start as int, *i as int));
    }
    Ok(chars_to_string(&v))
}

/// Read everything up to the matching `}`, consuming the `}`.
/// The opening `{` has already been consumed by the caller.
pub fn take_brace_body(chars: &[char], i: &mut usize) -> (r: Result<String, OgreError>)
    ensures
        ({
            let s = chars@;
            let i0 = *old(i) as int;
            let close = brace_close(s, i0, 1);
            if i0 >= s.len() {
                &&& text_result(r) == Err::<Seq<char>, Fail>(Fail::Other("unclosed '{'"@))
                &&& *final(i) == i0
            } else if close >= s.len() {
                &&& text_result(r) == Err::<Seq<char>, Fail>(Fail::Other("unclosed '{'"@))
                &&& *final(i) == s.len()
            } else {
                &&& r is Ok
                &&& r->Ok_0@ == s.subrange(i0, close)
                &&& *final(i) == close + 1
            }
        }),
{
    let ghost start = *i;
    let mut v: Vec<char> = Vec::new();
    // `extra` is the nesting depth minus one.
    let mut extra: usize = 0;
    let mut closed = false;
    while *i < chars.len()
        invariant_except_break
            !closed,
            start <= chars@.len() ==> start <= *i <= chars@.len(),
            start > chars@.len() ==> *i == start,
            extra <= *i - start,
            brace_close(chars@, start as int, 1) == brace_close(chars@, *i as int, (extra + 1) as nat),
            start <= chars@.len() ==> v@ == chars@.subrange(start as int, *i as int),
        ensures
            closed ==> start < chars@.len() && *i == brace_close(chars@, start as int, 1) + 1
                && brace_close(chars@, start as int, 1) < chars@.len()
                && v@ == chars@.subrange(start as int, *i - 1),
            !closed ==> (start <= chars@.len() ==> *i == chars@.len()) && (start > chars@.len() ==> *i == start)
                && brace_close(chars@, start as int, 1) == chars@.len(),
        decreases chars@.len() - *i,
    {
        let c = chars[*i];
        if c == '{' {
            extra += 1;
            v.push('{');
            *i += 1;
            assert(v@ =~= chars@.subrange(start as int, *i as int));
        } else if c == '}' {
            if extra == 0 {
                *i += 1;
                closed = true;
                break;
            }
            extra -= 1;
            v.push('}');
            *i += 1;
            assert(v@ =~= chars@.subrange(start as int, *i as int));
        } else {
            v.push(c);
            *i += 1;
            assert(v@ =~= chars@.subrange(start as int, *i as int));
        }
    }
    if !closed {
        let msg = String::from_str("unclosed '{'");
        return Err(OgreError::Other(msg));
    }
    Ok(chars_to_string(&v))
}

} // verus!

use vstd::prelude::*;

use crate::error::{Fail, OgreError};
use crate::text::{chars_to_string, decimal, is_bf_char, push_str, push_usize, str_to_chars};
use super::ir::bf_filter;

verus! {

/// Known dialect definitions: a name and the eight tokens that stand for
/// `+ - < > . , [ ]`, in that order.
#[derive(Debug, Clone)]
pub struct Dialect {
    pub name: String,
    pub tokens: Vec<String>,
}

/// The value of a [`Dialect`].
pub struct DialectView {
    pub name: Seq<char>,
    pub tokens: Seq<Seq<char>>,
}

/// The texts of a list of strings.
pub open spec fn string_seqs(v: Seq<String>) -> Seq<Seq<char>> {
    v.map_values(|s: String| s@)
}

impl View for Dialect {
    type V = DialectView;

    open spec fn view(&self) -> DialectView {
        DialectView { name: self.name@, tokens: string_seqs(self.tokens@) }
    }
}

/// The standard operators in canonical order.
pub open spec fn bf_ops() -> Seq<char> {
    seq!['+', '-', '<', '>', '.', ',', '[', ']']
}

/// The position of `c` among the standard operators, or -1.
pub open spec fn bf_index(c: char) -> int {
    if c == '+' {
        0
    } else if c == '-' {
        1
    } else if c == '<' {
        2
    } else if c == '>' {
        3
    } else if c == '.' {
        4
    } else if c == ',' {
        5
    } else if c == '[' {
        6
    } else if c == ']' {
        7
    } else {
        -1
    }
}

pub open spec fn ook_tokens() -> Seq<Seq<char>> {
    seq![
        "Ook. Ook. "@,
        "Ook! Ook! "@,
        "Ook. Ook? "@,
        "Ook? Ook. "@,
        "Ook! Ook. "@,
        "Ook. Ook! "@,
        "Ook! Ook? "@,
        "Ook? Ook! "@,
    ]
}

pub open spec fn troll_tokens() -> Seq<Seq<char>> {
    seq!["ooo"@, "ool"@, "olo"@, "oll"@, "loo"@, "lol"@, "llo"@, "lll"@]
}

/// The one-character tokens of a text.
pub open spec fn char_tokens(s: Seq<char>) -> Seq<Seq<char>> {
    s.map_values(|c: char| seq![c])
}

/// What `str::to_lowercase` gives for a text.
pub uninterp spec fn lowercase(s: Seq<char>) -> Seq<char>;

/// A character in lower case, for ASCII: `A` to `Z` become `a` to `z`.
pub open spec fn ascii_lower(c: char) -> char {
    if 'A' <= c && c <= 'Z' { ((c as u32) + 32) as char } else { c }
}

/// std's `str::to_lowercase`. Claimed: the result is `lowercase` of the text, a
/// function of it alone; on ASCII text it lowers `A` to `Z` and keeps every
/// other character, as Unicode's lowercase mapping does there.
#[verifier::external_body]
fn to_lower(s: &str) -> (r: String)
    ensures
        r@ == lowercase(s@),
        vstd::utf8::is_ascii_chars(s@) ==> r@ == s@.map_values(|c: char| ascii_lower(c)),
{
    s.to_lowercase()
}

/// The dialect a name stands for, compared in lower case.
pub open spec fn dialect_named(name: Seq<char>) -> Option<DialectView> {
    let l = lowercase(name);
    if l == "bf"@ || l == "brainfuck"@ {
        Some(DialectView { name: "brainfuck"@, tokens: char_tokens(bf_ops()) })
    } else if l == "ook"@ || l == "ook!"@ {
        Some(DialectView { name: "ook"@, tokens: ook_tokens() })
    } else if l == "trollscript"@ || l == "troll"@ {
        Some(DialectView { name: "trollscript"@, tokens: troll_tokens() })
    } else {
        None
    }
}

/// The error for a dialect name that is not known.
pub open spec fn unknown_dialect_text(name: Seq<char>) -> Seq<char> {
    "unknown dialect '"@ + lowercase(name) + "'. Available: brainfuck, ook, trollscript"@
}

fn strings_of(v: &[&str]) -> (r: Vec<String>)
    ensures
        string_seqs(r@) == v@.map_values(|s: &str| s@),
{
    let mut r: Vec<String> = Vec::new();
    let mut k: usize = 0;
    while k < v.len()
        invariant
            k <= v@.len(),
            string_seqs(r@) == v@.map_values(|s: &str| s@).take(k as int),
        decreases v@.len() - k,
    {
        let s = String::from_str(v[k]);
        let ghost before = r@;
        r.push(s);
        assert(string_seqs(r@) =~= string_seqs(before).push(v@[k as int]@));
        assert(v@.map_values(|s: &str| s@).take(k + 1) =~= v@.map_values(|s: &str| s@).take(k as int).push(
            v@[k as int]@,
        ));
        k += 1;
    }
    assert(v@.map_values(|s: &str| s@).take(k as int) =~= v@.map_values(|s: &str| s@));
    r
}

impl Dialect {
    /// Standard Brainfuck dialect.
    pub fn brainfuck() -> (d: Self)
        ensures
            d@ == (DialectView { name: "brainfuck"@, tokens: char_tokens(bf_ops()) }),
    {
        let v: Vec<&str> = vec!["+", "-", "<", ">", ".", ",", "[", "]"];
        let tokens = strings_of(v.as_slice());
        proof {
            reveal_strlit("+");
            reveal_strlit("-");
            reveal_strlit("<");
            reveal_strlit(">");
            reveal_strlit(".");
            reveal_strlit(",");
            reveal_strlit("[");
            reveal_strlit("]");
            assert(string_seqs(tokens@) =~= char_tokens(bf_ops())) by {
                assert(string_seqs(tokens@)[0] =~= seq!['+']);
                assert(string_seqs(tokens@)[1] =~= seq!['-']);
                assert(string_seqs(tokens@)[2] =~= seq!['<']);
                assert(string_seqs(tokens@)[3] =~= seq!['>']);
                assert(string_seqs(tokens@)[4] =~= seq!['.']);
                assert(string_seqs(tokens@)[5] =~= seq![',']);
                assert(string_seqs(tokens@)[6] =~= seq!['[']);
                assert(string_seqs(tokens@)[7] =~= seq![']']);
            }
        }
        Dialect { name: String::from_str("brainfuck"), tokens }
    }

    /// Ook! dialect.
    pub fn ook() -> (d: Self)
        ensures
            d@ == (DialectView { name: "ook"@, tokens: ook_tokens() }),
    {
        let v: Vec<&str> = vec![
            "Ook. Ook. ",
            "Ook! Ook! ",
            "Ook. Ook? ",
            "Ook? Ook. ",
            "Ook! Ook. ",
            "Ook. Ook! ",
            "Ook! Ook? ",
            "Ook? Ook! ",
        ];
        let tokens = strings_of(v.as_slice());
        assert(string_seqs(tokens@) =~= ook_tokens());
        Dialect { name: String::from_str("ook"), tokens }
    }

    /// Trollscript dialect.
    pub fn trollscript() -> (d: Self)
        ensures
            d@ == (DialectView { name: "trollscript"@, tokens: troll_tokens() }),
    {
        let v: Vec<&str> = vec!["ooo", "ool", "olo", "oll", "loo", "lol", "llo", "lll"];
        let tokens = strings_of(v.as_slice());
        assert(string_seqs(tokens@) =~= troll_tokens());
        Dialect { name: String::from_str("trollscript"), tokens }
    }

    /// Create a custom dialect from a character mapping string.
    /// The string must have exactly 8 characters mapping to: + - < > . , [ ]
    pub fn custom(name: &str, mapping: &str) -> (r: Result<Self, OgreError>)
        ensures
            mapping@.len() == 8 ==> r is Ok && r->Ok_0@ == (DialectView { name: name@, tokens: char_tokens(mapping@) }),
            mapping@.len() != 8 ==> r is Err && r->Err_0@ == Fail::Other(
                "custom mapping must have exactly 8 characters (got "@ + decimal(mapping@.len())
                    + "). Order: + - < > . , [ ]"@,
            ),
    {
        let chars = str_to_chars(mapping);
        if chars.len() != 8 {
            let mut v: Vec<char> = Vec::new();
            push_str(&mut v, "custom mapping must have exactly 8 characters (got ");
            push_usize(&mut v, chars.len());
            push_str(&mut v, "). Order: + - < > . , [ ]");
            return Err(OgreError::Other(chars_to_string(&v)));
        }
        let mut tokens: Vec<String> = Vec::new();
        let mut k: usize = 0;
        while k < chars.len()
            invariant
                chars@ == mapping@,
                k <= chars@.len(),
                string_seqs(tokens@) == char_tokens(mapping@).take(k as int),
            decreases chars@.len() - k,
        {
            let mut one: Vec<char> = Vec::new();
            one.push(chars[k]);
            let s = chars_to_string(&one);
            let ghost before = tokens@;
            tokens.push(s);
            assert(string_seqs(tokens@) =~= string_seqs(before).push(seq![mapping@[k as int]]));
            assert(char_tokens(mapping@).take(k + 1) =~= char_tokens(mapping@).take(k as int).push(
                seq![mapping@[k as int]],
            ));
            k += 1;
        }
        assert(char_tokens(mapping@).take(k as int) =~= char_tokens(mapping@));
        Ok(Dialect { name: String::from_str(name), tokens })
    }

    /// Get a named dialect.
    pub fn by_name(name: &str) -> (r: Result<Self, OgreError>)
        ensures
            vstd::utf8::is_ascii_chars(name@) ==> lowercase(name@) == name@.map_values(|c: char| ascii_lower(c)),
            match dialect_named(name@) {
                Some(d) => r is Ok && r->Ok_0@ == d,
                None => r is Err && r->Err_0@ == Fail::Other(unknown_dialect_text(name@)),
            },
    {
        let l = to_lower(name);
        if l == String::from_str("bf") || l == String::from_str("brainfuck") {
            Ok(Self::brainfuck())
        } else if l == String::from_str("ook") || l == String::from_str("ook!") {
            Ok(Self::ook())
        } else if l == String::from_str("trollscript") || l == String::from_str("troll") {
            Ok(Self::trollscript())
        } else {
            let mut v: Vec<char> = Vec::new();
            push_str(&mut v, "unknown dialect '");
            push_str(&mut v, l.as_str());
            push_str(&mut v, "'. Available: brainfuck, ook, trollscript");
            Err(OgreError::Other(chars_to_string(&v)))
        }
    }
}

/// Conversion from standard brainfuck: each operator becomes its token in `to`,
/// anything else is dropped.
pub open spec fn convert_from_bf(src: Seq<char>, to: Seq<Seq<char>>) -> Seq<char>
    decreases src.len(),
{
    if src.len() == 0 {
        Seq::empty()
    } else {
        convert_from_bf(src.drop_last(), to) + if bf_index(src.last()) >= 0 {
            to[bf_index(src.last())]
        } else {
            Seq::empty()
        }
    }
}

/// The first token, from position `k` on, that `rest` begins with, or -1.
pub open spec fn first_token(rest: Seq<char>, toks: Seq<Seq<char>>, k: int) -> int
    decreases toks.len() - k,
{
    if k < 0 || k >= toks.len() {
        -1
    } else if rest.len() >= toks[k].len() && rest.take(toks[k].len() as int) == toks[k] {
        k
    } else {
        first_token(rest, toks, k + 1)
    }
}

/// The number of bytes of a character in UTF-8.
pub open spec fn utf8_width(c: char) -> nat {
    let u = c as u32;
    if u < 0x80 { 1 } else if u < 0x800 { 2 } else if u < 0x10000 { 3 } else { 4 }
}

/// The length of a text in UTF-8 bytes (what `str::len` gives).
pub open spec fn utf8_len(s: Seq<char>) -> nat
    decreases s.len(),
{
    if s.len() == 0 { 0 } else { utf8_len(s.drop_last()) + utf8_width(s.last()) }
}

/// `utf8_len(v)`, or `usize::MAX` when it is larger.
pub(crate) fn byte_len(v: &Vec<char>) -> (r: usize)
    ensures
        r as nat == if utf8_len(v@) > usize::MAX { usize::MAX as nat } else { utf8_len(v@) },
{
    let mut n: usize = 0;
    let mut k: usize = 0;
    while k < v.len()
        invariant
            k <= v@.len(),
            n as nat == if utf8_len(v@.take(k as int)) > usize::MAX { usize::MAX as nat } else { utf8_len(v@.take(k as int)) },
        decreases v@.len() - k,
    {
        let u = v[k] as u32;
        let w: usize = if u < 0x80 { 1 } else if u < 0x800 { 2 } else if u < 0x10000 { 3 } else { 4 };
        proof {
            assert(v@.take(k + 1).drop_last() =~= v@.take(k as int));
        }
        n = n.saturating_add(w);
        k += 1;
    }
    assert(v@.take(k as int) =~= v@);
    n
}

/// Conversion by token matching from character position `pos`: the first token
/// of `from` that the rest begins with becomes the token of `to` at the same
/// position, and the position moves on by the token's length in UTF-8 bytes;
/// where no token matches, one character is dropped.
pub open spec fn convert_tokens(src: Seq<char>, from: Seq<Seq<char>>, to: Seq<Seq<char>>, pos: int) -> Seq<char>
    decreases src.len() - pos,
{
    if pos < 0 || pos >= src.len() {
        Seq::empty()
    } else {
        let m = first_token(src.skip(pos), from, 0);
        if m >= 0 {
            let step = utf8_len(from[m]);
            if step > 0 && pos + step < src.len() {
                to[m] + convert_tokens(src, from, to, pos + step)
            } else {
                to[m]
            }
        } else {
            convert_tokens(src, from, to, pos + 1)
        }
    }
}

/// Conversion of `src` from one dialect to another.
pub open spec fn convert_spec(src: Seq<char>, from: DialectView, to: DialectView) -> Seq<char> {
    if from.name == "brainfuck"@ {
        convert_from_bf(src, to.tokens)
    } else {
        convert_tokens(src, from.tokens, to.tokens, 0)
    }
}

proof fn lemma_first_token(rest: Seq<char>, toks: Seq<Seq<char>>, k: int)
    requires
        0 <= k,
    ensures
        -1 <= first_token(rest, toks, k) < toks.len(),
        first_token(rest, toks, k) >= 0 ==> first_token(rest, toks, k) >= k,
    decreases toks.len() - k,
{
    if k < toks.len() && !(rest.len() >= toks[k].len() && rest.take(toks[k].len() as int) == toks[k]) {
        lemma_first_token(rest, toks, k + 1);
    }
}

/// The position of `c` among the standard operators.
fn bf_position(c: char) -> (r: Option<usize>)
    ensures
        match r {
            Some(i) => i as int == bf_index(c) && i < 8,
            None => bf_index(c) < 0,
        },
{
    if c == '+' {
        Some(0)
    } else if c == '-' {
        Some(1)
    } else if c == '<' {
        Some(2)
    } else if c == '>' {
        Some(3)
    } else if c == '.' {
        Some(4)
    } else if c == ',' {
        Some(5)
    } else if c == '[' {
        Some(6)
    } else if c == ']' {
        Some(7)
    } else {
        None
    }
}

/// Whether `tok` occurs in `chars` at `pos`.
fn token_at(chars: &Vec<char>, pos: usize, tok: &Vec<char>) -> (b: bool)
    requires
        pos <= chars@.len(),
    ensures
        b == (chars@.skip(pos as int).len() >= tok@.len() && chars@.skip(pos as int).take(tok@.len() as int) == tok@),
{
    let ghost rest = chars@.skip(pos as int);
    if tok.len() > chars.len() - pos {
        return false;
    }
    let mut t: usize = 0;
    while t < tok.len()
        invariant
            pos <= chars@.len(),
            rest == chars@.skip(pos as int),
            tok@.len() <= chars@.len() - pos,
            pos + tok.len() <= chars.len(),
            t <= tok@.len(),
            forall|y: int| 0 <= y < t ==> chars@[pos + y] == tok@[y],
        decreases tok@.len() - t,
    {
        if chars[pos + t] != tok[t] {
            assert(rest.take(tok@.len() as int)[t as int] != tok@[t as int]);
            return false;
        }
        t += 1;
    }
    assert(rest.take(tok@.len() as int) =~= tok@);
    true
}

/// Convert source code from one dialect to another.
pub fn convert(source: &str, from: &Dialect, to: &Dialect) -> (r: String)
    requires
        from@.name == "brainfuck"@ ==> to@.tokens.len() >= 8,
        from@.name != "brainfuck"@ ==> to@.tokens.len() >= from@.tokens.len(),
        from@.name != "brainfuck"@ ==> forall|i: int| 0 <= i < from@.tokens.len() ==> (#[trigger] from@.tokens[i]).len() > 0,
    ensures
        r@ == convert_spec(source@, from@, to@),
{
    let chars = str_to_chars(source);
    let mut result: Vec<char> = Vec::new();
    if from.name == String::from_str("brainfuck") {
        let mut k: usize = 0;
        while k < chars.len()
            invariant
                chars@ == source@,
                k <= chars@.len(),
                to@.tokens.len() >= 8,
                result@ == convert_from_bf(chars@.take(k as int), to@.tokens),
            decreases chars@.len() - k,
        {
            proof {
                assert(chars@.take(k + 1).drop_last() =~= chars@.take(k as int));
            }
            match bf_position(chars[k]) {
                Some(idx) => {
                    push_str(&mut result, to.tokens[idx].as_str());
                },
                None => {
                    assert(result@ + Seq::<char>::empty() =~= result@);
                },
            }
            k += 1;
        }
        assert(chars@.take(k as int) =~= chars@);
    } else {
        let ghost fs = from@.tokens;
        let ghost ts = to@.tokens;
        let mut pos: usize = 0;
        while pos < chars.len()
            invariant
                chars@ == source@,
                fs == from@.tokens,
                ts == to@.tokens,
                ts.len() >= fs.len(),
                forall|i: int| 0 <= i < fs.len() ==> (#[trigger] fs[i]).len() > 0,
                convert_tokens(chars@, fs, ts, 0) == result@ + convert_tokens(chars@, fs, ts, pos as int),
            decreases chars@.len() - pos,
        {
            let mut idx: usize = 0;
            let mut found = false;
            let ghost rest = chars@.skip(pos as int);
            while !found && idx < from.tokens.len()
                invariant
                    fs == from@.tokens,
                    pos < chars@.len(),
                    rest == chars@.skip(pos as int),
                    idx <= fs.len(),
                    !found ==> first_token(rest, fs, 0) == first_token(rest, fs, idx as int),
                    found ==> idx < fs.len() && first_token(rest, fs, 0) == idx,
                decreases fs.len() - idx + (if found { 0int } else { 1int }),
            {
                let tok = str_to_chars(from.tokens[idx].as_str());
                if token_at(&chars, pos, &tok) {
                    found = true;
                } else {
                    idx += 1;
                }
            }
            if found {
                let tc = str_to_chars(from.tokens[idx].as_str());
                let step = byte_len(&tc);
                proof {
                    let t = fs[idx as int];
                    assert(t.len() > 0);
                    assert(utf8_len(t) >= 1);
                }
                let ghost before = result@;
                push_str(&mut result, to.tokens[idx].as_str());
                proof {
                    let ghost step_n = utf8_len(fs[idx as int]);
                    if pos + step_n < chars@.len() {
                        assert(before + (ts[idx as int] + convert_tokens(chars@, fs, ts, pos + step_n)) =~= result@
                            + convert_tokens(chars@, fs, ts, pos + step_n));
                    } else {
                        assert(before + ts[idx as int] + Seq::<char>::empty() =~= result@);
                    }
                }
                let next = pos.saturating_add(step);
                pos = if next < chars.len() { next } else { chars.len() };
            } else {
                proof {
                    lemma_first_token(rest, fs, 0);
                }
                pos += 1;
            }
        }
    }
    chars_to_string(&result)
}

/// Convert from BF to a target dialect string.
pub fn convert_bf_to(source: &str, target_name: &str) -> (r: Result<String, OgreError>)
    ensures
        match dialect_named(target_name@) {
            Some(d) => r is Ok && r->Ok_0@ == convert_from_bf(source@, d.tokens),
            None => r is Err && r->Err_0@ == Fail::Other(unknown_dialect_text(target_name@)),
        },
{
    let from = Dialect::brainfuck();
    let to = match Dialect::by_name(target_name) {
        Ok(d) => d,
        Err(e) => {
            return Err(e);
        },
    };
    Ok(convert(source, &from, &to))
}

/// Convert from a source dialect to BF.
pub fn convert_to_bf(source: &str, source_name: &str) -> (r: Result<String, OgreError>)
    ensures
        match dialect_named(source_name@) {
            Some(d) => r is Ok && r->Ok_0@ == convert_spec(source@, d, DialectView { name: "brainfuck"@, tokens: char_tokens(bf_ops()) }),
            None => r is Err && r->Err_0@ == Fail::Other(unknown_dialect_text(source_name@)),
        },
{
    let from = match Dialect::by_name(source_name) {
        Ok(d) => d,
        Err(e) => {
            return Err(e);
        },
    };
    let to = Dialect::brainfuck();
    proof {
        reveal_strlit("brainfuck");
        reveal_strlit("ook");
        reveal_strlit("trollscript");
        reveal_strlit("Ook. Ook. ");
        reveal_strlit("Ook! Ook! ");
        reveal_strlit("Ook. Ook? ");
        reveal_strlit("Ook? Ook. ");
        reveal_strlit("Ook! Ook. ");
        reveal_strlit("Ook. Ook! ");
        reveal_strlit("Ook! Ook? ");
        reveal_strlit("Ook? Ook! ");
        reveal_strlit("ooo");
        reveal_strlit("ool");
        reveal_strlit("olo");
        reveal_strlit("oll");
        reveal_strlit("loo");
        reveal_strlit("lol");
        reveal_strlit("llo");
        reveal_strlit("lll");
    }
    Ok(convert(source, &from, &to))
}

/// List available dialect names.
pub fn list_dialects() -> (r: Vec<&'static str>)
    ensures
        r@.len() == 3,
        r@[0]@ == "brainfuck"@,
        r@[1]@ == "ook"@,
        r@[2]@ == "trollscript"@,
{
    vec!["brainfuck", "ook", "trollscript"]
}

// ---------------------------------------------------------------------------
// Reading back what was written
// ---------------------------------------------------------------------------

/// What one character becomes when written with the tokens `x`.
pub open spec fn written(c: char, x: Seq<Seq<char>>) -> Seq<char> {
    if bf_index(c) >= 0 { x[bf_index(c)] } else { Seq::empty() }
}

/// Tokens that can be read back: eight distinct ones, all `n` ASCII
/// characters long.
pub open spec fn readable_tokens(t: Seq<Seq<char>>, n: nat) -> bool {
    &&& t.len() == 8
    &&& n > 0
    &&& forall|i: int| 0 <= i < 8 ==> (#[trigger] t[i]).len() == n && utf8_len(t[i]) == n
    &&& forall|i: int, j: int| 0 <= i < 8 && 0 <= j < 8 && i != j ==> #[trigger] t[i] != #[trigger] t[j]
}

proof fn lemma_ascii_len(s: Seq<char>)
    requires
        forall|k: int| 0 <= k < s.len() ==> (#[trigger] s[k] as u32) < 0x80,
    ensures
        utf8_len(s) == s.len(),
    decreases s.len(),
{
    if s.len() > 0 {
        lemma_ascii_len(s.drop_last());
        assert((s[s.len() - 1] as u32) < 0x80);
    }
}

proof fn lemma_tokens_distinct(i: int, j: int)
    requires
        0 <= i < 8,
        0 <= j < 8,
        i != j,
    ensures
        troll_tokens()[i] != troll_tokens()[j],
        ook_tokens()[i] != ook_tokens()[j],
{
    reveal_strlit("ooo");
    reveal_strlit("ool");
    reveal_strlit("olo");
    reveal_strlit("oll");
    reveal_strlit("loo");
    reveal_strlit("lol");
    reveal_strlit("llo");
    reveal_strlit("lll");
    reveal_strlit("Ook. Ook. ");
    reveal_strlit("Ook! Ook! ");
    reveal_strlit("Ook. Ook? ");
    reveal_strlit("Ook? Ook. ");
    reveal_strlit("Ook! Ook. ");
    reveal_strlit("Ook. Ook! ");
    reveal_strlit("Ook! Ook? ");
    reveal_strlit("Ook? Ook! ");
    let t = troll_tokens();
    let o = ook_tokens();
    if t[i] == t[j] {
        assert(t[i][0] == t[j][0] && t[i][1] == t[j][1] && t[i][2] == t[j][2]);
    }
    if o[i] == o[j] {
        assert(o[i][3] == o[j][3] && o[i][8] == o[j][8]);
    }
}

proof fn lemma_token_shape(i: int)
    requires
        0 <= i < 8,
    ensures
        troll_tokens()[i].len() == 3,
        utf8_len(troll_tokens()[i]) == 3,
        ook_tokens()[i].len() == 10,
        utf8_len(ook_tokens()[i]) == 10,
{
    reveal_strlit("ooo");
    reveal_strlit("ool");
    reveal_strlit("olo");
    reveal_strlit("oll");
    reveal_strlit("loo");
    reveal_strlit("lol");
    reveal_strlit("llo");
    reveal_strlit("lll");
    reveal_strlit("Ook. Ook. ");
    reveal_strlit("Ook! Ook! ");
    reveal_strlit("Ook. Ook? ");
    reveal_strlit("Ook? Ook. ");
    reveal_strlit("Ook! Ook. ");
    reveal_strlit("Ook. Ook! ");
    reveal_strlit("Ook! Ook? ");
    reveal_strlit("Ook? Ook! ");
    let t = troll_tokens()[i];
    let o = ook_tokens()[i];
    assert forall|k: int| 0 <= k < t.len() implies (#[trigger] t[k] as u32) < 0x80 by {
        assert(t[k] == 'o' || t[k] == 'l');
    }
    assert forall|k: int| 0 <= k < o.len() implies (#[trigger] o[k] as u32) < 0x80 by {
        assert(o[k] == 'O' || o[k] == 'o' || o[k] == 'k' || o[k] == '.' || o[k] == '!' || o[k] == '?' || o[k] == ' ');
    }
    lemma_ascii_len(t);
    lemma_ascii_len(o);
}

proof fn lemma_known_tokens()
    ensures
        readable_tokens(troll_tokens(), 3),
        readable_tokens(ook_tokens(), 10),
{
    assert forall|i: int| 0 <= i < 8 implies (#[trigger] troll_tokens()[i]).len() == 3 && utf8_len(troll_tokens()[i]) == 3 by {
        lemma_token_shape(i);
    }
    assert forall|i: int| 0 <= i < 8 implies (#[trigger] ook_tokens()[i]).len() == 10 && utf8_len(ook_tokens()[i]) == 10 by {
        lemma_token_shape(i);
    }
    assert forall|i: int, j: int| 0 <= i < 8 && 0 <= j < 8 && i != j implies #[trigger] troll_tokens()[i]
        != #[trigger] troll_tokens()[j] by {
        lemma_tokens_distinct(i, j);
    }
    assert forall|i: int, j: int| 0 <= i < 8 && 0 <= j < 8 && i != j implies #[trigger] ook_tokens()[i]
        != #[trigger] ook_tokens()[j] by {
        lemma_tokens_distinct(i, j);
    }
}

proof fn lemma_bf_index_range(c: char)
    ensures
        -1 <= bf_index(c) < 8,
{
}

proof fn lemma_written_concat(a: Seq<char>, b: Seq<char>, x: Seq<Seq<char>>)
    ensures
        convert_from_bf(a + b, x) == convert_from_bf(a, x) + convert_from_bf(b, x),
    decreases b.len(),
{
    if b.len() == 0 {
        assert(a + b =~= a);
        assert(convert_from_bf(a, x) + convert_from_bf(b, x) =~= convert_from_bf(a, x));
    } else {
        lemma_written_concat(a, b.drop_last(), x);
        assert((a + b).drop_last() =~= a + b.drop_last());
        assert((a + b).last() == b.last());
        assert(convert_from_bf(a + b, x) =~= convert_from_bf(a, x) + convert_from_bf(b, x));
    }
}

proof fn lemma_written_front(s: Seq<char>, x: Seq<Seq<char>>)
    requires
        s.len() > 0,
    ensures
        convert_from_bf(s, x) == written(s[0], x) + convert_from_bf(s.skip(1), x),
{
    let a = seq![s[0]];
    assert(s =~= a + s.skip(1));
    lemma_written_concat(a, s.skip(1), x);
    assert(a.drop_last() =~= Seq::<char>::empty());
    assert(a.last() == s[0]);
    assert(convert_from_bf(Seq::<char>::empty(), x) =~= Seq::<char>::empty());
    assert(convert_from_bf(a, x) =~= written(s[0], x));
}

proof fn lemma_nothing_written(s: Seq<char>, t: Seq<Seq<char>>, n: nat, x: Seq<Seq<char>>)
    requires
        readable_tokens(t, n),
        convert_from_bf(s, t).len() == 0,
    ensures
        convert_from_bf(s, x) == Seq::<char>::empty(),
    decreases s.len(),
{
    if s.len() > 0 {
        lemma_bf_index_range(s.last());
        if bf_index(s.last()) >= 0 {
            assert(t[bf_index(s.last())].len() == n);
        }
        lemma_nothing_written(s.drop_last(), t, n, x);
        assert(convert_from_bf(s, x) =~= Seq::<char>::empty());
    }
}

proof fn lemma_first_token_is(r: Seq<char>, t: Seq<Seq<char>>, n: nat, i: int, k: int)
    requires
        readable_tokens(t, n),
        0 <= k <= i < 8,
        r.len() >= n,
        r.take(n as int) == t[i],
    ensures
        first_token(r, t, k) == i,
    decreases i - k,
{
    if k < i {
        assert(t[k] != t[i]);
        assert(t[k].len() == n);
        lemma_first_token_is(r, t, n, i, k + 1);
    } else {
        assert(t[i].len() == n);
    }
}

proof fn lemma_read_back(src: Seq<char>, pos: int, s: Seq<char>, t: Seq<Seq<char>>, n: nat, x: Seq<Seq<char>>)
    requires
        readable_tokens(t, n),
        0 <= pos <= src.len(),
        src.skip(pos) == convert_from_bf(s, t),
    ensures
        convert_tokens(src, t, x, pos) == convert_from_bf(s, x),
    decreases s.len(),
{
    if s.len() == 0 {
        assert(src.skip(pos).len() == 0);
    } else {
        let c = s[0];
        let rest = s.skip(1);
        lemma_written_front(s, t);
        lemma_written_front(s, x);
        lemma_bf_index_range(c);
        if bf_index(c) < 0 {
            assert(convert_from_bf(s, t) =~= convert_from_bf(rest, t));
            lemma_read_back(src, pos, rest, t, n, x);
            assert(convert_from_bf(s, x) =~= convert_from_bf(rest, x));
        } else {
            let i = bf_index(c);
            let r = src.skip(pos);
            let enc_rest = convert_from_bf(rest, t);
            assert(t[i].len() == n && utf8_len(t[i]) == n);
            assert(r =~= t[i] + enc_rest);
            assert(r.take(n as int) =~= t[i]);
            lemma_first_token_is(r, t, n, i, 0);
            assert(pos < src.len());
            assert(r.len() == n + enc_rest.len());
            if pos + n < src.len() {
                assert forall|k: int| 0 <= k < enc_rest.len() implies #[trigger] src.skip(pos + n)[k] == enc_rest[k] by {
                    assert(src.skip(pos + n)[k] == src[pos + n + k]);
                    assert(r[n + k] == src[pos + n + k]);
                    assert((t[i] + enc_rest)[n + k] == enc_rest[k]);
                }
                assert(src.skip(pos + n) =~= enc_rest);
                lemma_read_back(src, pos + n, rest, t, n, x);
            } else {
                assert(enc_rest.len() == 0);
                lemma_nothing_written(rest, t, n, x);
                assert(convert_from_bf(s, x) =~= x[i]);
            }
        }
    }
}

proof fn lemma_bf_written_twice(s: Seq<char>)
    ensures
        convert_from_bf(convert_from_bf(s, char_tokens(bf_ops())), char_tokens(bf_ops())) == convert_from_bf(
            s,
            char_tokens(bf_ops()),
        ),
    decreases s.len(),
{
    let ct = char_tokens(bf_ops());
    if s.len() > 0 {
        lemma_bf_written_twice(s.drop_last());
        let w = written(s.last(), ct);
        lemma_written_concat(convert_from_bf(s.drop_last(), ct), w, ct);
        lemma_bf_index_range(s.last());
        if bf_index(s.last()) >= 0 {
            let d = bf_ops()[bf_index(s.last())];
            assert(w =~= seq![d]);
            assert(bf_index(d) == bf_index(s.last()));
            assert(seq![d].drop_last() =~= Seq::<char>::empty());
            assert(w.last() == d);
            assert(convert_from_bf(Seq::<char>::empty(), ct) =~= Seq::<char>::empty());
            assert(ct[bf_index(d)] =~= seq![d]);
            assert(convert_from_bf(w, ct) =~= w);
        } else {
            assert(convert_from_bf(w, ct) =~= Seq::<char>::empty());
        }
    }
}

/// A program written in any dialect a name stands for and read back into
/// brainfuck gives the program's commands, in order.
pub proof fn law_dialect_roundtrip(s: Seq<char>, name: Seq<char>)
    requires
        dialect_named(name) is Some,
    ensures
        ({
            let d = dialect_named(name)->Some_0;
            let bf = DialectView { name: "brainfuck"@, tokens: char_tokens(bf_ops()) };
            convert_spec(convert_from_bf(s, d.tokens), d, bf) == convert_from_bf(s, bf.tokens)
        }),
{
    reveal_strlit("brainfuck");
    reveal_strlit("ook");
    reveal_strlit("trollscript");
    let d = dialect_named(name)->Some_0;
    let ct = char_tokens(bf_ops());
    lemma_known_tokens();
    let enc = convert_from_bf(s, d.tokens);
    assert(enc.skip(0) =~= enc);
    let l = lowercase(name);
    let bf = DialectView { name: "brainfuck"@, tokens: ct };
    if l == "bf"@ || l == "brainfuck"@ {
        assert(d.tokens == ct);
        assert(d.name == "brainfuck"@);
        lemma_bf_written_twice(s);
        assert(convert_spec(enc, d, bf) == convert_from_bf(enc, ct));
    } else if l == "ook"@ || l == "ook!"@ {
        assert(d.tokens == ook_tokens());
        assert(d.name.len() != "brainfuck"@.len());
        lemma_read_back(enc, 0, s, d.tokens, 10, ct);
        assert(convert_spec(enc, d, bf) == convert_tokens(enc, d.tokens, ct, 0));
    } else {
        assert(d.tokens == troll_tokens());
        assert(d.name.len() != "brainfuck"@.len());
        lemma_read_back(enc, 0, s, d.tokens, 3, ct);
        assert(convert_spec(enc, d, bf) == convert_tokens(enc, d.tokens, ct, 0));
    }
}

/// Writing with the standard tokens keeps exactly the commands.
proof fn lemma_bf_tokens_filter(s: Seq<char>)
    ensures
        convert_from_bf(s, char_tokens(bf_ops())) == bf_filter(s),
    decreases s.len(),
{
    if s.len() > 0 {
        lemma_bf_tokens_filter(s.drop_last());
        let c = s.last();
        let ct = char_tokens(bf_ops());
        lemma_bf_index_range(c);
        assert(is_bf_char(c) <==> bf_index(c) >= 0);
        if bf_index(c) >= 0 {
            assert(ct[bf_index(c)] =~= seq![c]);
            assert(bf_filter(s.drop_last()).push(c) =~= bf_filter(s.drop_last()) + seq![c]);
        } else {
            assert(convert_from_bf(s.drop_last(), ct) + Seq::<char>::empty() =~= convert_from_bf(s.drop_last(), ct));
        }
    }
}

/// A program written from brainfuck into brainfuck, Ook! or Trollscript, and
/// read back from it, gives the program's commands in order: what minifying
/// it gives.
pub proof fn law_known_dialect_roundtrip(s: Seq<char>, d: DialectView)
    requires
        d == (DialectView { name: "brainfuck"@, tokens: char_tokens(bf_ops()) })
            || d == (DialectView { name: "ook"@, tokens: ook_tokens() })
            || d == (DialectView { name: "trollscript"@, tokens: troll_tokens() }),
    ensures
        ({
            let bf = DialectView { name: "brainfuck"@, tokens: char_tokens(bf_ops()) };
            convert_spec(convert_spec(s, bf, d), d, bf) == bf_filter(s)
        }),
{
    reveal_strlit("brainfuck");
    reveal_strlit("ook");
    reveal_strlit("trollscript");
    let ct = char_tokens(bf_ops());
    let bf = DialectView { name: "brainfuck"@, tokens: ct };
    lemma_known_tokens();
    lemma_bf_tokens_filter(s);
    let enc = convert_from_bf(s, d.tokens);
    assert(convert_spec(s, bf, d) == enc);
    assert(enc.skip(0) =~= enc);
    if d.name == "brainfuck"@ {
        lemma_bf_written_twice(s);
    } else if d.name == "ook"@ {
        assert(d.name.len() != "brainfuck"@.len());
        lemma_read_back(enc, 0, s, d.tokens, 10, ct);
    } else {
        assert(d.name.len() != "brainfuck"@.len());
        lemma_read_back(enc, 0, s, d.tokens, 3, ct);
    }
}

} // verus!

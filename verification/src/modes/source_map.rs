use vstd::prelude::*;

use crate::text::{chars_to_string, decimal, is_bf_char, push_str, push_usize, str_to_chars};
use super::ir::{Instr, lemma_parse_prefix_inv, parse_char, parse_inv, parse_prefix, parse_source};

verus! {

/// A source location tracking where a character in expanded output originated from.
#[derive(Debug, Clone, PartialEq)]
pub struct SourceLocation {
    /// The file this code came from.
    pub file: String,
    /// 1-based line number in the original file.
    pub line: usize,
    /// 1-based column number in the original file.
    pub column: usize,
    /// The @fn name if this code is inside a function expansion.
    pub function: Option<String>,
}

/// The value of a [`SourceLocation`].
pub struct Loc {
    pub file: Seq<char>,
    pub line: usize,
    pub column: usize,
    pub function: Option<Seq<char>>,
}

impl View for SourceLocation {
    type V = Loc;

    open spec fn view(&self) -> Loc {
        Loc {
            file: self.file@,
            line: self.line,
            column: self.column,
            function: match self.function {
                Some(f) => Some(f@),
                None => None,
            },
        }
    }
}

/// `file:line:column`, followed by ` (@fn name)` inside a function.
pub open spec fn loc_text(l: Loc) -> Seq<char> {
    let base = l.file + ":"@ + decimal(l.line as nat) + ":"@ + decimal(l.column as nat);
    match l.function {
        Some(f) => base + " (@fn "@ + f + ")"@,
        None => base,
    }
}

/// A copy of a string with the same text.
pub fn copy_string(s: &String) -> (r: String)
    ensures
        r@ == s@,
{
    s.clone()
}

impl SourceLocation {
    pub fn new(file: String, line: usize, column: usize) -> (r: Self)
        ensures
            r@ == (Loc { file: file@, line, column, function: None }),
    {
        SourceLocation { file, line, column, function: None }
    }

    pub fn with_function(file: String, line: usize, column: usize, function: String) -> (r: Self)
        ensures
            r@ == (Loc { file: file@, line, column, function: Some(function@) }),
    {
        SourceLocation { file, line, column, function: Some(function) }
    }

    /// A copy of this location.
    pub fn copy(&self) -> (r: Self)
        ensures
            r@ == self@,
    {
        let function = match &self.function {
            Some(f) => Some(copy_string(f)),
            None => None,
        };
        SourceLocation { file: copy_string(&self.file), line: self.line, column: self.column, function }
    }

    /// Format as a human-readable location string.
    pub fn display_short(&self) -> (s: String)
        ensures
            s@ == loc_text(self@),
    {
        let mut v: Vec<char> = Vec::new();
        push_str(&mut v, self.file.as_str());
        push_str(&mut v, ":");
        push_usize(&mut v, self.line);
        push_str(&mut v, ":");
        push_usize(&mut v, self.column);
        match &self.function {
            Some(f) => {
                push_str(&mut v, " (@fn ");
                push_str(&mut v, f.as_str());
                push_str(&mut v, ")");
            },
            None => {},
        }
        assert(v@ =~= loc_text(self@));
        chars_to_string(&v)
    }
}

/// Maps each character position in the expanded BF output to its original source location.
///
/// After preprocessing, the expanded output is a flat string of BF characters.
/// The SourceMap tracks where each character came from, which is useful for:
/// - Debugger: showing original file/line/function context
/// - Error messages: pointing to the original source location
pub struct SourceMap {
    /// One entry per character in the expanded output string.
    locations: Vec<SourceLocation>,
}

/// The values of a list of locations.
pub open spec fn locs_view(v: Seq<SourceLocation>) -> Seq<Loc> {
    v.map_values(|l: SourceLocation| l@)
}

impl View for SourceMap {
    type V = Seq<Loc>;

    closed spec fn view(&self) -> Seq<Loc> {
        locs_view(self.locations@)
    }
}

impl SourceMap {
    pub fn new() -> (r: Self)
        ensures
            r@ == Seq::<Loc>::empty(),
    {
        let r = SourceMap { locations: Vec::new() };
        assert(r@ =~= Seq::<Loc>::empty());
        r
    }

    /// A map with the given locations, one per character of the expanded output.
    pub fn from_locations(locations: Vec<SourceLocation>) -> (r: Self)
        ensures
            r@ == locs_view(locations@),
    {
        SourceMap { locations }
    }

    /// Push a source location for the next character in the expanded output.
    pub fn push(&mut self, loc: SourceLocation)
        ensures
            final(self)@ == old(self)@.push(loc@),
    {
        self.locations.push(loc);
        assert(self@ =~= old(self)@.push(loc@));
    }

    /// Look up the source location for a character position in the expanded output.
    pub fn lookup(&self, position: usize) -> (r: Option<&SourceLocation>)
        ensures
            match r {
                Some(l) => position < self@.len() && l@ == self@[position as int],
                None => position >= self@.len(),
            },
    {
        if position < self.locations.len() {
            Some(&self.locations[position])
        } else {
            None
        }
    }

    /// Look up the source location for an IR op index.
    ///
    /// Since the IR collapses consecutive characters into single ops,
    /// we need a mapping from op index to the first character position
    /// of that op. This is provided by `op_to_char_map`.
    pub fn lookup_op(&self, op_index: usize, op_to_char: &[usize]) -> (r: Option<&SourceLocation>)
        ensures
            match r {
                Some(l) => op_index < op_to_char@.len() && op_to_char@[op_index as int] < self@.len()
                    && l@ == self@[op_to_char@[op_index as int] as int],
                None => op_index >= op_to_char@.len() || op_to_char@[op_index as int] >= self@.len(),
            },
    {
        if op_index < op_to_char.len() {
            self.lookup(op_to_char[op_index])
        } else {
            None
        }
    }

    /// Number of entries in the map.
    pub fn len(&self) -> (n: usize)
        ensures
            n == self@.len(),
    {
        self.locations.len()
    }

    /// Whether the map is empty.
    pub fn is_empty(&self) -> (b: bool)
        ensures
            b == (self@.len() == 0),
    {
        self.locations.len() == 0
    }
}

impl Default for SourceMap {
    fn default() -> (r: Self)
        ensures
            r@ == Seq::<Loc>::empty(),
    {
        Self::new()
    }
}

/// The last character before position `n` when it is a brainfuck command.
pub open spec fn last_bf(s: Seq<char>, n: int) -> Option<char> {
    if n <= 0 || n > s.len() || !is_bf_char(s[n - 1]) { None } else { Some(s[n - 1]) }
}

/// Whether `c` continues the run of the same collapsible command `last`.
pub open spec fn collapses(last: Option<char>, c: char) -> bool {
    last == Some(c) && (c == '+' || c == '-' || c == '>' || c == '<')
}

/// The positions of the first characters of the ops of `s[..n]`.
pub open spec fn op_starts(s: Seq<char>, n: int) -> Seq<usize>
    decreases n,
{
    if n <= 0 || n > s.len() {
        Seq::empty()
    } else if is_bf_char(s[n - 1]) && !collapses(last_bf(s, n - 1), s[n - 1]) {
        op_starts(s, n - 1).push((n - 1) as usize)
    } else {
        op_starts(s, n - 1)
    }
}

/// Build a mapping from IR op indices to character positions in the expanded source.
///
/// When the IR collapses e.g. `+++` into `Add(3)`, we want to map the op back
/// to the character position of the first `+`. This function builds that mapping.
pub fn build_op_to_char_map(source: &str) -> (map: Vec<usize>)
    ensures
        map@ == op_starts(source@, source@.len() as int),
{
    let chars = str_to_chars(source);
    let mut map: Vec<usize> = Vec::new();
    let mut last: Option<char> = None;
    let mut pos: usize = 0;
    while pos < chars.len()
        invariant
            chars@ == source@,
            pos <= chars@.len(),
            last == last_bf(chars@, pos as int),
            map@ == op_starts(chars@, pos as int),
        decreases chars@.len() - pos,
    {
        let ch = chars[pos];
        if crate::text::bf_char(ch) {
            let collapsed = match last {
                Some(p) => p == ch && (ch == '+' || ch == '-' || ch == '>' || ch == '<'),
                None => false,
            };
            if !collapsed {
                map.push(pos);
            }
            last = Some(ch);
        } else {
            last = None;
        }
        pos += 1;
    }
    map
}

/// The 1-based line and column of position `n` of `s`.
pub open spec fn line_col(s: Seq<char>, n: int) -> (nat, nat)
    decreases n,
{
    if n <= 0 || n > s.len() {
        (1, 1)
    } else {
        let (l, c) = line_col(s, n - 1);
        if s[n - 1] == '\n' { (l + 1, 1) } else { (l, c + 1) }
    }
}

pub proof fn lemma_line_col_bounds(s: Seq<char>, n: int)
    requires
        0 <= n <= s.len(),
    ensures
        1 <= line_col(s, n).0 <= n + 1,
        1 <= line_col(s, n).1 <= n + 1,
    decreases n,
{
    if n > 0 {
        lemma_line_col_bounds(s, n - 1);
    }
}

/// Compute a line/column tracker for a source string.
/// Returns (line, column) for each character index (0-based index -> 1-based line/col).
pub fn line_col_map(source: &str) -> (r: Vec<(usize, usize)>)
    ensures
        r@.len() == source@.len(),
        forall|k: int| 0 <= k < r@.len() ==> (#[trigger] r@[k]).0 == line_col(source@, k).0 && r@[k].1
            == line_col(source@, k).1,
{
    let chars = str_to_chars(source);
    let mut result: Vec<(usize, usize)> = Vec::new();
    let mut line: usize = 1;
    let mut col: usize = 1;
    let mut k: usize = 0;
    while k < chars.len()
        invariant
            chars@ == source@,
            k <= chars@.len(),
            result@.len() == k,
            k == 0 ==> line == 1 && col == 1,
            k > 0 ==> line == line_col(chars@, k - 1).0 && col == line_col(chars@, k - 1).1,
            forall|j: int| 0 <= j < k ==> (#[trigger] result@[j]).0 == line_col(chars@, j).0
                && result@[j].1 == line_col(chars@, j).1,
        decreases chars@.len() - k,
    {
        proof {
            lemma_line_col_bounds(chars@, k as int);
        }
        if k > 0 {
            if chars[k - 1] == '\n' {
                line += 1;
                col = 1;
            } else {
                col += 1;
            }
        }
        result.push((line, col));
        k += 1;
    }
    result
}

/// An op that a parse extends with the next character of the same kind.
pub open spec fn run_op(x: Instr) -> bool {
    x is Add || x is Sub || x is Right || x is Left
}

proof fn lemma_op_starts(s: Seq<char>, n: int)
    requires
        s.len() <= isize::MAX,
        forall|i: int| 0 <= i < s.len() ==> is_bf_char(#[trigger] s[i]),
        0 <= n <= s.len(),
        parse_prefix(s.take(n)) is Some,
    ensures
        ({
            let m = op_starts(s, n);
            let ops = parse_prefix(s.take(n))->Some_0.0;
            &&& m.len() == ops.len()
            &&& forall|k: int, l: int| 0 <= k < l < m.len() ==> #[trigger] m[k] < #[trigger] m[l]
            &&& forall|k: int| 0 <= k < m.len() ==> #[trigger] m[k] < n
            &&& n > 0 ==> m.len() > 0 && m[0] == 0
            &&& n > 0 ==> {
                let c = s[n - 1];
                &&& c == '+' ==> ops.last() is Add
                &&& c == '-' ==> ops.last() is Sub
                &&& c == '>' ==> ops.last() is Right
                &&& c == '<' ==> ops.last() is Left
                &&& !(c == '+' || c == '-' || c == '>' || c == '<') ==> !run_op(ops.last())
            }
        }),
    decreases n,
{
    if n > 0 {
        let t = s.take(n);
        assert(t.drop_last() =~= s.take(n - 1));
        assert(t.last() == s[n - 1]);
        lemma_op_starts(s, n - 1);
        let (ops, stack) = parse_prefix(s.take(n - 1))->Some_0;
        let c = s[n - 1];
        assert(is_bf_char(c));
        let len = ops.len();
        if n > 1 {
            assert(is_bf_char(s[n - 2]));
        } else {
            assert(s.take(0) =~= Seq::<char>::empty());
            assert(len == 0);
        }
        let o2 = parse_prefix(t)->Some_0.0;
        if len > 0 {
            assert(ops.update(len - 1, Instr::Add(0)).last() is Add);
            assert(ops.update(len - 1, Instr::Sub(0)).last() is Sub);
            assert(ops.update(len - 1, Instr::Right(0)).last() is Right);
            assert(ops.update(len - 1, Instr::Left(0)).last() is Left);
        }
        assert(ops.push(Instr::Add(1)).last() is Add);
        assert(ops.push(Instr::Sub(1)).last() is Sub);
        assert(ops.push(Instr::Right(1)).last() is Right);
        assert(ops.push(Instr::Left(1)).last() is Left);
        assert(!run_op(ops.push(Instr::Output).last()));
        assert(!run_op(ops.push(Instr::Input).last()));
        assert(!run_op(ops.push(Instr::JumpIfZero(0)).last()));
        if c == ']' {
            let open = stack.last();
            let u = ops.update(open, Instr::JumpIfZero(len as usize));
            assert(!run_op(u.push(Instr::JumpIfNonZero(open as usize)).last()));
        }
        let m1 = op_starts(s, n - 1);
        let m = op_starts(s, n);
        let coll = collapses(last_bf(s, n - 1), c);
        if coll {
            assert(n > 1 && s[n - 2] == c);
            assert(m == m1);
            assert(o2.len() == len);
        } else {
            assert(m == m1.push((n - 1) as usize));
            if n > 1 {
                assert(last_bf(s, n - 1) == Some(s[n - 2]));
                let p = s[n - 2];
                if c == '+' || c == '-' || c == '>' || c == '<' {
                    assert(p != c);
                    if c == '+' {
                        assert(!(ops.last() is Add));
                    } else if c == '-' {
                        assert(!(ops.last() is Sub));
                    } else if c == '>' {
                        assert(!(ops.last() is Right));
                    } else {
                        assert(!(ops.last() is Left));
                    }
                }
            }
            assert(parse_prefix(t) == parse_char(ops, stack, c));
            if c == ']' {
                assert(stack.len() > 0);
                lemma_parse_prefix_inv(s.take(n - 1));
                reveal(parse_inv);
                assert(0 <= stack[stack.len() - 1] < len);
                assert(o2.len() == len + 1);
            } else if c == '[' || c == '.' || c == ',' {
                assert(o2.len() == len + 1);
            } else if c == '+' {
                assert(o2 == ops.push(Instr::Add(1)));
            } else if c == '-' {
                assert(o2 == ops.push(Instr::Sub(1)));
            } else if c == '>' {
                assert(o2 == ops.push(Instr::Right(1)));
            } else {
                assert(o2 == ops.push(Instr::Left(1)));
            }
            assert(o2.len() == len + 1);
            assert forall|k: int, l: int| 0 <= k < l < m.len() implies #[trigger] m[k] < #[trigger] m[l] by {
                if l < m1.len() {
                    assert(m[k] == m1[k] && m[l] == m1[l]);
                } else {
                    assert(m[k] == m1[k]);
                    assert(m1[k] < n - 1);
                    assert(m[l] == n - 1);
                }
            }
            assert forall|k: int| 0 <= k < m.len() implies #[trigger] m[k] < n by {
                if k < m1.len() {
                    assert(m[k] == m1[k]);
                }
            }
            if n > 1 {
                assert(m[0] == m1[0]);
            }
        }
    }
}

/// Law: for a text of brainfuck commands alone that parses, the map from ops to
/// characters has one entry per op, starts at the first character, rises
/// strictly and stays within the text: each op is mapped to where it begins.
pub proof fn law_op_map(s: Seq<char>)
    requires
        s.len() <= isize::MAX,
        forall|i: int| 0 <= i < s.len() ==> is_bf_char(#[trigger] s[i]),
        parse_source(s) is Ok,
    ensures
        op_starts(s, s.len() as int).len() == parse_source(s)->Ok_0.len(),
        forall|k: int, l: int|
            0 <= k < l < op_starts(s, s.len() as int).len() ==> #[trigger] op_starts(s, s.len() as int)[k]
                < #[trigger] op_starts(s, s.len() as int)[l],
        forall|k: int| 0 <= k < op_starts(s, s.len() as int).len() ==> #[trigger] op_starts(s, s.len() as int)[k] < s.len(),
        s.len() > 0 ==> op_starts(s, s.len() as int)[0] == 0,
{
    assert(s.take(s.len() as int) =~= s);
    lemma_op_starts(s, s.len() as int);
}

} // verus!

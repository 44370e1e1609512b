use vstd::prelude::*;

use super::dialect::{byte_len, utf8_len};
use super::directive_parser::{
    brace_close, ident_end, lemma_brace_close, lemma_ident_end, lemma_quote_close, lemma_spaces_end, lemma_ws_end,
    quote_close, skip_spaces, skip_whitespace, spaces_end, take_brace_body, take_identifier, ws_end,
};
use super::ir::bf_filter;
use super::preprocess::{join, line_end, lemma_line_end};
use crate::error::{Fail, OgreError};
use crate::paint::{paint_cyan, paint_green, paint_red, painted};
use crate::text::{
    bf_char, char_is_alphabetic, char_is_whitespace, chars_to_string, is_bf_char, is_white, push_chars, push_repeat,
    push_str, repeat_char, str_to_chars, unicode_alphabetic,
};

verus! {

/// How to lay out a program.
pub struct FormatOptions {
    pub indent: usize,
    pub linewidth: usize,
    pub grouping: usize,
    pub label_functions: bool,
    pub preserve_comments: bool,
    pub check: bool,
    pub diff: bool,
}

impl Default for FormatOptions {
    fn default() -> (r: Self)
        ensures
            r.indent == 4 && r.linewidth == 80 && r.grouping == 5 && !r.label_functions && !r.preserve_comments
                && !r.check && !r.diff,
    {
        FormatOptions {
            indent: 4,
            linewidth: 80,
            grouping: 5,
            label_functions: false,
            preserve_comments: false,
            check: false,
            diff: false,
        }
    }
}

// ---------------------------------------------------------------------------
// Laying out commands
// ---------------------------------------------------------------------------

/// Whether a line holds nothing but whitespace.
pub open spec fn blank(l: Seq<char>) -> bool {
    forall|k: int| 0 <= k < l.len() ==> is_white(#[trigger] l[k])
}

/// The lines with the last one replaced by `l`.
pub open spec fn set_last(ls: Seq<Seq<char>>, l: Seq<char>) -> Seq<Seq<char>> {
    ls.update(ls.len() - 1, l)
}

/// The state of the layout: the lines so far (never none), the loop depth, and
/// the command being repeated with the length of its run.
pub struct Layout {
    pub lines: Seq<Seq<char>>,
    pub depth: nat,
    pub last: Option<char>,
    pub run: nat,
}

/// Put a character on the current line, or on a new indented line when the
/// current one is already `linewidth` bytes long; a blank line is replaced by
/// the indentation and the character.
pub open spec fn put_char(ls: Seq<Seq<char>>, depth: nat, c: char, indent: nat, width: nat) -> Seq<Seq<char>> {
    let ind = repeat_char(' ', depth * indent);
    let last = ls.last();
    if blank(last) {
        set_last(ls, ind.push(c))
    } else if utf8_len(last) < width {
        set_last(ls, last.push(c))
    } else {
        ls.push(ind.push(c))
    }
}

/// Put a bracket on a line of its own, at the given depth, and open a new line.
pub open spec fn put_bracket(ls: Seq<Seq<char>>, depth: nat, c: char, indent: nat) -> Seq<Seq<char>> {
    let ind = repeat_char(' ', depth * indent);
    (if !blank(ls.last()) { ls.push(ind.push(c)) } else { set_last(ls, ind.push(c)) }).push(seq![])
}

/// The layout after one more character.
pub open spec fn layout_step(st: Layout, c: char, indent: nat, width: nat, grouping: nat, keep_comments: bool) -> Layout {
    if c == '[' {
        Layout { lines: put_bracket(st.lines, st.depth, '[', indent), depth: st.depth + 1, last: None, run: 0 }
    } else if c == ']' {
        let d: nat = if st.depth > 0 { (st.depth - 1) as nat } else { 0 };
        Layout { lines: put_bracket(st.lines, d, ']', indent), depth: d, last: None, run: 0 }
    } else if is_bf_char(c) {
        let run: nat = if st.last == Some(c) { st.run + 1 } else { 1 };
        let ls = if grouping > 0 && run > 1 && (run - 1) % (grouping as int) == 0 {
            let ind = repeat_char(' ', st.depth * indent);
            let last = st.lines.last();
            if blank(last) {
                set_last(st.lines, ind.push(c))
            } else if utf8_len(last) + 2 <= width {
                set_last(st.lines, last.push(' ').push(c))
            } else {
                st.lines.push(ind.push(c))
            }
        } else {
            put_char(st.lines, st.depth, c, indent, width)
        };
        Layout { lines: ls, depth: st.depth, last: Some(c), run }
    } else if keep_comments {
        Layout { lines: put_char(st.lines, st.depth, c, indent, width), ..st }
    } else {
        st
    }
}

/// The layout of a whole text.
pub open spec fn layout(s: Seq<char>, indent: nat, width: nat, grouping: nat, keep_comments: bool) -> Layout
    decreases s.len(),
{
    if s.len() == 0 {
        Layout { lines: seq![seq![]], depth: 0, last: None, run: 0 }
    } else {
        layout_step(layout(s.drop_last(), indent, width, grouping, keep_comments), s.last(), indent, width, grouping, keep_comments)
    }
}

/// The lines without the blank ones at the end.
pub open spec fn drop_blank_tail(ls: Seq<Seq<char>>) -> Seq<Seq<char>>
    decreases ls.len(),
{
    if ls.len() > 0 && blank(ls.last()) { drop_blank_tail(ls.drop_last()) } else { ls }
}

/// A text laid out: one line per loop bracket, the commands between them
/// indented by depth, wrapped at `width` bytes, runs of a command split into
/// groups of `grouping` (none when 0), other characters dropped unless kept.
pub open spec fn layout_text(s: Seq<char>, indent: nat, width: nat, grouping: nat, keep_comments: bool) -> Seq<char> {
    join(drop_blank_tail(layout(s, indent, width, grouping, keep_comments).lines), "\n"@) + "\n"@
}

/// The deepest loop nesting reached in `s` (a `]` at depth 0 is ignored), and
/// the depth at the end.
pub open spec fn depth_scan(s: Seq<char>) -> (nat, nat)
    decreases s.len(),
{
    if s.len() == 0 {
        (0, 0)
    } else {
        let (d, p) = depth_scan(s.drop_last());
        if s.last() == '[' {
            (d + 1, if d + 1 > p { d + 1 } else { p })
        } else if s.last() == ']' {
            (if d > 0 { (d - 1) as nat } else { 0 }, p)
        } else {
            (d, p)
        }
    }
}

/// The deepest loop nesting reached in `s`.
pub open spec fn peak_depth(s: Seq<char>) -> nat {
    depth_scan(s).1
}

proof fn lemma_depth_scan(s: Seq<char>)
    ensures
        depth_scan(s).0 <= depth_scan(s).1,
        layout(s, 0, 0, 0, false).depth == depth_scan(s).0,
    decreases s.len(),
{
    if s.len() > 0 {
        lemma_depth_scan(s.drop_last());
    }
}

proof fn lemma_layout_depth(s: Seq<char>, indent: nat, width: nat, grouping: nat, keep: bool)
    ensures
        layout(s, indent, width, grouping, keep).depth == depth_scan(s).0,
        depth_scan(s).0 <= depth_scan(s).1,
        layout(s, indent, width, grouping, keep).lines.len() >= 1,
    decreases s.len(),
{
    if s.len() > 0 {
        lemma_layout_depth(s.drop_last(), indent, width, grouping, keep);
    }
}

proof fn lemma_peak_prefix(s: Seq<char>, i: int)
    requires
        0 <= i <= s.len(),
    ensures
        depth_scan(s.take(i)).1 <= depth_scan(s).1,
    decreases s.len() - i,
{
    if i < s.len() {
        lemma_peak_prefix(s, i + 1);
        assert(s.take(i + 1).drop_last() =~= s.take(i));
    } else {
        assert(s.take(i) =~= s);
    }
}

pub open spec fn lines_view(v: Seq<Vec<char>>) -> Seq<Seq<char>> {
    v.map_values(|l: Vec<char>| l@)
}

fn is_blank(l: &Vec<char>) -> (r: bool)
    ensures
        r == blank(l@),
{
    let mut k: usize = 0;
    while k < l.len()
        invariant
            k <= l@.len(),
            forall|j: int| 0 <= j < k ==> is_white(#[trigger] l@[j]),
        decreases l@.len() - k,
    {
        if !char_is_whitespace(l[k]) {
            return false;
        }
        k += 1;
    }
    true
}

fn indented(n: usize, c: char) -> (r: Vec<char>)
    ensures
        r@ == repeat_char(' ', n as nat).push(c),
{
    let mut r: Vec<char> = Vec::new();
    push_repeat(&mut r, ' ', n);
    r.push(c);
    assert(r@ =~= repeat_char(' ', n as nat).push(c));
    r
}

fn replace_last(lines: &mut Vec<Vec<char>>, l: Vec<char>)
    requires
        old(lines)@.len() > 0,
    ensures
        lines_view(final(lines)@) == set_last(lines_view(old(lines)@), l@),
        final(lines)@.len() == old(lines)@.len(),
{
    let n = lines.len();
    lines.set(n - 1, l);
    assert(lines_view(lines@) =~= set_last(lines_view(old(lines)@), l@));
}

fn add_line(lines: &mut Vec<Vec<char>>, l: Vec<char>)
    ensures
        lines_view(final(lines)@) == lines_view(old(lines)@).push(l@),
        final(lines)@.len() == old(lines)@.len() + 1,
{
    lines.push(l);
    assert(lines_view(lines@) =~= lines_view(old(lines)@).push(l@));
}

fn append_last(lines: &mut Vec<Vec<char>>, c: char)
    requires
        old(lines)@.len() > 0,
    ensures
        lines_view(final(lines)@) == set_last(lines_view(old(lines)@), lines_view(old(lines)@).last().push(c)),
        final(lines)@.len() == old(lines)@.len(),
{
    let mut l = lines.pop().unwrap();
    l.push(c);
    lines.push(l);
    assert(lines_view(lines@) =~= set_last(lines_view(old(lines)@), lines_view(old(lines)@).last().push(c)));
}

fn exec_put_char(lines: &mut Vec<Vec<char>>, ind: usize, c: char, width: usize, Ghost(depth): Ghost<nat>, Ghost(indent): Ghost<nat>)
    requires
        old(lines)@.len() > 0,
        ind == depth * indent,
    ensures
        lines_view(final(lines)@) == put_char(lines_view(old(lines)@), depth, c, indent, width as nat),
        final(lines)@.len() > 0,
{
    let n = lines.len();
    let b = is_blank(&lines[n - 1]);
    assert(lines_view(lines@).last() == lines@[n - 1]@);
    if b {
        replace_last(lines, indented(ind, c));
    } else if byte_len(&lines[n - 1]) < width {
        append_last(lines, c);
    } else {
        add_line(lines, indented(ind, c));
    }
}

fn exec_put_bracket(lines: &mut Vec<Vec<char>>, ind: usize, c: char, Ghost(depth): Ghost<nat>, Ghost(indent): Ghost<nat>)
    requires
        old(lines)@.len() > 0,
        ind == depth * indent,
    ensures
        lines_view(final(lines)@) == put_bracket(lines_view(old(lines)@), depth, c, indent),
        final(lines)@.len() > 0,
{
    let n = lines.len();
    let b = is_blank(&lines[n - 1]);
    assert(lines_view(lines@).last() == lines@[n - 1]@);
    if !b {
        add_line(lines, indented(ind, c));
    } else {
        replace_last(lines, indented(ind, c));
    }
    add_line(lines, Vec::new());
}

fn exec_put_grouped(lines: &mut Vec<Vec<char>>, ind: usize, c: char, width: usize)
    requires
        old(lines)@.len() > 0,
    ensures
        final(lines)@.len() > 0,
        lines_view(final(lines)@) == ({
            let ls = lines_view(old(lines)@);
            let last = ls.last();
            if blank(last) {
                set_last(ls, repeat_char(' ', ind as nat).push(c))
            } else if utf8_len(last) + 2 <= width {
                set_last(ls, last.push(' ').push(c))
            } else {
                ls.push(repeat_char(' ', ind as nat).push(c))
            }
        }),
{
    let n = lines.len();
    let b = is_blank(&lines[n - 1]);
    assert(lines_view(lines@).last() == lines@[n - 1]@);
    if b {
        replace_last(lines, indented(ind, c));
    } else {
        let bl = byte_len(&lines[n - 1]);
        if width >= 2 && bl <= width - 2 {
            let ghost before = lines_view(lines@);
            append_last(lines, ' ');
            append_last(lines, c);
            assert(lines_view(lines@) =~= set_last(before, before.last().push(' ').push(c)));
        } else {
            add_line(lines, indented(ind, c));
        }
    }
}

pub open spec fn layout_view(lines: Seq<Vec<char>>, depth: usize, last: Option<char>, run: usize) -> Layout {
    Layout { lines: lines_view(lines), depth: depth as nat, last: last, run: run as nat }
}

fn join_lines(lines: &Vec<Vec<char>>) -> (r: Vec<char>)
    ensures
        r@ == join(lines_view(lines@), "\n"@),
{
    let mut out: Vec<char> = Vec::new();
    let mut k: usize = 0;
    proof {
        reveal_strlit("\n");
    }
    while k < lines.len()
        invariant
            k <= lines@.len(),
            out@ == join(lines_view(lines@).take(k as int), "\n"@),
        decreases lines@.len() - k,
    {
        let ghost prev = out@;
        assert(lines_view(lines@).take(k + 1).drop_last() =~= lines_view(lines@).take(k as int));
        if k > 0 {
            out.push('\n');
        }
        let mut j: usize = 0;
        let ghost mid = out@;
        while j < lines[k].len()
            invariant
                k < lines@.len(),
                j <= lines@[k as int]@.len(),
                out@ == mid + lines@[k as int]@.take(j as int),
            decreases lines@[k as int]@.len() - j,
        {
            out.push(lines[k][j]);
            j += 1;
            assert(out@ =~= mid + lines@[k as int]@.take(j as int));
        }
        assert(lines@[k as int]@.take(j as int) =~= lines@[k as int]@);
        proof {
            reveal_strlit("\n");
            let t = lines_view(lines@).take(k + 1);
            assert(t.last() == lines@[k as int]@);
            assert(t.drop_last() =~= lines_view(lines@).take(k as int));
            assert("\n"@ =~= seq!['\n']);
            if k == 0 {
                assert(out@ =~= join(t, "\n"@));
            } else {
                assert(out@ =~= join(t, "\n"@));
            }
        }
        k += 1;
    }
    assert(lines_view(lines@).take(lines@.len() as int) =~= lines_view(lines@));
    out
}

/// Lay out a text that holds no directives.
pub fn format_bf_only(code: &str, opts: &FormatOptions) -> (r: String)
    requires
        peak_depth(code@) * opts.indent <= usize::MAX,
    ensures
        r@ == layout_text(code@, opts.indent as nat, opts.linewidth as nat, opts.grouping as nat, opts.preserve_comments),
{
    let src = crate::text::str_to_chars(code);
    let indent = opts.indent;
    let width = opts.linewidth;
    let grouping = opts.grouping;
    let keep = opts.preserve_comments;
    let ghost (gi, gw, gg) = (indent as nat, width as nat, grouping as nat);
    let mut lines: Vec<Vec<char>> = Vec::new();
    lines.push(Vec::new());
    let mut depth: usize = 0;
    let mut last: Option<char> = None;
    let mut run: usize = 0;
    assert(lines_view(lines@) =~= seq![seq![]]);
    let mut i: usize = 0;
    while i < src.len()
        invariant
            src@ == code@,
            i <= src@.len(),
            indent == opts.indent && width == opts.linewidth && grouping == opts.grouping && keep == opts.preserve_comments,
            gi == indent as nat && gw == width as nat && gg == grouping as nat,
            peak_depth(code@) * indent <= usize::MAX,
            lines@.len() > 0,
            run <= i,
            depth <= i,
            depth <= depth_scan(src@.take(i as int)).1,
            depth_scan(src@.take(i as int)).1 <= peak_depth(code@),
            layout_view(lines@, depth, last, run) == layout(src@.take(i as int), gi, gw, gg, keep),
        decreases src@.len() - i,
    {
        let ghost pre = src@.take(i as int);
        assert(src@.take(i + 1).drop_last() =~= pre);
        proof {
            lemma_layout_depth(pre, gi, gw, gg, keep);
            lemma_peak_prefix(src@, i + 1);
            assert(depth * indent <= peak_depth(code@) * indent) by (nonlinear_arith)
                requires depth <= peak_depth(code@);
        }
        let c = src[i];
        if c == '[' {
            let ind = depth * indent;
            exec_put_bracket(&mut lines, ind, '[', Ghost(depth as nat), Ghost(gi));
            depth += 1;
            last = None;
            run = 0;
        } else if c == ']' {
            depth = if depth > 0 { depth - 1 } else { 0 };
            proof {
                assert(depth * indent <= peak_depth(code@) * indent) by (nonlinear_arith)
                    requires depth <= peak_depth(code@);
            }
            let ind = depth * indent;
            exec_put_bracket(&mut lines, ind, ']', Ghost(depth as nat), Ghost(gi));
            last = None;
            run = 0;
        } else if bf_char(c) {
            run = if last == Some(c) { run + 1 } else { 1 };
            let ind = depth * indent;
            if grouping > 0 && run > 1 && (run - 1) % grouping == 0 {
                exec_put_grouped(&mut lines, ind, c, width);
            } else {
                exec_put_char(&mut lines, ind, c, width, Ghost(depth as nat), Ghost(gi));
            }
            last = Some(c);
        } else if keep {
            let ind = depth * indent;
            exec_put_char(&mut lines, ind, c, width, Ghost(depth as nat), Ghost(gi));
        }
        i += 1;
    }
    assert(src@.take(src@.len() as int) =~= src@);
    let ghost full = lines_view(lines@);
    while lines.len() > 0 && is_blank(&lines[lines.len() - 1])
        invariant
            drop_blank_tail(lines_view(lines@)) == drop_blank_tail(full),
        decreases lines@.len(),
    {
        assert(lines_view(lines@).last() == lines@[lines@.len() - 1]@);
        let ghost before = lines@;
        let _ = lines.pop();
        assert(lines_view(lines@) =~= lines_view(before).drop_last());
    }
    let mut out = join_lines(&lines);
    out.push('\n');
    proof {
        reveal_strlit("\n");
    }
    assert(out@ =~= layout_text(code@, gi, gw, gg, keep));
    chars_to_string(&out)
}

// ---------------------------------------------------------------------------
// Directives
// ---------------------------------------------------------------------------

/// A piece of a source: commands, a directive kept verbatim on its own line,
/// or a function definition with its name and body.
pub enum SegView {
    Bf(Seq<char>),
    Directive(Seq<char>),
    FnDef(Seq<char>, Seq<char>),
}

enum SourceSegment {
    Bf(String),
    Directive(String),
    FnDef { name: String, body: String },
}

impl View for SourceSegment {
    type V = SegView;

    closed spec fn view(&self) -> SegView {
        match self {
            SourceSegment::Bf(t) => SegView::Bf(t@),
            SourceSegment::Directive(d) => SegView::Directive(d@),
            SourceSegment::FnDef { name, body } => SegView::FnDef(name@, body@),
        }
    }
}

spec fn segs_view(v: Seq<SourceSegment>) -> Seq<SegView> {
    v.map_values(|g: SourceSegment| g@)
}

/// `acc` with the pending commands `cur` added as a piece, if there are any.
pub open spec fn flush(acc: Seq<SegView>, cur: Seq<char>) -> Seq<SegView> {
    if cur.len() > 0 { acc.push(SegView::Bf(cur)) } else { acc }
}

/// Split `s` from position `i` into pieces; `cur` holds the commands read
/// since the last piece and `acc` the pieces so far. A directive is an `@`
/// followed by a letter: `@import "path"`, `@fn name { body }` and
/// `@call name` become pieces, anything else stays in the commands as text.
pub open spec fn seg_parse(s: Seq<char>, i: int, cur: Seq<char>, acc: Seq<SegView>) -> Result<Seq<SegView>, Fail>
    decreases s.len() - i,
{
    if i < 0 || i >= s.len() {
        Ok(flush(acc, cur))
    } else if s[i] == '@' && i + 1 < s.len() && unicode_alphabetic(s[i + 1]) {
        proof {
            lemma_ident_end(s, i + 1);
        }
        let acc1 = flush(acc, cur);
        let ke = ident_end(s, i + 1);
        let kw = s.subrange(i + 1, ke);
        if kw == "import"@ {
            proof {
                lemma_spaces_end(s, ke);
            }
            let j = spaces_end(s, ke);
            if j < s.len() && s[j] == '"' {
                proof {
                    lemma_quote_close(s, j + 1);
                }
                let q = quote_close(s, j + 1);
                let next = if q < s.len() { q + 1 } else { q };
                seg_parse(s, next, seq![], acc1.push(SegView::Directive("@import \""@ + s.subrange(j + 1, q) + "\""@)))
            } else {
                seg_parse(s, j, seq![], acc1.push(SegView::Directive("@import"@)))
            }
        } else if kw == "fn"@ {
            proof {
                lemma_spaces_end(s, ke);
                lemma_ident_end(s, spaces_end(s, ke));
                lemma_ws_end(s, ident_end(s, spaces_end(s, ke)));
            }
            let j = spaces_end(s, ke);
            let ne = ident_end(s, j);
            let name = s.subrange(j, ne);
            let w = ws_end(s, ne);
            if w < s.len() && s[w] == '{' {
                proof {
                    lemma_brace_close(s, w + 1, 1);
                }
                let close = brace_close(s, w + 1, 1);
                if close >= s.len() {
                    Err(Fail::Other("unclosed '{'"@))
                } else {
                    seg_parse(s, close + 1, seq![], acc1.push(SegView::FnDef(name, s.subrange(w + 1, close))))
                }
            } else {
                seg_parse(s, w, "@fn "@ + name, acc1)
            }
        } else if kw == "call"@ {
            proof {
                lemma_spaces_end(s, ke);
                lemma_ident_end(s, spaces_end(s, ke));
            }
            let j = spaces_end(s, ke);
            let ne = ident_end(s, j);
            seg_parse(s, ne, seq![], acc1.push(SegView::Directive("@call "@ + s.subrange(j, ne))))
        } else {
            seg_parse(s, ke, "@"@ + kw, acc1)
        }
    } else {
        seg_parse(s, i + 1, cur.push(s[i]), acc)
    }
}

proof fn lemma_segs_push(v: Seq<SourceSegment>, g: SourceSegment)
    ensures
        segs_view(v.push(g)) == segs_view(v).push(g@),
{
    assert(segs_view(v.push(g)) =~= segs_view(v).push(g@));
}

fn flush_exec(segments: &mut Vec<SourceSegment>, cur: &mut Vec<char>)
    ensures
        segs_view(final(segments)@) == flush(segs_view(old(segments)@), old(cur)@),
        final(cur)@ == Seq::<char>::empty(),
{
    if cur.len() > 0 {
        let g = SourceSegment::Bf(chars_to_string(cur));
        proof {
            lemma_segs_push(segments@, g);
        }
        segments.push(g);
        *cur = Vec::new();
    }
}

fn str_eq(a: &String, b: &str) -> (r: bool)
    ensures
        r == (a@ == b@),
{
    let av = str_to_chars(a.as_str());
    let bv = str_to_chars(b);
    if av.len() != bv.len() {
        return false;
    }
    let mut k: usize = 0;
    while k < av.len()
        invariant
            av@ == a@,
            bv@ == b@,
            av@.len() == bv@.len(),
            k <= av@.len(),
            forall|j: int| 0 <= j < k ==> av@[j] == bv@[j],
        decreases av@.len() - k,
    {
        if av[k] != bv[k] {
            return false;
        }
        k += 1;
    }
    assert(av@ =~= bv@);
    true
}

fn parse_segments(source: &str) -> (r: Result<Vec<SourceSegment>, OgreError>)
    ensures
        match r {
            Ok(v) => seg_parse(source@, 0, seq![], seq![]) == Ok::<Seq<SegView>, Fail>(segs_view(v@)),
            Err(e) => seg_parse(source@, 0, seq![], seq![]) == Err::<Seq<SegView>, Fail>(e@),
        },
{
    let chars = str_to_chars(source);
    let mut segments: Vec<SourceSegment> = Vec::new();
    let mut cur: Vec<char> = Vec::new();
    let mut i: usize = 0;
    assert(segs_view(segments@) =~= seq![]);
    while i < chars.len()
        invariant
            chars@ == source@,
            i <= chars@.len(),
            seg_parse(source@, 0, seq![], seq![]) == seg_parse(source@, i as int, cur@, segs_view(segments@)),
        decreases chars@.len() - i,
    {
        let ghost s = chars@;
        let ghost i0 = i as int;
        if chars[i] == '@' && i + 1 < chars.len() && char_is_alphabetic(chars[i + 1]) {
            flush_exec(&mut segments, &mut cur);
            i += 1;
            let kw = take_identifier(chars.as_slice(), &mut i);
            proof {
                lemma_ident_end(s, i0 + 1);
            }
            if str_eq(&kw, "import") {
                skip_spaces(chars.as_slice(), &mut i);
                proof {
                    lemma_spaces_end(s, ident_end(s, i0 + 1));
                }
                if i < chars.len() && chars[i] == '"' {
                    i += 1;
                    let start = i;
                    while i < chars.len() && chars[i] != '"'
                        invariant
                            chars@ == s,
                            start <= i <= s.len(),
                            quote_close(s, start as int) == quote_close(s, i as int),
                        decreases s.len() - i,
                    {
                        i += 1;
                    }
                    let mut d: Vec<char> = Vec::new();
                    push_str(&mut d, "@import \"");
                    let mut k = start;
                    while k < i
                        invariant
                            chars@ == s,
                            start <= k <= i <= s.len(),
                            d@ == "@import \""@ + s.subrange(start as int, k as int),
                        decreases i - k,
                    {
                        d.push(chars[k]);
                        k += 1;
                        assert(d@ =~= "@import \""@ + s.subrange(start as int, k as int));
                    }
                    push_str(&mut d, "\"");
                    if i < chars.len() {
                        i += 1;
                    }
                    let g = SourceSegment::Directive(chars_to_string(&d));
                    proof {
                        lemma_segs_push(segments@, g);
                    }
                    segments.push(g);
                } else {
                    let g = SourceSegment::Directive(String::from_str("@import"));
                    proof {
                        lemma_segs_push(segments@, g);
                    }
                    segments.push(g);
                }
            } else if str_eq(&kw, "fn") {
                skip_spaces(chars.as_slice(), &mut i);
                let name = take_identifier(chars.as_slice(), &mut i);
                skip_whitespace(chars.as_slice(), &mut i);
                proof {
                    lemma_spaces_end(s, ident_end(s, i0 + 1));
                    lemma_ident_end(s, spaces_end(s, ident_end(s, i0 + 1)));
                    lemma_ws_end(s, ident_end(s, spaces_end(s, ident_end(s, i0 + 1))));
                }
                if i < chars.len() && chars[i] == '{' {
                    i += 1;
                    proof {
                        lemma_brace_close(s, i as int, 1);
                    }
                    let body = match take_brace_body(chars.as_slice(), &mut i) {
                        Ok(b) => b,
                        Err(e) => return Err(e),
                    };
                    let g = SourceSegment::FnDef { name, body };
                    proof {
                        lemma_segs_push(segments@, g);
                    }
                    segments.push(g);
                } else {
                    let mut d: Vec<char> = Vec::new();
                    push_str(&mut d, "@fn ");
                    push_str(&mut d, name.as_str());
                    cur = d;
                }
            } else if str_eq(&kw, "call") {
                skip_spaces(chars.as_slice(), &mut i);
                let name = take_identifier(chars.as_slice(), &mut i);
                proof {
                    lemma_spaces_end(s, ident_end(s, i0 + 1));
                    lemma_ident_end(s, spaces_end(s, ident_end(s, i0 + 1)));
                }
                let mut d: Vec<char> = Vec::new();
                push_str(&mut d, "@call ");
                push_str(&mut d, name.as_str());
                let g = SourceSegment::Directive(chars_to_string(&d));
                proof {
                    lemma_segs_push(segments@, g);
                }
                segments.push(g);
            } else {
                let mut d: Vec<char> = Vec::new();
                d.push('@');
                push_str(&mut d, kw.as_str());
                proof {
                    reveal_strlit("@");
                    assert(d@ =~= "@"@ + kw@);
                }
                cur = d;
            }
        } else {
            cur.push(chars[i]);
            i += 1;
        }
    }
    flush_exec(&mut segments, &mut cur);
    Ok(segments)
}

// ---------------------------------------------------------------------------
// Formatting a whole source
// ---------------------------------------------------------------------------

/// `s` without the newlines at its end.
pub open spec fn strip_newlines_end(s: Seq<char>) -> Seq<char>
    decreases s.len(),
{
    if s.len() > 0 && s.last() == '\n' { strip_newlines_end(s.drop_last()) } else { s }
}

/// `out` followed by a newline unless it is empty or already ends with one.
pub open spec fn line_break(out: Seq<char>) -> Seq<char> {
    if out.len() > 0 && out.last() != '\n' { out.push('\n') } else { out }
}

/// The lines of `t` from position `p` (split at newlines, a carriage return
/// before a newline dropped, as `str::lines` does) that are not blank, each
/// indented by `indent` spaces and ended by a newline.
pub open spec fn body_block(t: Seq<char>, p: int, indent: nat) -> Seq<char>
    decreases t.len() - p,
{
    if p < 0 || p >= t.len() {
        seq![]
    } else {
        let e = line_end(t, p);
        let raw = t.subrange(p, e);
        let l = if e < t.len() && raw.len() > 0 && raw.last() == '\r' { raw.drop_last() } else { raw };
        let here = if !blank(l) { repeat_char(' ', indent) + l + "\n"@ } else { seq![] };
        if e < t.len() {
            proof {
                lemma_line_end(t, p);
            }
            here + body_block(t, e + 1, indent)
        } else {
            here
        }
    }
}

/// The output after one more piece.
pub open spec fn emit_segment(out: Seq<char>, g: SegView, indent: nat, width: nat, grouping: nat, keep: bool) -> Seq<char> {
    match g {
        SegView::Bf(t) => {
            let f = strip_newlines_end(layout_text(t, indent, width, grouping, keep));
            if f.len() > 0 { line_break(out) + f + "\n"@ } else { out }
        },
        SegView::Directive(d) => line_break(out) + d + "\n"@,
        SegView::FnDef(name, body) => line_break(out) + "@fn "@ + name + " {\n"@ + body_block(
            layout_text(body, indent, width, grouping, keep),
            0,
            indent,
        ) + "}\n"@,
    }
}

/// The output for all pieces.
pub open spec fn emit_all(gs: Seq<SegView>, indent: nat, width: nat, grouping: nat, keep: bool) -> Seq<char>
    decreases gs.len(),
{
    if gs.len() == 0 {
        seq![]
    } else {
        emit_segment(emit_all(gs.drop_last(), indent, width, grouping, keep), gs.last(), indent, width, grouping, keep)
    }
}

/// `s` with a run of newlines at its end cut to one.
pub open spec fn single_newline_end(s: Seq<char>) -> Seq<char>
    decreases s.len(),
{
    if s.len() >= 2 && s.last() == '\n' && s[s.len() - 2] == '\n' { single_newline_end(s.drop_last()) } else { s }
}

/// `s` ending in exactly one newline.
pub open spec fn normalized(s: Seq<char>) -> Seq<char> {
    let t = single_newline_end(s);
    if t.len() > 0 && t.last() == '\n' { t } else { t.push('\n') }
}

/// The formatted source: a text without directives is laid out as a whole;
/// otherwise each piece is laid out on its own, directives kept verbatim on
/// their own lines and function bodies indented inside `@fn name { ... }`.
pub open spec fn format_spec(code: Seq<char>, o: FormatOptions) -> Result<Seq<char>, Fail> {
    let (i, w, g, k) = (o.indent as nat, o.linewidth as nat, o.grouping as nat, o.preserve_comments);
    if !code.contains('@') {
        Ok(layout_text(code, i, w, g, k))
    } else {
        match seg_parse(code, 0, seq![], seq![]) {
            Err(e) => Err(e),
            Ok(gs) => Ok(normalized(emit_all(gs, i, w, g, k))),
        }
    }
}

/// Whether every text that formatting lays out keeps its indentation within
/// `usize` (the deepest loop times the indent width).
pub open spec fn format_fits(code: Seq<char>, indent: nat) -> bool {
    if !code.contains('@') {
        peak_depth(code) * indent <= usize::MAX
    } else {
        match seg_parse(code, 0, seq![], seq![]) {
            Err(_) => true,
            Ok(gs) => forall|k: int|
                0 <= k < gs.len() ==> match #[trigger] gs[k] {
                    SegView::Bf(t) => peak_depth(t) * indent <= usize::MAX,
                    SegView::FnDef(_, b) => peak_depth(b) * indent <= usize::MAX,
                    SegView::Directive(_) => true,
                },
        }
    }
}

/// Whether the deepest nesting of `t` times `indent` fits in `usize`.
fn depth_fits(t: &str, indent: usize) -> (b: bool)
    ensures
        b == (peak_depth(t@) * indent <= usize::MAX),
{
    let v = str_to_chars(t);
    let mut d: usize = 0;
    let mut p: usize = 0;
    let mut k: usize = 0;
    while k < v.len()
        invariant
            k <= v@.len(),
            v@ == t@,
            d as nat == depth_scan(v@.take(k as int)).0,
            p as nat == depth_scan(v@.take(k as int)).1,
            d <= k,
            p <= k,
        decreases v@.len() - k,
    {
        proof {
            assert(v@.take(k + 1).drop_last() =~= v@.take(k as int));
        }
        if v[k] == '[' {
            d += 1;
            if d > p {
                p = d;
            }
        } else if v[k] == ']' {
            if d > 0 {
                d -= 1;
            }
        }
        k += 1;
    }
    assert(v@.take(k as int) =~= t@);
    p.checked_mul(indent).is_some()
}

/// Format a source, as `format_source` does, where its loops nest shallowly
/// enough for their indentation to be counted in `usize`; `None` where they do
/// not.
pub fn format_source_checked(code: &str, opts: &FormatOptions) -> (r: Option<Result<String, OgreError>>)
    ensures
        r is Some <==> format_fits(code@, opts.indent as nat),
        match r {
            Some(Ok(t)) => format_spec(code@, *opts) == Ok::<Seq<char>, Fail>(t@),
            Some(Err(e)) => format_spec(code@, *opts) == Err::<Seq<char>, Fail>(e@),
            None => true,
        },
{
    let chars = str_to_chars(code);
    let fits = if !has_at(&chars) {
        depth_fits(code, opts.indent)
    } else {
        match parse_segments(code) {
            Err(_) => true,
            Ok(segs) => {
                let mut ok = true;
                let mut k: usize = 0;
                while k < segs.len()
                    invariant
                        k <= segs@.len(),
                        ok == forall|j: int|
                            0 <= j < k ==> match #[trigger] segs_view(segs@)[j] {
                                SegView::Bf(t) => peak_depth(t) * opts.indent <= usize::MAX,
                                SegView::FnDef(_, b) => peak_depth(b) * opts.indent <= usize::MAX,
                                SegView::Directive(_) => true,
                            },
                    decreases segs@.len() - k,
                {
                    let f = match &segs[k] {
                        SourceSegment::Bf(t) => depth_fits(t.as_str(), opts.indent),
                        SourceSegment::FnDef { name: _, body } => depth_fits(body.as_str(), opts.indent),
                        SourceSegment::Directive(_) => true,
                    };
                    proof {
                        let g = segs_view(segs@)[k as int];
                        assert(g == segs@[k as int]@);
                        let cond = match g {
                            SegView::Bf(t) => peak_depth(t) * opts.indent <= usize::MAX,
                            SegView::FnDef(_, b) => peak_depth(b) * opts.indent <= usize::MAX,
                            SegView::Directive(_) => true,
                        };
                        assert(f == cond);
                    }
                    ok = ok && f;
                    k += 1;
                }
                ok
            },
        }
    };
    if fits {
        Some(format_source(code, opts))
    } else {
        None
    }
}

fn push_body_block(out: &mut Vec<char>, t: &Vec<char>, indent: usize)
    ensures
        final(out)@ == old(out)@ + body_block(t@, 0, indent as nat),
{
    let ghost start = out@;
    let mut p: usize = 0;
    if t.len() == 0 {
        assert(out@ =~= start + body_block(t@, 0, indent as nat));
        return;
    }
    loop
        invariant_except_break
            p < t@.len(),
            out@ + body_block(t@, p as int, indent as nat) == start + body_block(t@, 0, indent as nat),
        ensures
            out@ == start + body_block(t@, 0, indent as nat),
        decreases t@.len() - p,
    {
        let ghost before = out@;
        let mut e = p;
        while e < t.len() && t[e] != '\n'
            invariant
                p <= e <= t@.len(),
                line_end(t@, p as int) == line_end(t@, e as int),
            decreases t@.len() - e,
        {
            e += 1;
        }
        let mut hi = e;
        if e < t.len() && e > p && t[e - 1] == '\r' {
            hi = e - 1;
        }
        let mut l: Vec<char> = Vec::new();
        let mut k = p;
        while k < hi
            invariant
                p <= k <= hi <= e <= t@.len(),
                l@ == t@.subrange(p as int, k as int),
            decreases hi - k,
        {
            l.push(t[k]);
            k += 1;
            assert(l@ =~= t@.subrange(p as int, k as int));
        }
        let ghost raw = t@.subrange(p as int, e as int);
        assert(l@ == (if e < t@.len() && raw.len() > 0 && raw.last() == '\r' { raw.drop_last() } else { raw }));
        let ghost here = if !blank(l@) { repeat_char(' ', indent as nat) + l@ + "\n"@ } else { seq![] };
        if !is_blank(&l) {
            push_repeat(out, ' ', indent);
            push_chars(out, &l);
            out.push('\n');
            proof {
                reveal_strlit("\n");
            }
            assert(out@ =~= before + here);
        } else {
            assert(out@ =~= before + here);
        }
        if e < t.len() {
            proof {
                assert(before + (here + body_block(t@, e + 1, indent as nat)) =~= (before + here) + body_block(
                    t@,
                    e + 1,
                    indent as nat,
                ));
            }
            p = e + 1;
            if p >= t.len() {
                assert(body_block(t@, p as int, indent as nat) =~= seq![]);
                assert(out@ =~= start + body_block(t@, 0, indent as nat));
                break;
            }
        } else {
            break;
        }
    }
}

fn strip_newlines(v: &mut Vec<char>)
    ensures
        final(v)@ == strip_newlines_end(old(v)@),
{
    while v.len() > 0 && v[v.len() - 1] == '\n'
        invariant
            strip_newlines_end(v@) == strip_newlines_end(old(v)@),
        decreases v@.len(),
    {
        let ghost before = v@;
        v.pop();
        assert(v@ =~= before.drop_last());
    }
}

fn has_at(v: &Vec<char>) -> (r: bool)
    ensures
        r == v@.contains('@'),
{
    let mut k: usize = 0;
    while k < v.len()
        invariant
            k <= v@.len(),
            forall|j: int| 0 <= j < k ==> v@[j] != '@',
        decreases v@.len() - k,
    {
        if v[k] == '@' {
            assert(v@[k as int] == '@');
            return true;
        }
        k += 1;
    }
    false
}

/// Format a source (it may hold `@fn`, `@call` and `@import` directives).
pub fn format_source(code: &str, opts: &FormatOptions) -> (r: Result<String, OgreError>)
    requires
        format_fits(code@, opts.indent as nat),
    ensures
        match r {
            Ok(t) => format_spec(code@, *opts) == Ok::<Seq<char>, Fail>(t@),
            Err(e) => format_spec(code@, *opts) == Err::<Seq<char>, Fail>(e@),
        },
{
    let chars = str_to_chars(code);
    if !has_at(&chars) {
        return Ok(format_bf_only(code, opts));
    }
    let segs = match parse_segments(code) {
        Ok(v) => v,
        Err(e) => return Err(e),
    };
    let ghost (gi, gw, gg, gk) = (opts.indent as nat, opts.linewidth as nat, opts.grouping as nat, opts.preserve_comments);
    let mut out: Vec<char> = Vec::new();
    let mut k: usize = 0;
    while k < segs.len()
        invariant
            k <= segs@.len(),
            gi == opts.indent as nat && gw == opts.linewidth as nat && gg == opts.grouping as nat
                && gk == opts.preserve_comments,
            seg_parse(code@, 0, seq![], seq![]) == Ok::<Seq<SegView>, Fail>(segs_view(segs@)),
            format_fits(code@, opts.indent as nat),
            code@.contains('@'),
            out@ == emit_all(segs_view(segs@).take(k as int), gi, gw, gg, gk),
        decreases segs@.len() - k,
    {
        assert(segs_view(segs@).take(k + 1).drop_last() =~= segs_view(segs@).take(k as int));
        assert(segs_view(segs@)[k as int] == segs@[k as int]@);
        let ghost before = out@;
        match &segs[k] {
            SourceSegment::Bf(t) => {
                let mut f = str_to_chars(format_bf_only(t.as_str(), opts).as_str());
                strip_newlines(&mut f);
                if f.len() > 0 {
                    if out.len() > 0 && out[out.len() - 1] != '\n' {
                        out.push('\n');
                    }
                    push_chars(&mut out, &f);
                    out.push('\n');
                }
            },
            SourceSegment::Directive(d) => {
                if out.len() > 0 && out[out.len() - 1] != '\n' {
                    out.push('\n');
                }
                push_str(&mut out, d.as_str());
                out.push('\n');
            },
            SourceSegment::FnDef { name, body } => {
                if out.len() > 0 && out[out.len() - 1] != '\n' {
                    out.push('\n');
                }
                push_str(&mut out, "@fn ");
                push_str(&mut out, name.as_str());
                push_str(&mut out, " {\n");
                let fb = str_to_chars(format_bf_only(body.as_str(), opts).as_str());
                push_body_block(&mut out, &fb, opts.indent);
                push_str(&mut out, "}\n");
            },
        }
        proof {
            reveal_strlit("\n");
        }
        assert(out@ =~= emit_segment(before, segs_view(segs@)[k as int], gi, gw, gg, gk));
        k += 1;
    }
    assert(segs_view(segs@).take(segs@.len() as int) =~= segs_view(segs@));
    while out.len() >= 2 && out[out.len() - 1] == '\n' && out[out.len() - 2] == '\n'
        invariant
            single_newline_end(out@) == single_newline_end(emit_all(segs_view(segs@), gi, gw, gg, gk)),
        decreases out@.len(),
    {
        let ghost before = out@;
        out.pop();
        assert(out@ =~= before.drop_last());
    }
    if !(out.len() > 0 && out[out.len() - 1] == '\n') {
        out.push('\n');
    }
    Ok(chars_to_string(&out))
}

// ---------------------------------------------------------------------------
// Diffs
// ---------------------------------------------------------------------------

/// The unified-diff hunks (three lines of context) of the line diff of two
/// texts that `similar` computes: each hunk's header and its changes, each
/// change as its kind (0 delete, 1 insert, 2 equal), its text as shown, and
/// whether the line lacked a final newline.
pub uninterp spec fn line_diff_hunks(old: Seq<char>, new: Seq<char>) -> Seq<(Seq<char>, Seq<(u8, Seq<char>, bool)>)>;

pub open spec fn changes_view(v: Seq<(u8, String, bool)>) -> Seq<(u8, Seq<char>, bool)> {
    v.map_values(|c: (u8, String, bool)| (c.0, c.1@, c.2))
}

pub open spec fn hunks_view(v: Seq<(String, Vec<(u8, String, bool)>)>) -> Seq<(Seq<char>, Seq<(u8, Seq<char>, bool)>)> {
    v.map_values(|h: (String, Vec<(u8, String, bool)>)| (h.0@, changes_view(h.1@)))
}

/// `similar`'s `TextDiff::from_lines` of the two texts, read through its
/// unified diff with a context radius of 3. Claimed: the hunks are a function
/// of the two texts alone, named `line_diff_hunks`; each header is the
/// hunk header's `Display`, each change text the change's `Display`.
#[verifier::external_body]
fn diff_hunks(original: &str, formatted: &str) -> (r: Vec<(String, Vec<(u8, String, bool)>)>)
    ensures
        hunks_view(r@) == line_diff_hunks(original@, formatted@),
{
    let diff = similar::TextDiff::from_lines(original, formatted);
    diff.unified_diff().context_radius(3).iter_hunks().map(|h| (h.header().to_string(), h.iter_changes().map(|c| (match c.tag() {
        similar::ChangeTag::Delete => 0u8,
        similar::ChangeTag::Insert => 1u8,
        similar::ChangeTag::Equal => 2u8,
    }, c.to_string(), c.missing_newline())).collect())).collect()
}

/// The colour code for a piece: none, red, green or cyan.
pub open spec fn color_of(k: u8) -> Option<Seq<char>> {
    if k == 1 { Some("31"@) } else if k == 2 { Some("32"@) } else if k == 3 { Some("36"@) } else { None }
}

/// The pieces of the diff text for a change, with their colours.
pub open spec fn change_pieces(cs: Seq<(u8, Seq<char>, bool)>) -> Seq<(Seq<char>, u8)>
    decreases cs.len(),
{
    if cs.len() == 0 {
        seq![]
    } else {
        let (k, t, missing) = cs.last();
        change_pieces(cs.drop_last()) + seq![
            if k == 0 { ("-"@ + t, 1u8) } else if k == 1 { ("+"@ + t, 2u8) } else { (" "@ + t, 0u8) },
        ] + (if missing { seq![("\n"@, 0u8)] } else { seq![] })
    }
}

/// The pieces of the diff text for the hunks: each header in cyan, then its
/// changes.
pub open spec fn hunk_pieces(hs: Seq<(Seq<char>, Seq<(u8, Seq<char>, bool)>)>) -> Seq<(Seq<char>, u8)>
    decreases hs.len(),
{
    if hs.len() == 0 {
        seq![]
    } else {
        hunk_pieces(hs.drop_last()) + seq![(hs.last().0, 3u8)] + change_pieces(hs.last().1)
    }
}

/// The pieces of a diff: the file names in red and green, then the hunks.
pub open spec fn diff_pieces(filename: Seq<char>, hs: Seq<(Seq<char>, Seq<(u8, Seq<char>, bool)>)>) -> Seq<(Seq<char>, u8)> {
    seq![("--- "@ + filename + "\n"@, 1u8), ("+++ "@ + filename + "\n"@, 2u8)] + hunk_pieces(hs)
}

/// Whether `shown` are the pieces as shown, coloured where they have a colour.
pub open spec fn shown_as(pieces: Seq<(Seq<char>, u8)>, shown: Seq<Seq<char>>) -> bool {
    &&& shown.len() == pieces.len()
    &&& forall|i: int|
        0 <= i < pieces.len() ==> match color_of(#[trigger] pieces[i].1) {
            Some(code) => painted(pieces[i].0, code, shown[i]),
            None => shown[i] == pieces[i].0,
        }
}

/// The pieces put together.
pub open spec fn concat(ss: Seq<Seq<char>>) -> Seq<char>
    decreases ss.len(),
{
    if ss.len() == 0 { seq![] } else { concat(ss.drop_last()) + ss.last() }
}

fn show_piece(text: &str, k: u8) -> (r: String)
    ensures
        match color_of(k) {
            Some(code) => painted(text@, code, r@),
            None => r@ == text@,
        },
{
    if k == 1 {
        paint_red(text)
    } else if k == 2 {
        paint_green(text)
    } else if k == 3 {
        paint_cyan(text)
    } else {
        String::from_str(text)
    }
}

struct DiffOut {
    out: Vec<char>,
    pieces: Ghost<Seq<(Seq<char>, u8)>>,
    shown: Ghost<Seq<Seq<char>>>,
}

impl DiffOut {
    spec fn ok(&self) -> bool {
        shown_as(self.pieces@, self.shown@) && self.out@ == concat(self.shown@)
    }

    fn emit(&mut self, text: &str, k: u8)
        requires
            old(self).ok(),
        ensures
            final(self).ok(),
            final(self).pieces@ == old(self).pieces@.push((text@, k)),
    {
        let r = show_piece(text, k);
        push_str(&mut self.out, r.as_str());
        let ghost p = self.pieces@.push((text@, k));
        let ghost sh = self.shown@.push(r@);
        proof {
            assert(sh.drop_last() =~= self.shown@);
            assert(p.drop_last() =~= self.pieces@);
        }
        self.pieces = Ghost(p);
        self.shown = Ghost(sh);
        proof {
            assert forall|i: int| 0 <= i < p.len() implies match color_of(#[trigger] p[i].1) {
                Some(code) => painted(p[i].0, code, sh[i]),
                None => sh[i] == p[i].0,
            } by {
                if i < p.len() - 1 {
                    assert(p[i] == old(self).pieces@[i]);
                    assert(sh[i] == old(self).shown@[i]);
                }
            }
        }
    }
}

fn str_same(a: &str, b: &str) -> (r: bool)
    ensures
        r == (a@ == b@),
{
    str_eq(&String::from_str(a), b)
}

/// A unified diff of `original` against `formatted`, with colours where the
/// terminal takes them; empty when the two are the same.
pub fn generate_diff(original: &str, formatted: &str, filename: &str) -> (r: String)
    ensures
        original@ == formatted@ ==> r@ == Seq::<char>::empty(),
        original@ != formatted@ ==> exists|shown: Seq<Seq<char>>|
            shown_as(diff_pieces(filename@, line_diff_hunks(original@, formatted@)), shown) && r@ == concat(shown),
{
    if str_same(original, formatted) {
        return String::new();
    }
    let hunks = diff_hunks(original, formatted);
    let ghost hs = hunks_view(hunks@);
    let ghost no_pieces: Seq<(Seq<char>, u8)> = Seq::empty();
    let ghost none_shown: Seq<Seq<char>> = Seq::empty();
    let mut d = DiffOut { out: Vec::new(), pieces: Ghost(no_pieces), shown: Ghost(none_shown) };
    proof {
        assert(concat(seq![]) =~= Seq::<char>::empty());
    }
    let mut head: Vec<char> = Vec::new();
    push_str(&mut head, "--- ");
    push_str(&mut head, filename);
    push_str(&mut head, "\n");
    d.emit(chars_to_string(&head).as_str(), 1);
    let mut head: Vec<char> = Vec::new();
    push_str(&mut head, "+++ ");
    push_str(&mut head, filename);
    push_str(&mut head, "\n");
    d.emit(chars_to_string(&head).as_str(), 2);
    let ghost top = d.pieces@;
    let mut h: usize = 0;
    while h < hunks.len()
        invariant
            h <= hunks@.len(),
            hs == hunks_view(hunks@),
            d.ok(),
            d.pieces@ == top + hunk_pieces(hs.take(h as int)),
        decreases hunks@.len() - h,
    {
        assert(hs.take(h + 1).drop_last() =~= hs.take(h as int));
        assert(hs[h as int] == (hunks@[h as int].0@, changes_view(hunks@[h as int].1@)));
        let ghost before = d.pieces@;
        d.emit(hunks[h].0.as_str(), 3);
        let ghost mid = d.pieces@;
        let cs = &hunks[h].1;
        let mut j: usize = 0;
        while j < cs.len()
            invariant
                j <= cs@.len(),
                d.ok(),
                d.pieces@ == mid + change_pieces(changes_view(cs@).take(j as int)),
            decreases cs@.len() - j,
        {
            assert(changes_view(cs@).take(j + 1).drop_last() =~= changes_view(cs@).take(j as int));
            let ghost pj = d.pieces@;
            let (k, t, missing) = (cs[j].0, &cs[j].1, cs[j].2);
            let mut line: Vec<char> = Vec::new();
            let kind: u8 = if k == 0 {
                line.push('-');
                1
            } else if k == 1 {
                line.push('+');
                2
            } else {
                line.push(' ');
                0
            };
            push_str(&mut line, t.as_str());
            d.emit(chars_to_string(&line).as_str(), kind);
            if missing {
                d.emit("\n", 0);
            }
            proof {
                reveal_strlit("-");
                reveal_strlit("+");
                reveal_strlit(" ");
                let tj = changes_view(cs@).take(j + 1);
                assert(tj.last() == (k, t@, missing));
                assert(tj.drop_last() =~= changes_view(cs@).take(j as int));
                let piece = if k == 0 { ("-"@ + t@, 1u8) } else if k == 1 { ("+"@ + t@, 2u8) } else { (" "@ + t@, 0u8) };
                assert(piece.0 =~= line@);
                assert(change_pieces(tj) == change_pieces(tj.drop_last()) + seq![piece] + (if missing { seq![("\n"@, 0u8)] } else { seq![] }));
                assert(d.pieces@ =~= mid + change_pieces(changes_view(cs@).take(j + 1)));
            }
            j += 1;
        }
        assert(changes_view(cs@).take(cs@.len() as int) =~= changes_view(cs@));
        assert(d.pieces@ =~= top + hunk_pieces(hs.take(h + 1)));
        h += 1;
    }
    assert(hs.take(hunks@.len() as int) =~= hs);
    assert(d.pieces@ =~= diff_pieces(filename@, line_diff_hunks(original@, formatted@)));
    chars_to_string(&d.out)
}

// ---------------------------------------------------------------------------
// Laying out keeps the commands
// ---------------------------------------------------------------------------

/// The commands of each line, one line after another.
pub open spec fn lines_commands(ls: Seq<Seq<char>>) -> Seq<char>
    decreases ls.len(),
{
    if ls.len() == 0 {
        Seq::empty()
    } else {
        lines_commands(ls.drop_last()) + bf_filter(ls.last())
    }
}

proof fn lemma_bf_filter_concat(a: Seq<char>, b: Seq<char>)
    ensures
        bf_filter(a + b) == bf_filter(a) + bf_filter(b),
    decreases b.len(),
{
    if b.len() == 0 {
        assert(a + b =~= a);
        assert(bf_filter(b) =~= Seq::<char>::empty());
        assert(bf_filter(a) + bf_filter(b) =~= bf_filter(a));
    } else {
        lemma_bf_filter_concat(a, b.drop_last());
        assert((a + b).drop_last() =~= a + b.drop_last());
        assert((a + b).last() == b.last());
        if is_bf_char(b.last()) {
            assert(bf_filter(a) + bf_filter(b) =~= (bf_filter(a) + bf_filter(b.drop_last())).push(b.last()));
        }
    }
}

proof fn lemma_bf_filter_white(l: Seq<char>)
    requires
        blank(l),
    ensures
        bf_filter(l) == Seq::<char>::empty(),
    decreases l.len(),
{
    if l.len() > 0 {
        assert(blank(l.drop_last()));
        lemma_bf_filter_white(l.drop_last());
        assert(is_white(l[l.len() - 1]));
    }
}

proof fn lemma_repeat_blank(n: nat)
    ensures
        blank(repeat_char(' ', n)),
{
}

proof fn lemma_bf_filter_push(l: Seq<char>, c: char)
    ensures
        bf_filter(l.push(c)) == if is_bf_char(c) { bf_filter(l).push(c) } else { bf_filter(l) },
{
    assert(l.push(c).drop_last() =~= l);
}

proof fn lemma_newline_commands()
    ensures
        bf_filter("\n"@) == Seq::<char>::empty(),
        bf_filter(Seq::<char>::empty()) == Seq::<char>::empty(),
{
    reveal_strlit("\n");
    assert(bf_filter(Seq::<char>::empty()) == Seq::<char>::empty());
    assert("\n"@.len() == 1);
    assert("\n"@.drop_last() =~= Seq::<char>::empty());
    assert("\n"@.last() == '\n');
    assert(!is_bf_char('\n'));
    assert(bf_filter("\n"@) == bf_filter("\n"@.drop_last()));
}

proof fn lemma_indented_commands(n: nat, c: char)
    ensures
        bf_filter(repeat_char(' ', n).push(c)) == if is_bf_char(c) { seq![c] } else { Seq::<char>::empty() },
{
    lemma_bf_filter_white(repeat_char(' ', n));
    lemma_bf_filter_push(repeat_char(' ', n), c);
    if is_bf_char(c) {
        assert(Seq::<char>::empty().push(c) =~= seq![c]);
    }
}

proof fn lemma_commands_push(ls: Seq<Seq<char>>, l: Seq<char>)
    ensures
        lines_commands(ls.push(l)) == lines_commands(ls) + bf_filter(l),
{
    assert(ls.push(l).drop_last() =~= ls);
}

proof fn lemma_commands_set_last(ls: Seq<Seq<char>>, l: Seq<char>)
    requires
        ls.len() > 0,
    ensures
        lines_commands(set_last(ls, l)) == lines_commands(ls.drop_last()) + bf_filter(l),
        lines_commands(ls) == lines_commands(ls.drop_last()) + bf_filter(ls.last()),
{
    assert(set_last(ls, l).drop_last() =~= ls.drop_last());
}

proof fn lemma_commands_drop_blank_tail(ls: Seq<Seq<char>>)
    ensures
        lines_commands(drop_blank_tail(ls)) == lines_commands(ls),
    decreases ls.len(),
{
    if ls.len() > 0 && blank(ls.last()) {
        lemma_commands_drop_blank_tail(ls.drop_last());
        lemma_bf_filter_white(ls.last());
        assert(lines_commands(ls) =~= lines_commands(ls.drop_last()));
    }
}

proof fn lemma_join_commands(ls: Seq<Seq<char>>)
    ensures
        bf_filter(join(ls, "\n"@)) == lines_commands(ls),
    decreases ls.len(),
{
    reveal_strlit("\n");
    if ls.len() == 0 {
    } else if ls.len() == 1 {
        assert(ls.drop_last() =~= Seq::<Seq<char>>::empty());
        assert(join(ls, "\n"@) == ls.last());
        assert(bf_filter(ls.last()) =~= Seq::<char>::empty() + bf_filter(ls.last()));
    } else {
        lemma_join_commands(ls.drop_last());
        lemma_bf_filter_concat(join(ls.drop_last(), "\n"@), "\n"@);
        lemma_bf_filter_concat(join(ls.drop_last(), "\n"@) + "\n"@, ls.last());
        lemma_newline_commands();
        assert(bf_filter(join(ls, "\n"@)) =~= lines_commands(ls.drop_last()) + bf_filter(ls.last()));
    }
}

/// One more character adds its command (if it is one) to the layout.
proof fn lemma_step_commands(st: Layout, c: char, indent: nat, width: nat, grouping: nat, keep: bool)
    requires
        st.lines.len() > 0,
    ensures
        layout_step(st, c, indent, width, grouping, keep).lines.len() > 0,
        lines_commands(layout_step(st, c, indent, width, grouping, keep).lines) == if is_bf_char(c) {
            lines_commands(st.lines).push(c)
        } else {
            lines_commands(st.lines)
        },
{
    let ls = st.lines;
    let last = ls.last();
    lemma_commands_set_last(ls, last);
    if blank(last) {
        lemma_bf_filter_white(last);
    }
    lemma_bf_filter_push(last, c);
    lemma_bf_filter_push(last, ' ');
    lemma_bf_filter_push(last.push(' '), c);
    let d1: nat = if st.depth > 0 { (st.depth - 1) as nat } else { 0 };
    let r = layout_step(st, c, indent, width, grouping, keep);
    if c == '[' || c == ']' {
        let dd: nat = if c == '[' { st.depth } else { d1 };
        let ind = repeat_char(' ', dd * indent);
        let b = if !blank(last) { ls.push(ind.push(c)) } else { set_last(ls, ind.push(c)) };
        lemma_indented_commands(dd * indent, c);
        if !blank(last) {
            lemma_commands_push(ls, ind.push(c));
        } else {
            lemma_commands_set_last(ls, ind.push(c));
        }
        lemma_commands_push(b, seq![]);
        assert(bf_filter(Seq::<char>::empty()) =~= Seq::<char>::empty());
        assert(lines_commands(r.lines) =~= lines_commands(ls).push(c));
    } else {
        let ind = repeat_char(' ', st.depth * indent);
        lemma_indented_commands(st.depth * indent, c);
        lemma_commands_push(ls, ind.push(c));
        lemma_commands_set_last(ls, ind.push(c));
        lemma_commands_set_last(ls, last.push(c));
        lemma_commands_set_last(ls, last.push(' ').push(c));
        if is_bf_char(c) {
            assert(lines_commands(r.lines) =~= lines_commands(ls).push(c));
        } else {
            assert(lines_commands(r.lines) =~= lines_commands(ls));
        }
    }
}

proof fn lemma_layout_commands(s: Seq<char>, indent: nat, width: nat, grouping: nat, keep: bool)
    ensures
        layout(s, indent, width, grouping, keep).lines.len() > 0,
        lines_commands(layout(s, indent, width, grouping, keep).lines) == bf_filter(s),
    decreases s.len(),
{
    if s.len() == 0 {
        let ls: Seq<Seq<char>> = seq![seq![]];
        assert(ls.drop_last() =~= Seq::<Seq<char>>::empty());
        lemma_newline_commands();
        assert(ls.last() =~= Seq::<char>::empty());
        assert(lines_commands(Seq::<Seq<char>>::empty()) == Seq::<char>::empty());
        assert(lines_commands(ls) == lines_commands(ls.drop_last()) + bf_filter(ls.last()));
        assert(lines_commands(ls) =~= Seq::<char>::empty() + Seq::<char>::empty());
        assert(lines_commands(ls) =~= Seq::<char>::empty());
    } else {
        lemma_layout_commands(s.drop_last(), indent, width, grouping, keep);
        lemma_step_commands(layout(s.drop_last(), indent, width, grouping, keep), s.last(), indent, width, grouping, keep);
    }
}

/// Laying a text out keeps its commands, in order: only whitespace and, when
/// kept, comments stand between them. So a formatted program does what the
/// program did.
pub proof fn law_layout_keeps_commands(s: Seq<char>, indent: nat, width: nat, grouping: nat, keep_comments: bool)
    ensures
        bf_filter(layout_text(s, indent, width, grouping, keep_comments)) == bf_filter(s),
{
    reveal_strlit("\n");
    let ls = layout(s, indent, width, grouping, keep_comments).lines;
    lemma_layout_commands(s, indent, width, grouping, keep_comments);
    lemma_commands_drop_blank_tail(ls);
    lemma_join_commands(drop_blank_tail(ls));
    lemma_bf_filter_concat(join(drop_blank_tail(ls), "\n"@), "\n"@);
    lemma_newline_commands();
    assert(bf_filter(join(drop_blank_tail(ls), "\n"@)) + bf_filter("\n"@) =~= bf_filter(s));
}

/// Without kept comments, the layout of a text depends on its commands alone.
proof fn lemma_layout_of_commands(s: Seq<char>, indent: nat, width: nat, grouping: nat)
    ensures
        layout(s, indent, width, grouping, false) == layout(bf_filter(s), indent, width, grouping, false),
    decreases s.len(),
{
    if s.len() > 0 {
        lemma_layout_of_commands(s.drop_last(), indent, width, grouping);
        let c = s.last();
        if is_bf_char(c) {
            let f = bf_filter(s.drop_last());
            assert(bf_filter(s) == f.push(c));
            assert(f.push(c).drop_last() =~= f);
            assert(f.push(c).last() == c);
        }
    }
}

/// Formatting twice gives what formatting once gives, when comments are not
/// kept.
pub proof fn law_layout_idempotent(s: Seq<char>, indent: nat, width: nat, grouping: nat)
    ensures
        layout_text(layout_text(s, indent, width, grouping, false), indent, width, grouping, false) == layout_text(
            s,
            indent,
            width,
            grouping,
            false,
        ),
{
    let t = layout_text(s, indent, width, grouping, false);
    law_layout_keeps_commands(s, indent, width, grouping, false);
    lemma_layout_of_commands(t, indent, width, grouping);
    lemma_layout_of_commands(s, indent, width, grouping);
}

/// Whether a text holds only commands, spaces and newlines.
pub open spec fn layout_chars(l: Seq<char>) -> bool {
    forall|k: int| 0 <= k < l.len() ==> is_bf_char(#[trigger] l[k]) || l[k] == ' ' || l[k] == '\n'
}

proof fn lemma_layout_chars(s: Seq<char>, indent: nat, width: nat, grouping: nat)
    ensures
        forall|j: int| 0 <= j < layout(s, indent, width, grouping, false).lines.len() ==> layout_chars(
            #[trigger] layout(s, indent, width, grouping, false).lines[j],
        ),
        layout(s, indent, width, grouping, false).lines.len() > 0,
    decreases s.len(),
{
    if s.len() > 0 {
        lemma_layout_chars(s.drop_last(), indent, width, grouping);
        let st = layout(s.drop_last(), indent, width, grouping, false);
        let c = s.last();
        let r = layout(s, indent, width, grouping, false);
        assert forall|n: nat, x: char| is_bf_char(x) implies #[trigger] layout_chars(repeat_char(' ', n).push(x)) by {
            let l = repeat_char(' ', n).push(x);
            assert forall|k: int| 0 <= k < l.len() implies is_bf_char(#[trigger] l[k]) || l[k] == ' ' || l[k] == '\n' by {
                if k < n {
                    assert(l[k] == ' ');
                }
            }
        }
        assert(layout_chars(Seq::<char>::empty()));
        let last = st.lines.last();
        assert(layout_chars(last));
        assert forall|x: char| is_bf_char(x) implies #[trigger] layout_chars(last.push(x)) by {
            let l = last.push(x);
            assert forall|k: int| 0 <= k < l.len() implies is_bf_char(#[trigger] l[k]) || l[k] == ' ' || l[k] == '\n' by {
                if k < last.len() {
                    assert(l[k] == last[k]);
                }
            }
        }
        assert forall|x: char| is_bf_char(x) implies #[trigger] layout_chars(last.push(' ').push(x)) by {
            let l = last.push(' ').push(x);
            assert forall|k: int| 0 <= k < l.len() implies is_bf_char(#[trigger] l[k]) || l[k] == ' ' || l[k] == '\n' by {
                if k < last.len() {
                    assert(l[k] == last[k]);
                }
            }
        }
        assert forall|j: int| 0 <= j < r.lines.len() implies layout_chars(#[trigger] r.lines[j]) by {
            if j < st.lines.len() - 1 {
                assert(r.lines[j] == st.lines[j]);
            }
        }
    } else {
        let r = layout(s, indent, width, grouping, false);
        assert(r.lines[0] =~= Seq::<char>::empty());
    }
}

proof fn lemma_join_chars(ls: Seq<Seq<char>>)
    requires
        forall|j: int| 0 <= j < ls.len() ==> layout_chars(#[trigger] ls[j]),
    ensures
        layout_chars(join(ls, "\n"@)),
    decreases ls.len(),
{
    reveal_strlit("\n");
    if ls.len() > 1 {
        lemma_join_chars(ls.drop_last());
        let a = join(ls.drop_last(), "\n"@);
        let t = a + "\n"@ + ls.last();
        assert(layout_chars(ls[ls.len() - 1]));
        assert forall|k: int| 0 <= k < t.len() implies is_bf_char(#[trigger] t[k]) || t[k] == ' ' || t[k] == '\n' by {
            if k < a.len() {
                assert(t[k] == a[k]);
            } else if k == a.len() {
                assert(t[k] == '\n');
            } else {
                assert(t[k] == ls.last()[k - a.len() - 1]);
            }
        }
    } else if ls.len() == 1 {
        assert(layout_chars(ls[0]));
    }
}

proof fn lemma_drop_blank_tail_lines(ls: Seq<Seq<char>>)
    ensures
        forall|j: int| 0 <= j < drop_blank_tail(ls).len() ==> #[trigger] drop_blank_tail(ls)[j] == ls[j],
        drop_blank_tail(ls).len() <= ls.len(),
    decreases ls.len(),
{
    if ls.len() > 0 && blank(ls.last()) {
        lemma_drop_blank_tail_lines(ls.drop_last());
    }
}

/// Without kept comments, laid-out text holds nothing but commands, spaces
/// and newlines.
pub proof fn lemma_layout_text_chars(s: Seq<char>, indent: nat, width: nat, grouping: nat)
    ensures
        layout_chars(layout_text(s, indent, width, grouping, false)),
        !layout_text(s, indent, width, grouping, false).contains('@'),
{
    reveal_strlit("\n");
    let ls = layout(s, indent, width, grouping, false).lines;
    lemma_layout_chars(s, indent, width, grouping);
    lemma_drop_blank_tail_lines(ls);
    let d = drop_blank_tail(ls);
    assert forall|j: int| 0 <= j < d.len() implies layout_chars(#[trigger] d[j]) by {
        assert(d[j] == ls[j]);
    }
    lemma_join_chars(d);
    let a = join(d, "\n"@);
    let t = a + "\n"@;
    assert forall|k: int| 0 <= k < t.len() implies is_bf_char(#[trigger] t[k]) || t[k] == ' ' || t[k] == '\n' by {
        if k < a.len() {
            assert(t[k] == a[k]);
        }
    }
    if t.contains('@') {
        let k = choose|k: int| 0 <= k < t.len() && t[k] == '@';
        assert(is_bf_char(t[k]) || t[k] == ' ' || t[k] == '\n');
    }
}

proof fn lemma_depth_filter(s: Seq<char>)
    ensures
        depth_scan(s) == depth_scan(bf_filter(s)),
    decreases s.len(),
{
    if s.len() > 0 {
        lemma_depth_filter(s.drop_last());
        let f = bf_filter(s.drop_last());
        if is_bf_char(s.last()) {
            assert(f.push(s.last()).drop_last() =~= f);
        }
    }
}

/// Formatting a directive-free program twice gives what formatting it once
/// gives, when comments are not kept; and where the program's indentation fits
/// in `usize`, so does that of the formatted text, so that it can be formatted
/// again.
pub proof fn law_format_idempotent(code: Seq<char>, o: FormatOptions)
    requires
        !code.contains('@'),
        !o.preserve_comments,
    ensures
        format_spec(code, o) is Ok,
        format_spec(format_spec(code, o)->Ok_0, o) == format_spec(code, o),
        format_fits(code, o.indent as nat) ==> format_fits(format_spec(code, o)->Ok_0, o.indent as nat),
{
    let (i, w, g) = (o.indent as nat, o.linewidth as nat, o.grouping as nat);
    lemma_layout_text_chars(code, i, w, g);
    law_layout_idempotent(code, i, w, g);
    law_format_keeps_commands(code, o);
    let f = format_spec(code, o)->Ok_0;
    lemma_depth_filter(code);
    lemma_depth_filter(f);
}

/// Formatting a directive-free program keeps its commands, in order.
pub proof fn law_format_keeps_commands(code: Seq<char>, o: FormatOptions)
    requires
        !code.contains('@'),
    ensures
        format_spec(code, o) is Ok,
        bf_filter(format_spec(code, o)->Ok_0) == bf_filter(code),
{
    law_layout_keeps_commands(code, o.indent as nat, o.linewidth as nat, o.grouping as nat, o.preserve_comments);
}

proof fn lemma_layout_filter(s: Seq<char>, indent: nat, width: nat, grouping: nat)
    ensures
        layout(s, indent, width, grouping, false) == layout(bf_filter(s), indent, width, grouping, false),
        !bf_filter(s).contains('@'),
    decreases s.len(),
{
    if s.len() > 0 {
        lemma_layout_filter(s.drop_last(), indent, width, grouping);
        let f = bf_filter(s.drop_last());
        if is_bf_char(s.last()) {
            assert(f.push(s.last()).drop_last() =~= f);
            assert forall|k: int| 0 <= k < f.push(s.last()).len() implies f.push(s.last())[k] != '@' by {
                if k < f.len() {
                    assert(f.push(s.last())[k] == f[k]);
                }
            }
        }
    }
}

/// Formatting a directive-free program without keeping comments gives what
/// formatting its minified text gives.
pub proof fn law_format_is_format_of_minified(code: Seq<char>, o: FormatOptions)
    requires
        !code.contains('@'),
        !o.preserve_comments,
    ensures
        format_spec(code, o) == format_spec(bf_filter(code), o),
{
    lemma_layout_filter(code, o.indent as nat, o.linewidth as nat, o.grouping as nat);
}

} // verus!

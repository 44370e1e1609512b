use vstd::prelude::*;

use super::interpreter::{jump_to, offset_cell};
use super::ir::{lemma_parse_moves, optimize_spec, parse_source, Instr, Op, Program};
use crate::error::OgreError;
use crate::text::{chars_to_string, decimal, push_u64, str_to_chars};

verus! {

// ---------------------------------------------------------------------------
// Ranking: the entries with the largest counts, first come first among equals
// ---------------------------------------------------------------------------

/// An entry that is ranked by a count.
pub trait Ranked: Sized {
    spec fn rank(self) -> nat;

    fn rank_of(&self) -> (r: u64)
        ensures
            r as nat == self.rank(),
    ;
}

impl Ranked for (usize, u64) {
    open spec fn rank(self) -> nat {
        self.1 as nat
    }

    fn rank_of(&self) -> (r: u64) {
        self.1
    }
}

impl Ranked for (usize, u64, u64) {
    open spec fn rank(self) -> nat {
        self.1 as nat
    }

    fn rank_of(&self) -> (r: u64) {
        self.1
    }
}

/// `s` with `x` placed after every entry whose count is at least that of `x`,
/// scanning from the back.
pub open spec fn insert_ranked<T: Ranked>(s: Seq<T>, x: T) -> Seq<T>
    decreases s.len(),
{
    if s.len() == 0 {
        seq![x]
    } else if s.last().rank() >= x.rank() {
        s.push(x)
    } else {
        insert_ranked(s.drop_last(), x).push(s.last())
    }
}

/// `s` sorted by count, largest first, entries with equal counts in their
/// original order (a stable sort).
pub open spec fn sort_ranked<T: Ranked>(s: Seq<T>) -> Seq<T>
    decreases s.len(),
{
    if s.len() == 0 {
        seq![]
    } else {
        insert_ranked(sort_ranked(s.drop_last()), s.last())
    }
}

/// The first `k` entries of `s` (all of them when it has fewer).
pub open spec fn keep<T>(s: Seq<T>, k: nat) -> Seq<T> {
    if s.len() <= k { s } else { s.take(k as int) }
}

/// Whether the counts in `s` never increase.
pub open spec fn ranked_desc<T: Ranked>(s: Seq<T>) -> bool {
    forall|i: int, j: int| 0 <= i < j < s.len() ==> s[i].rank() >= s[j].rank()
}

proof fn lemma_insert_len<T: Ranked>(s: Seq<T>, x: T)
    ensures
        insert_ranked(s, x).len() == s.len() + 1,
    decreases s.len(),
{
    if s.len() > 0 && s.last().rank() < x.rank() {
        lemma_insert_len(s.drop_last(), x);
    }
}

proof fn lemma_insert_bound<T: Ranked>(s: Seq<T>, x: T, b: nat)
    requires
        forall|i: int| 0 <= i < s.len() ==> s[i].rank() >= b,
        x.rank() >= b,
    ensures
        forall|i: int| 0 <= i < insert_ranked(s, x).len() ==> insert_ranked(s, x)[i].rank() >= b,
    decreases s.len(),
{
    lemma_insert_len(s, x);
    if s.len() > 0 && s.last().rank() < x.rank() {
        lemma_insert_bound(s.drop_last(), x, b);
        lemma_insert_len(s.drop_last(), x);
        let r = insert_ranked(s.drop_last(), x);
        assert forall|i: int| 0 <= i < r.push(s.last()).len() implies r.push(s.last())[i].rank() >= b by {
            if i < r.len() {
            } else {
                assert(s[s.len() - 1].rank() >= b);
            }
        }
    }
}

proof fn lemma_insert_sorted<T: Ranked>(s: Seq<T>, x: T)
    requires
        ranked_desc(s),
    ensures
        ranked_desc(insert_ranked(s, x)),
    decreases s.len(),
{
    if s.len() == 0 {
    } else if s.last().rank() >= x.rank() {
        let r = s.push(x);
        assert forall|i: int, j: int| 0 <= i < j < r.len() implies r[i].rank() >= r[j].rank() by {
            if j == s.len() {
                assert(s[i].rank() >= s[s.len() - 1].rank());
            }
        }
    } else {
        let t = s.drop_last();
        assert(ranked_desc(t));
        lemma_insert_sorted(t, x);
        lemma_insert_len(t, x);
        let b = s.last().rank();
        assert forall|i: int| 0 <= i < t.len() implies t[i].rank() >= b by {
            assert(s[i].rank() >= s[s.len() - 1].rank());
        }
        lemma_insert_bound(t, x, b);
        let r = insert_ranked(t, x).push(s.last());
        assert forall|i: int, j: int| 0 <= i < j < r.len() implies r[i].rank() >= r[j].rank() by {
            if j == r.len() - 1 {
            } else {
            }
        }
    }
}

proof fn lemma_sort_sorted<T: Ranked>(s: Seq<T>)
    ensures
        ranked_desc(sort_ranked(s)),
        sort_ranked(s).len() == s.len(),
    decreases s.len(),
{
    if s.len() > 0 {
        lemma_sort_sorted(s.drop_last());
        lemma_insert_sorted(sort_ranked(s.drop_last()), s.last());
        lemma_insert_len(sort_ranked(s.drop_last()), s.last());
    }
}

/// Inserting into a ranked list and keeping the first `k` entries gives the
/// same as inserting into the first `k` entries only.
proof fn lemma_insert_keep<T: Ranked>(s: Seq<T>, x: T, k: nat)
    requires
        ranked_desc(s),
    ensures
        keep(insert_ranked(s, x), k) == keep(insert_ranked(keep(s, k), x), k),
    decreases s.len(),
{
    lemma_insert_len(s, x);
    if s.len() <= k {
    } else if s.last().rank() >= x.rank() {
        let t = s.take(k as int);
        assert forall|i: int| 0 <= i < t.len() implies t[i].rank() >= x.rank() by {
            assert(s[i].rank() >= s[s.len() - 1].rank());
        }
        if k > 0 {
            assert(t.last().rank() >= x.rank());
            assert(insert_ranked(t, x) == t.push(x));
            assert(insert_ranked(t, x).take(k as int) =~= t);
        } else {
            assert(insert_ranked(t, x).take(k as int) =~= t);
        }
        assert(s.push(x).take(k as int) =~= t);
    } else {
        let d = s.drop_last();
        assert(ranked_desc(d));
        lemma_insert_keep(d, x, k);
        lemma_insert_len(d, x);
        if d.len() == k {
            assert(d =~= s.take(k as int));
        } else {
            assert(d.take(k as int) =~= s.take(k as int));
        }
        assert(insert_ranked(d, x).push(s.last()).take(k as int) =~= insert_ranked(d, x).take(k as int));
    }
}

/// Where `x` goes in `s`: the position after the last entry, counted from the
/// back, whose count is at least that of `x`.
proof fn lemma_insert_at<T: Ranked>(s: Seq<T>, x: T, k: int)
    requires
        0 <= k <= s.len(),
        forall|i: int| k <= i < s.len() ==> s[i].rank() < x.rank(),
        k == 0 || s[k - 1].rank() >= x.rank(),
    ensures
        insert_ranked(s, x) == s.insert(k, x),
    decreases s.len(),
{
    if s.len() == k {
        if k == 0 {
            assert(seq![x] =~= s.insert(k, x));
        } else {
            assert(s.push(x) =~= s.insert(k, x));
        }
    } else {
        lemma_insert_at(s.drop_last(), x, k);
        assert(s.drop_last().insert(k, x).push(s.last()) =~= s.insert(k, x));
    }
}

/// Put `x` into `top`, a ranked list of at most `n` entries, keeping at most `n`.
fn insert_top<T: Ranked + Copy>(top: &mut Vec<T>, x: T, n: usize)
    requires
        ranked_desc(old(top)@),
    ensures
        final(top)@ == keep(insert_ranked(old(top)@, x), n as nat),
        ranked_desc(final(top)@),
{
    let xr = x.rank_of();
    let mut k = top.len();
    while k > 0 && top[k - 1].rank_of() < xr
        invariant
            k <= top@.len(),
            top@ == old(top)@,
            xr as nat == x.rank(),
            forall|i: int| k <= i < top@.len() ==> top@[i].rank() < x.rank(),
        decreases k,
    {
        k -= 1;
    }
    proof {
        lemma_insert_at(top@, x, k as int);
        lemma_insert_sorted(top@, x);
    }
    top.insert(k, x);
    if top.len() > n {
        top.truncate(n);
    }
    proof {
        assert(ranked_desc(top@)) by {
            if old(top)@.len() + 1 > n {
                assert forall|i: int, j: int| 0 <= i < j < top@.len() implies top@[i].rank() >= top@[j].rank() by {
                    assert(top@[i] == insert_ranked(old(top)@, x)[i]);
                    assert(top@[j] == insert_ranked(old(top)@, x)[j]);
                }
            }
        }
    }
}

// ---------------------------------------------------------------------------
// The instrumented run
// ---------------------------------------------------------------------------

/// The most instructions a profiling run executes.
pub const PROFILE_LIMIT: u64 = 100_000_000;

/// The state of a profiling run.
#[verifier::ext_equal]
pub struct ProfState {
    pub tape: Seq<u8>,
    pub dp: nat,
    pub ip: nat,
    pub total: nat,
    /// How often each cell was the current one, for cells `0..=tape.len()`.
    pub access: Seq<nat>,
    pub max_cell: nat,
    pub add_sub: nat,
    pub moves: nat,
    pub io: nat,
    pub loops: nat,
    pub other: nat,
    /// Per op index: iterations and entries of the loop that starts there.
    pub iters: Seq<nat>,
    pub entries: Seq<nat>,
    /// The op indices of the loops entered and not yet left.
    pub stack: Seq<nat>,
}

/// Where `[>]` stops in a profiling run: the first zero cell at or right of
/// `d`, or the end of the tape.
pub open spec fn scan_up(tape: Seq<u8>, d: nat) -> nat
    decreases tape.len() - d,
{
    if d < tape.len() && tape[d as int] != 0 { scan_up(tape, d + 1) } else { d }
}

/// Where `[<]` stops in a profiling run: the first zero cell at or left of `d`,
/// or cell 0.
pub open spec fn scan_down(tape: Seq<u8>, d: nat) -> nat
    decreases d,
{
    if d > 0 && tape[d as int] != 0 { scan_down(tape, (d - 1) as nat) } else { d }
}

/// The tape after adding `v * factor` to each target in turn; `None` where an
/// offset overflows.
pub open spec fn mm_apply(tape: Seq<u8>, dp: nat, v: u8, ts: Seq<(isize, u8)>) -> Option<Seq<u8>>
    decreases ts.len(),
{
    if ts.len() == 0 {
        Some(tape)
    } else {
        match mm_apply(tape, dp, v, ts.drop_last()) {
            None => None,
            Some(t2) => {
                let (o, f) = ts.last();
                if dp + o > isize::MAX {
                    None
                } else {
                    match offset_cell(dp, o as int, t2.len()) {
                        None => Some(t2),
                        Some(c) => Some(
                            t2.update(
                                c as int,
                                vstd::wrapping::u8_specs::wrapping_add(
                                    t2[c as int],
                                    vstd::wrapping::u8_specs::wrapping_mul(v, f),
                                ),
                            ),
                        ),
                    }
                }
            },
        }
    }
}

/// The effect of one op in a profiling run; `None` where the op reads or writes
/// a cell past the end of the tape, or an offset overflows.
pub open spec fn prof_op(op: Instr, s: ProfState) -> Option<ProfState> {
    let ts = s.tape.len();
    let dp = s.dp;
    let on = dp < ts;
    let cur = s.tape[dp as int];
    let next = s.ip + 1;
    match op {
        Instr::Add(n) => if on {
            Some(ProfState { tape: s.tape.update(dp as int, vstd::wrapping::u8_specs::wrapping_add(cur, n)), add_sub: s.add_sub + 1, ip: next, ..s })
        } else {
            None
        },
        Instr::Sub(n) => if on {
            Some(ProfState { tape: s.tape.update(dp as int, vstd::wrapping::u8_specs::wrapping_sub(cur, n)), add_sub: s.add_sub + 1, ip: next, ..s })
        } else {
            None
        },
        Instr::Right(n) => if dp + n > usize::MAX || (dp + n >= ts && ts == 0) {
            None
        } else {
            Some(ProfState { dp: if dp + n >= ts { (ts - 1) as nat } else { (dp + n) as nat }, moves: s.moves + 1, ip: next, ..s })
        },
        Instr::Left(n) => Some(ProfState { dp: if dp >= n { (dp - n) as nat } else { 0 }, moves: s.moves + 1, ip: next, ..s }),
        Instr::Output => Some(ProfState { io: s.io + 1, ip: next, ..s }),
        Instr::Input => Some(ProfState { io: s.io + 1, ip: next, ..s }),
        Instr::JumpIfZero(t) => if !on {
            None
        } else if cur == 0 {
            Some(ProfState { loops: s.loops + 1, ip: jump_to(t), ..s })
        } else {
            Some(ProfState {
                loops: s.loops + 1,
                stack: s.stack.push(s.ip),
                entries: s.entries.update(s.ip as int, s.entries[s.ip as int] + 1),
                ip: next,
                ..s
            })
        },
        Instr::JumpIfNonZero(t) => if !on {
            None
        } else {
            let closes = s.stack.len() > 0 && s.stack.last() == t;
            let iters = if closes { s.iters.update(t as int, s.iters[t as int] + 1) } else { s.iters };
            if cur != 0 {
                Some(ProfState { loops: s.loops + 1, iters: iters, ip: jump_to(t), ..s })
            } else {
                Some(ProfState {
                    loops: s.loops + 1,
                    iters: iters,
                    stack: if closes { s.stack.drop_last() } else { s.stack },
                    ip: next,
                    ..s
                })
            }
        },
        Instr::Clear => if on {
            Some(ProfState { tape: s.tape.update(dp as int, 0), other: s.other + 1, ip: next, ..s })
        } else {
            None
        },
        Instr::Assign(n) => if on {
            Some(ProfState { tape: s.tape.update(dp as int, n), other: s.other + 1, ip: next, ..s })
        } else {
            None
        },
        Instr::MoveAdd(o) => if dp + o > isize::MAX || !on {
            None
        } else {
            let t2 = match offset_cell(dp, o as int, ts) {
                Some(c) => s.tape.update(c as int, vstd::wrapping::u8_specs::wrapping_add(s.tape[c as int], cur)),
                None => s.tape,
            };
            Some(ProfState { tape: t2.update(dp as int, 0), other: s.other + 1, ip: next, ..s })
        },
        Instr::MoveSub(o) => if dp + o > isize::MAX || !on {
            None
        } else {
            let t2 = match offset_cell(dp, o as int, ts) {
                Some(c) => s.tape.update(c as int, vstd::wrapping::u8_specs::wrapping_sub(s.tape[c as int], cur)),
                None => s.tape,
            };
            Some(ProfState { tape: t2.update(dp as int, 0), other: s.other + 1, ip: next, ..s })
        },
        Instr::ScanRight => Some(ProfState { dp: scan_up(s.tape, dp), other: s.other + 1, ip: next, ..s }),
        Instr::ScanLeft => if dp > 0 && !on {
            None
        } else {
            Some(ProfState { dp: scan_down(s.tape, dp), other: s.other + 1, ip: next, ..s })
        },
        Instr::MultiplyMove(targets) => if !on {
            None
        } else {
            match mm_apply(s.tape, dp, cur, targets) {
                None => None,
                Some(t2) => Some(ProfState { tape: t2.update(dp as int, 0), other: s.other + 1, ip: next, ..s }),
            }
        },
    }
}

/// The state with the access to the current cell counted.
pub open spec fn prof_count(s: ProfState) -> ProfState {
    ProfState {
        access: s.access.update(s.dp as int, s.access[s.dp as int] + 1),
        max_cell: if s.dp > s.max_cell { s.dp } else { s.max_cell },
        ..s
    }
}

/// The state at the end of a profiling run, stopping at the end of the program
/// or after `PROFILE_LIMIT` instructions; `None` where an op faults.
pub open spec fn prof_run(ops: Seq<Instr>, s: ProfState) -> Option<ProfState>
    decreases PROFILE_LIMIT - s.total,
{
    if s.ip >= ops.len() || s.total >= PROFILE_LIMIT {
        Some(s)
    } else {
        match prof_op(ops[s.ip as int], prof_count(s)) {
            None => None,
            Some(n) => prof_run(ops, ProfState { total: s.total + 1, ..n }),
        }
    }
}

/// The state a profiling run starts from.
pub open spec fn prof_init(nops: nat, ts: nat) -> ProfState {
    ProfState {
        tape: Seq::new(ts, |i: int| 0u8),
        dp: 0,
        ip: 0,
        total: 0,
        access: Seq::new(ts + 1, |i: int| 0nat),
        max_cell: 0,
        add_sub: 0,
        moves: 0,
        io: 0,
        loops: 0,
        other: 0,
        iters: Seq::new(nops, |i: int| 0nat),
        entries: Seq::new(nops, |i: int| 0nat),
        stack: seq![],
    }
}

struct Prof {
    tape: Vec<u8>,
    dp: usize,
    ip: usize,
    total: u64,
    access: Vec<u64>,
    max_cell: usize,
    add_sub: u64,
    moves: u64,
    io: u64,
    loops: u64,
    other: u64,
    iters: Vec<u64>,
    entries: Vec<u64>,
    stack: Vec<usize>,
}

pub open spec fn nats(v: Seq<u64>) -> Seq<nat> {
    v.map_values(|x: u64| x as nat)
}

pub open spec fn idxs(v: Seq<usize>) -> Seq<nat> {
    v.map_values(|x: usize| x as nat)
}

impl Prof {
    spec fn state(&self) -> ProfState {
        ProfState {
            tape: self.tape@,
            dp: self.dp as nat,
            ip: self.ip as nat,
            total: self.total as nat,
            access: nats(self.access@),
            max_cell: self.max_cell as nat,
            add_sub: self.add_sub as nat,
            moves: self.moves as nat,
            io: self.io as nat,
            loops: self.loops as nat,
            other: self.other as nat,
            iters: nats(self.iters@),
            entries: nats(self.entries@),
            stack: idxs(self.stack@),
        }
    }

    spec fn inv(&self, nops: nat) -> bool {
        &&& self.tape@.len() <= isize::MAX
        &&& self.access@.len() == self.tape@.len() + 1
        &&& self.dp <= self.tape@.len()
        &&& self.max_cell <= self.tape@.len()
        &&& self.iters@.len() == nops
        &&& self.entries@.len() == nops
        &&& self.total <= PROFILE_LIMIT
        &&& self.add_sub <= self.total && self.moves <= self.total && self.io <= self.total
        &&& self.loops <= self.total && self.other <= self.total
        &&& forall|i: int| 0 <= i < self.access@.len() ==> self.access@[i] <= self.total
        &&& forall|i: int| 0 <= i < nops ==> self.iters@[i] <= self.total
        &&& forall|i: int| 0 <= i < nops ==> self.entries@[i] <= self.total
        &&& forall|i: int| 0 <= i < self.stack@.len() ==> self.stack@[i] < nops
    }
}

proof fn lemma_mm_none(tape: Seq<u8>, dp: nat, v: u8, ts: Seq<(isize, u8)>, j: int)
    requires
        0 <= j <= ts.len(),
        mm_apply(tape, dp, v, ts.take(j)) is None,
    ensures
        mm_apply(tape, dp, v, ts) is None,
    decreases ts.len() - j,
{
    if j < ts.len() {
        assert(ts.take(j + 1).drop_last() =~= ts.take(j));
        lemma_mm_none(tape, dp, v, ts, j + 1);
    } else {
        assert(ts.take(j) =~= ts);
    }
}

proof fn lemma_idxs_push(v: Seq<usize>, x: usize)
    ensures
        idxs(v.push(x)) == idxs(v).push(x as nat),
{
    assert(idxs(v.push(x)) =~= idxs(v).push(x as nat));
}

proof fn lemma_idxs_pop(v: Seq<usize>)
    requires
        v.len() > 0,
    ensures
        idxs(v.drop_last()) == idxs(v).drop_last(),
{
    assert(idxs(v.drop_last()) =~= idxs(v).drop_last());
}

proof fn lemma_nats_update(v: Seq<u64>, i: int, x: u64)
    requires
        0 <= i < v.len(),
    ensures
        nats(v.update(i, x)) == nats(v).update(i, x as nat),
{
    assert(nats(v.update(i, x)) =~= nats(v).update(i, x as nat));
}

fn apply_targets_exec(st: &mut Prof, targets: &Vec<(isize, u8)>, v: u8) -> (ok: bool)
    requires
        old(st).dp < old(st).tape@.len() <= isize::MAX,
    ensures
        final(st).dp == old(st).dp,
        final(st).tape@.len() == old(st).tape@.len(),
        match mm_apply(old(st).tape@, old(st).dp as nat, v, targets@) {
            None => !ok,
            Some(t2) => ok && final(st).tape@ == t2,
        },
        final(st).access == old(st).access && final(st).iters == old(st).iters && final(st).entries
            == old(st).entries && final(st).stack == old(st).stack && final(st).ip == old(st).ip && final(st).total
            == old(st).total && final(st).max_cell == old(st).max_cell && final(st).add_sub == old(st).add_sub
            && final(st).moves == old(st).moves && final(st).io == old(st).io && final(st).loops == old(st).loops
            && final(st).other == old(st).other,
{
    let ts = st.tape.len();
    let dp = st.dp;
    let mut j: usize = 0;
    while j < targets.len()
        invariant
            st.dp == dp,
            dp == old(st).dp,
            ts == old(st).tape@.len(),
            dp < ts == st.tape@.len() <= isize::MAX,
            j <= targets@.len(),
            mm_apply(old(st).tape@, dp as nat, v, targets@.take(j as int)) == Some(st.tape@),
            st.access == old(st).access && st.iters == old(st).iters && st.entries == old(st).entries && st.stack
                == old(st).stack && st.ip == old(st).ip && st.total == old(st).total && st.max_cell
                == old(st).max_cell && st.add_sub == old(st).add_sub && st.moves == old(st).moves && st.io
                == old(st).io && st.loops == old(st).loops && st.other == old(st).other,
        decreases targets@.len() - j,
    {
        assert(targets@.take(j + 1).drop_last() =~= targets@.take(j as int));
        let (o, f) = targets[j];
        if o > 0 && (o as usize) > (isize::MAX as usize) - dp {
            proof {
                lemma_mm_none(old(st).tape@, dp as nat, v, targets@, j + 1);
            }
            return false;
        }
        let t: isize = dp as isize + o;
        if t >= 0 && (t as usize) < ts {
            let c = t as usize;
            let old_c = st.tape[c];
            st.tape.set(c, old_c.wrapping_add(v.wrapping_mul(f)));
        }
        j += 1;
    }
    assert(targets@.take(targets@.len() as int) =~= targets@);
    true
}

fn prof_step(st: &mut Prof, op: &Op, Ghost(nops): Ghost<nat>) -> (ok: bool)
    requires
        old(st).inv(nops),
        old(st).total < PROFILE_LIMIT,
        old(st).ip < nops <= usize::MAX,
    ensures
        match prof_op(op@, prof_count(old(st).state())) {
            None => !ok,
            Some(n) => ok && final(st).state() == (ProfState { total: old(st).state().total + 1, ..n })
                && final(st).inv(nops),
        },
{
    let ghost s0 = st.state();
    let dp = st.dp;
    let a = st.access[dp];
    st.access.set(dp, a + 1);
    if dp > st.max_cell {
        st.max_cell = dp;
    }
    proof {
        lemma_nats_update(old(st).access@, dp as int, (a + 1) as u64);
        assert(st.state() == prof_count(s0));
    }
    let ghost c = st.state();
    let ts = st.tape.len();
    let on = dp < ts;
    match op {
        Op::Add(n) => {
            if !on {
                return false;
            }
            let cur = st.tape[dp];
            st.tape.set(dp, cur.wrapping_add(*n));
            st.add_sub += 1;
        },
        Op::Sub(n) => {
            if !on {
                return false;
            }
            let cur = st.tape[dp];
            st.tape.set(dp, cur.wrapping_sub(*n));
            st.add_sub += 1;
        },
        Op::Right(n) => {
            if *n > usize::MAX - dp {
                return false;
            }
            let nd = dp + *n;
            if nd >= ts {
                if ts == 0 {
                    return false;
                }
                st.dp = ts - 1;
            } else {
                st.dp = nd;
            }
            st.moves += 1;
        },
        Op::Left(n) => {
            st.dp = if dp >= *n { dp - *n } else { 0 };
            st.moves += 1;
        },
        Op::Output => {
            st.io += 1;
        },
        Op::Input => {
            st.io += 1;
        },
        Op::JumpIfZero(t) => {
            if !on {
                return false;
            }
            st.loops += 1;
            if st.tape[dp] == 0 {
                st.ip = if *t < usize::MAX { *t } else { usize::MAX - 1 };
            } else {
                let ip = st.ip;
                proof {
                    lemma_idxs_push(st.stack@, ip);
                }
                st.stack.push(ip);
                let e = st.entries[ip];
                proof {
                    lemma_nats_update(st.entries@, ip as int, (e + 1) as u64);
                }
                st.entries.set(ip, e + 1);
            }
        },
        Op::JumpIfNonZero(t) => {
            if !on {
                return false;
            }
            st.loops += 1;
            let closes = st.stack.len() > 0 && st.stack[st.stack.len() - 1] == *t;
            if closes {
                let it = st.iters[*t];
                proof {
                    lemma_nats_update(st.iters@, *t as int, (it + 1) as u64);
                }
                st.iters.set(*t, it + 1);
            }
            if st.tape[dp] != 0 {
                st.ip = if *t < usize::MAX { *t } else { usize::MAX - 1 };
            } else if closes {
                proof {
                    lemma_idxs_pop(st.stack@);
                }
                st.stack.pop();
            }
        },
        Op::Clear => {
            if !on {
                return false;
            }
            st.tape.set(dp, 0);
            st.other += 1;
        },
        Op::Assign(n) => {
            if !on {
                return false;
            }
            st.tape.set(dp, *n);
            st.other += 1;
        },
        Op::MoveAdd(o) => {
            if (*o > 0 && (*o as usize) > (isize::MAX as usize) - dp) || !on {
                return false;
            }
            let cur = st.tape[dp];
            let t: isize = dp as isize + *o;
            if t >= 0 && (t as usize) < ts {
                let tc = st.tape[t as usize];
                st.tape.set(t as usize, tc.wrapping_add(cur));
            }
            st.tape.set(dp, 0);
            st.other += 1;
        },
        Op::MoveSub(o) => {
            if (*o > 0 && (*o as usize) > (isize::MAX as usize) - dp) || !on {
                return false;
            }
            let cur = st.tape[dp];
            let t: isize = dp as isize + *o;
            if t >= 0 && (t as usize) < ts {
                let tc = st.tape[t as usize];
                st.tape.set(t as usize, tc.wrapping_sub(cur));
            }
            st.tape.set(dp, 0);
            st.other += 1;
        },
        Op::ScanRight => {
            let mut d = dp;
            while d < ts && st.tape[d] != 0
                invariant
                    ts == st.tape@.len() == c.tape.len(),
                    st.tape@ == c.tape,
                    d <= ts,
                    scan_up(c.tape, dp as nat) == scan_up(c.tape, d as nat),
                decreases ts - d,
            {
                d += 1;
            }
            st.dp = d;
            st.other += 1;
        },
        Op::ScanLeft => {
            if dp > 0 && !on {
                return false;
            }
            let mut d = dp;
            while d > 0 && st.tape[d] != 0
                invariant
                    ts == st.tape@.len() == c.tape.len(),
                    st.tape@ == c.tape,
                    d < ts || d == 0,
                    scan_down(c.tape, dp as nat) == scan_down(c.tape, d as nat),
                decreases d,
            {
                d -= 1;
            }
            st.dp = d;
            st.other += 1;
        },
        Op::MultiplyMove(targets) => {
            if !on {
                return false;
            }
            let v = st.tape[dp];
            let ok = apply_targets_exec(st, targets, v);
            if !ok {
                return false;
            }
            st.tape.set(dp, 0);
            st.other += 1;
        },
    }
    st.ip = st.ip + 1;
    st.total += 1;
    proof {
        let n = prof_op(op@, c)->Some_0;
        assert(st.state() =~= (ProfState { total: s0.total + 1, ..n }));
    }
    true
}

// ---------------------------------------------------------------------------
// The report
// ---------------------------------------------------------------------------

/// Executed instructions by kind.
#[derive(Debug)]
pub struct InstructionMix {
    pub add_sub: u64,
    pub moves: u64,
    pub io: u64,
    pub loops: u64,
    pub other: u64,
}

impl Default for InstructionMix {
    fn default() -> (r: Self)
        ensures
            r.add_sub == 0 && r.moves == 0 && r.io == 0 && r.loops == 0 && r.other == 0,
    {
        InstructionMix { add_sub: 0, moves: 0, io: 0, loops: 0, other: 0 }
    }
}

/// How often a loop was entered and iterated.
#[derive(Debug)]
pub struct LoopStat {
    pub op_index: usize,
    pub total_iterations: u64,
    pub entries: u64,
}

/// Profiling results for a brainfuck program execution.
#[derive(Debug)]
pub struct ProfileReport {
    pub total_instructions: u64,
    pub cells_accessed: usize,
    pub instruction_mix: InstructionMix,
    pub hot_cells: Vec<(usize, u64)>,
    pub loop_stats: Vec<LoopStat>,
    pub max_cell_used: usize,
}

/// The cells that were accessed, with their counts, in order of the cell.
pub open spec fn touched_cells(access: Seq<nat>) -> Seq<(usize, u64)>
    decreases access.len(),
{
    if access.len() == 0 {
        seq![]
    } else {
        let r = touched_cells(access.drop_last());
        if access.last() > 0 { r.push(((access.len() - 1) as usize, access.last() as u64)) } else { r }
    }
}

/// The loops among the first `n` ops that were entered, with their
/// iterations and entries, in order of the op.
pub open spec fn entered_loops(iters: Seq<nat>, entries: Seq<nat>, n: nat) -> Seq<(usize, u64, u64)>
    decreases n,
{
    if n == 0 {
        seq![]
    } else {
        let r = entered_loops(iters, entries, (n - 1) as nat);
        let i = n - 1;
        if entries[i] > 0 { r.push((i as usize, iters[i] as u64, entries[i] as u64)) } else { r }
    }
}

/// The values of loop statistics.
pub open spec fn loop_stats_view(v: Seq<LoopStat>) -> Seq<(usize, u64, u64)> {
    v.map_values(|l: LoopStat| (l.op_index, l.total_iterations, l.entries))
}

/// The ten most accessed cells, most accessed first (equal counts by cell).
pub open spec fn hot_cells_of(st: ProfState) -> Seq<(usize, u64)> {
    keep(sort_ranked(touched_cells(st.access)), 10)
}

/// Whether `r` reports the run that ended in `st`: its counts, the ten most
/// accessed cells, the ten most iterated loops (equal counts by op), and the
/// number of cells accessed (the larger of the number of hot cells and one
/// past the highest cell used, when that is not cell 0).
pub open spec fn report_matches(r: ProfileReport, st: ProfState) -> bool {
    let hot = hot_cells_of(st);
    let span: nat = if st.max_cell > 0 { st.max_cell + 1 } else { 0 };
    &&& r.total_instructions as nat == st.total
    &&& r.instruction_mix.add_sub as nat == st.add_sub
    &&& r.instruction_mix.moves as nat == st.moves
    &&& r.instruction_mix.io as nat == st.io
    &&& r.instruction_mix.loops as nat == st.loops
    &&& r.instruction_mix.other as nat == st.other
    &&& r.max_cell_used as nat == st.max_cell
    &&& r.hot_cells@ == hot
    &&& loop_stats_view(r.loop_stats@) == keep(sort_ranked(entered_loops(st.iters, st.entries, st.iters.len())), 10)
    &&& r.cells_accessed as nat == if hot.len() >= span { hot.len() } else { span }
}

fn zeroed_u8(n: usize) -> (v: Vec<u8>)
    ensures
        v@ == Seq::new(n as nat, |i: int| 0u8),
{
    let mut v: Vec<u8> = Vec::new();
    while v.len() < n
        invariant
            v@.len() <= n,
            forall|i: int| 0 <= i < v@.len() ==> v@[i] == 0u8,
        decreases n - v@.len(),
    {
        v.push(0);
    }
    assert(v@ =~= Seq::new(n as nat, |i: int| 0u8));
    v
}

fn zeroed_u64(n: usize) -> (v: Vec<u64>)
    ensures
        v@.len() == n,
        nats(v@) == Seq::new(n as nat, |i: int| 0nat),
        forall|i: int| 0 <= i < n ==> v@[i] == 0u64,
{
    let mut v: Vec<u64> = Vec::new();
    while v.len() < n
        invariant
            v@.len() <= n,
            forall|i: int| 0 <= i < v@.len() ==> v@[i] == 0u64,
        decreases n - v@.len(),
    {
        v.push(0);
    }
    assert(nats(v@) =~= Seq::new(n as nat, |i: int| 0nat));
    v
}

fn hot_cells_exec(access: &Vec<u64>) -> (top: Vec<(usize, u64)>)
    ensures
        top@ == keep(sort_ranked(touched_cells(nats(access@))), 10),
{
    let mut top: Vec<(usize, u64)> = Vec::new();
    let mut i: usize = 0;
    while i < access.len()
        invariant
            i <= access@.len(),
            ranked_desc(top@),
            top@ == keep(sort_ranked(touched_cells(nats(access@).take(i as int))), 10),
        decreases access@.len() - i,
    {
        let ghost pre = nats(access@).take(i as int);
        let ghost nx = nats(access@).take(i + 1);
        assert(nx.drop_last() =~= pre);
        assert(nx.last() == access@[i as int] as nat);
        if access[i] > 0 {
            proof {
                let x = (i, access@[i as int]);
                assert(touched_cells(nx) == touched_cells(pre).push(x));
                assert(touched_cells(nx).drop_last() =~= touched_cells(pre));
                assert(sort_ranked(touched_cells(nx)) == insert_ranked(sort_ranked(touched_cells(pre)), x));
                lemma_sort_sorted(touched_cells(pre));
                lemma_insert_keep(sort_ranked(touched_cells(pre)), x, 10);
            }
            insert_top(&mut top, (i, access[i]), 10);
        } else {
            assert(touched_cells(nx) == touched_cells(pre));
        }
        i += 1;
    }
    assert(nats(access@).take(access@.len() as int) =~= nats(access@));
    top
}

fn loop_stats_exec(iters: &Vec<u64>, entries: &Vec<u64>) -> (stats: Vec<LoopStat>)
    requires
        iters@.len() == entries@.len(),
    ensures
        loop_stats_view(stats@) == keep(sort_ranked(entered_loops(nats(iters@), nats(entries@), iters@.len())), 10),
{
    let mut top: Vec<(usize, u64, u64)> = Vec::new();
    let mut i: usize = 0;
    while i < iters.len()
        invariant
            i <= iters@.len() == entries@.len(),
            ranked_desc(top@),
            top@ == keep(sort_ranked(entered_loops(nats(iters@), nats(entries@), i as nat)), 10),
        decreases iters@.len() - i,
    {
        let ghost pre = entered_loops(nats(iters@), nats(entries@), i as nat);
        let ghost nx = entered_loops(nats(iters@), nats(entries@), (i + 1) as nat);
        assert(nats(entries@)[i as int] == entries@[i as int] as nat);
        assert(nats(iters@)[i as int] == iters@[i as int] as nat);
        if entries[i] > 0 {
            proof {
                let x = (i, iters@[i as int], entries@[i as int]);
                assert(nx == pre.push(x));
                assert(nx.drop_last() =~= pre);
                assert(sort_ranked(nx) == insert_ranked(sort_ranked(pre), x));
                lemma_sort_sorted(pre);
                lemma_insert_keep(sort_ranked(pre), x, 10);
            }
            insert_top(&mut top, (i, iters[i], entries[i]), 10);
        } else {
            assert(nx == pre);
        }
        i += 1;
    }
    let mut stats: Vec<LoopStat> = Vec::new();
    let mut k: usize = 0;
    while k < top.len()
        invariant
            k <= top@.len(),
            loop_stats_view(stats@) == top@.take(k as int),
        decreases top@.len() - k,
    {
        let (op_index, total_iterations, n) = top[k];
        let ghost before = stats@;
        let l = LoopStat { op_index, total_iterations, entries: n };
        stats.push(l);
        assert(loop_stats_view(stats@) =~= loop_stats_view(before).push((op_index, total_iterations, n)));
        k += 1;
        assert(loop_stats_view(stats@) =~= top@.take(k as int));
    }
    assert(top@.take(top@.len() as int) =~= top@);
    stats
}

/// Profile a program: run it, optimized, with instrumentation for at most
/// `PROFILE_LIMIT` instructions on a tape of `tape_size` cells, without input.
/// Where an op would read or write a cell past the end of the tape, or an
/// offset overflows, the run stops with `TapeOverflow`.
pub fn profile_source(code: &str, tape_size: usize) -> (r: Result<ProfileReport, OgreError>)
    requires
        code@.len() <= isize::MAX,
        tape_size <= isize::MAX,
    ensures
        match parse_source(code@) {
            Err(e) => r == Err::<ProfileReport, OgreError>(e),
            Ok(ops) => match prof_run(optimize_spec(ops), prof_init(optimize_spec(ops).len(), tape_size as nat)) {
                None => r is Err && r->Err_0 is TapeOverflow,
                Some(st) => r is Ok && report_matches(r->Ok_0, st),
            },
        },
{
    let mut program = match Program::from_source(code) {
        Ok(p) => p,
        Err(e) => return Err(e),
    };
    proof {
        lemma_parse_moves(code@);
    }
    program.optimize();
    let nops = program.ops.len();
    let mut st = Prof {
        tape: zeroed_u8(tape_size),
        dp: 0,
        ip: 0,
        total: 0,
        access: zeroed_u64(tape_size + 1),
        max_cell: 0,
        add_sub: 0,
        moves: 0,
        io: 0,
        loops: 0,
        other: 0,
        iters: zeroed_u64(nops),
        entries: zeroed_u64(nops),
        stack: Vec::new(),
    };
    let ghost init = prof_init(nops as nat, tape_size as nat);
    proof {
        assert(idxs(st.stack@) =~= seq![]);
        assert(st.state() =~= init);
    }
    while st.ip < nops && st.total < PROFILE_LIMIT
        invariant
            st.inv(nops as nat),
            nops == program@.len(),
            parse_source(code@) is Ok,
            program@ == optimize_spec(parse_source(code@)->Ok_0),
            init == prof_init(nops as nat, tape_size as nat),
            prof_run(program@, st.state()) == prof_run(program@, init),
        decreases PROFILE_LIMIT - st.total,
    {
        let ghost before = st.state();
        let ip = st.ip;
        assert(program@[ip as int] == program.ops@[ip as int]@);
        let ok = prof_step(&mut st, &program.ops[ip], Ghost(nops as nat));
        if !ok {
            assert(prof_run(program@, before) is None);
            let msg = String::from_str("a cell past the end of the tape while profiling");
            return Err(OgreError::TapeOverflow(msg));
        }
    }
    let hot = hot_cells_exec(&st.access);
    let stats = loop_stats_exec(&st.iters, &st.entries);
    let span: usize = if st.max_cell > 0 { st.max_cell + 1 } else { 0 };
    let cells = if hot.len() >= span { hot.len() } else { span };
    let mix = InstructionMix { add_sub: st.add_sub, moves: st.moves, io: st.io, loops: st.loops, other: st.other };
    Ok(ProfileReport {
        total_instructions: st.total,
        cells_accessed: cells,
        instruction_mix: mix,
        hot_cells: hot,
        loop_stats: stats,
        max_cell_used: st.max_cell,
    })
}

/// Three decimal digits, with leading zeros, of a number below 1000.
pub open spec fn pad3(x: nat) -> Seq<char> {
    if x < 10 { "00"@ + decimal(x) } else if x < 100 { "0"@ + decimal(x) } else { decimal(x) }
}

/// A count as the profile report shows it: commas before the thousands and
/// the millions (nothing groups the digits above the millions).
pub open spec fn profile_number(n: nat) -> Seq<char> {
    if n >= 1_000_000 {
        decimal(n / 1_000_000) + ","@ + pad3((n / 1000) % 1000) + ","@ + pad3(n % 1000)
    } else if n >= 1000 {
        decimal(n / 1000) + ","@ + pad3(n % 1000)
    } else {
        decimal(n)
    }
}

fn push_pad3(out: &mut Vec<char>, x: u64)
    requires
        x < 1000,
    ensures
        final(out)@ == old(out)@ + pad3(x as nat),
{
    if x < 10 {
        out.push('0');
        out.push('0');
    } else if x < 100 {
        out.push('0');
    }
    push_u64(out, x);
    proof {
        reveal_strlit("00");
        reveal_strlit("0");
        if x < 10 {
            assert(final(out)@ =~= old(out)@ + pad3(x as nat));
        } else if x < 100 {
            assert(final(out)@ =~= old(out)@ + pad3(x as nat));
        }
    }
}

/// Format a count for the profile report.
pub fn format_number(n: u64) -> (s: String)
    ensures
        s@ == profile_number(n as nat),
{
    let mut out: Vec<char> = Vec::new();
    if n >= 1_000_000 {
        push_u64(&mut out, n / 1_000_000);
        out.push(',');
        push_pad3(&mut out, (n / 1000) % 1000);
        out.push(',');
        push_pad3(&mut out, n % 1000);
        proof {
            reveal_strlit(",");
        }
        assert(out@ =~= profile_number(n as nat));
    } else if n >= 1000 {
        push_u64(&mut out, n / 1000);
        out.push(',');
        push_pad3(&mut out, n % 1000);
        proof {
            reveal_strlit(",");
        }
        assert(out@ =~= profile_number(n as nat));
    } else {
        push_u64(&mut out, n);
        assert(out@ =~= profile_number(n as nat));
    }
    chars_to_string(&out)
}

} // verus!

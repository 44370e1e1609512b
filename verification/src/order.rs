use vstd::prelude::*;

use crate::text::str_to_chars;

verus! {

/// Whether `a` comes before `b` in the order of texts: character by
/// character, by code point, a proper prefix first (the order of `str`'s
/// comparison).
pub open spec fn text_lt(a: Seq<char>, b: Seq<char>) -> bool
    decreases a.len(),
{
    if a.len() == 0 {
        b.len() > 0
    } else if b.len() == 0 {
        false
    } else if a[0] != b[0] {
        a[0] < b[0]
    } else {
        text_lt(a.drop_first(), b.drop_first())
    }
}

/// Whether the texts are in strictly increasing order.
pub open spec fn strictly_sorted(s: Seq<Seq<char>>) -> bool {
    forall|i: int, j: int| 0 <= i < j < s.len() ==> text_lt(#[trigger] s[i], #[trigger] s[j])
}

/// Whether `r` holds the texts of `ks`, each once, in increasing order.
pub open spec fn sorted_texts_of(r: Seq<Seq<char>>, ks: Seq<Seq<char>>) -> bool {
    &&& r.len() == ks.len()
    &&& strictly_sorted(r)
    &&& forall|x: Seq<char>| r.contains(x) <==> ks.contains(x)
}

/// The texts of `ks` in increasing order.
pub open spec fn sorted_texts(ks: Seq<Seq<char>>) -> Seq<Seq<char>> {
    choose|r: Seq<Seq<char>>| sorted_texts_of(r, ks)
}

pub proof fn lemma_text_lt_irreflexive(a: Seq<char>)
    ensures
        !text_lt(a, a),
    decreases a.len(),
{
    if a.len() > 0 {
        lemma_text_lt_irreflexive(a.drop_first());
    }
}

pub proof fn lemma_text_lt_transitive(a: Seq<char>, b: Seq<char>, c: Seq<char>)
    requires
        text_lt(a, b),
        text_lt(b, c),
    ensures
        text_lt(a, c),
    decreases a.len(),
{
    if a.len() > 0 && b.len() > 0 && c.len() > 0 && a[0] == b[0] && b[0] == c[0] {
        lemma_text_lt_transitive(a.drop_first(), b.drop_first(), c.drop_first());
    }
}

pub proof fn lemma_text_lt_total(a: Seq<char>, b: Seq<char>)
    requires
        a != b,
    ensures
        text_lt(a, b) || text_lt(b, a),
    decreases a.len(),
{
    if a.len() == 0 && b.len() == 0 {
        assert(a =~= b);
    } else if a.len() > 0 && b.len() > 0 && a[0] == b[0] {
        if a.drop_first() == b.drop_first() {
            assert(a.drop_first().len() == a.len() - 1);
            assert(b.drop_first().len() == b.len() - 1);
            assert(a.len() == b.len());
            assert forall|i: int| 0 <= i < a.len() implies a[i] == b[i] by {
                if i > 0 {
                    assert(a[i] == a.drop_first()[i - 1]);
                    assert(b[i] == b.drop_first()[i - 1]);
                }
            }
            assert(a =~= b);
        }
        lemma_text_lt_total(a.drop_first(), b.drop_first());
    } else if a.len() > 0 && b.len() > 0 {
    }
}

pub proof fn lemma_text_lt_asymmetric(a: Seq<char>, b: Seq<char>)
    requires
        text_lt(a, b),
    ensures
        !text_lt(b, a),
{
    if text_lt(b, a) {
        lemma_text_lt_transitive(a, b, a);
        lemma_text_lt_irreflexive(a);
    }
}

/// Two arrangements of the same texts in increasing order are the same.
pub proof fn lemma_sorted_unique(r1: Seq<Seq<char>>, r2: Seq<Seq<char>>)
    requires
        r1.len() == r2.len(),
        strictly_sorted(r1),
        strictly_sorted(r2),
        forall|x: Seq<char>| r1.contains(x) <==> r2.contains(x),
    ensures
        r1 == r2,
    decreases r1.len(),
{
    if r1.len() > 0 {
        let a = r1[0];
        let b = r2[0];
        if a != b {
            assert(r1.contains(a));
            assert(r2.contains(a));
            let j = choose|j: int| 0 <= j < r2.len() && r2[j] == a;
            assert(r2.contains(b));
            assert(r1.contains(b));
            let i = choose|i: int| 0 <= i < r1.len() && r1[i] == b;
            assert(j > 0 && i > 0);
            assert(text_lt(r2[0], r2[j]));
            assert(text_lt(r1[0], r1[i]));
            lemma_text_lt_asymmetric(a, b);
        }
        let t1 = r1.drop_first();
        let t2 = r2.drop_first();
        assert forall|x: Seq<char>| t1.contains(x) <==> t2.contains(x) by {
            if t1.contains(x) {
                let i = choose|i: int| 0 <= i < t1.len() && t1[i] == x;
                assert(r1[i + 1] == x);
                assert(text_lt(r1[0], r1[i + 1]));
                lemma_text_lt_irreflexive(x);
                assert(r2.contains(x));
                let j = choose|j: int| 0 <= j < r2.len() && r2[j] == x;
                assert(j != 0);
                assert(t2[j - 1] == x);
            }
            if t2.contains(x) {
                let j = choose|j: int| 0 <= j < t2.len() && t2[j] == x;
                assert(r2[j + 1] == x);
                assert(text_lt(r2[0], r2[j + 1]));
                lemma_text_lt_irreflexive(x);
                assert(r1.contains(x));
                let i = choose|i: int| 0 <= i < r1.len() && r1[i] == x;
                assert(i != 0);
                assert(t1[i - 1] == x);
            }
        }
        assert forall|i: int, j: int| 0 <= i < j < t1.len() implies text_lt(#[trigger] t1[i], #[trigger] t1[j]) by {
            assert(t1[i] == r1[i + 1] && t1[j] == r1[j + 1]);
        }
        assert forall|i: int, j: int| 0 <= i < j < t2.len() implies text_lt(#[trigger] t2[i], #[trigger] t2[j]) by {
            assert(t2[i] == r2[i + 1] && t2[j] == r2[j + 1]);
        }
        lemma_sorted_unique(t1, t2);
        assert(r1 =~= seq![a] + t1);
        assert(r2 =~= seq![b] + t2);
    } else {
        assert(r1 =~= r2);
    }
}

/// The sorted arrangement, once one is known, is the one `sorted_texts` names.
pub proof fn lemma_sorted_texts(r: Seq<Seq<char>>, ks: Seq<Seq<char>>)
    requires
        sorted_texts_of(r, ks),
    ensures
        sorted_texts(ks) == r,
{
    let c = sorted_texts(ks);
    assert(sorted_texts_of(c, ks));
    lemma_sorted_unique(c, r);
}

/// Whether `a` comes before `b`.
pub fn text_less(a: &Vec<char>, b: &Vec<char>) -> (r: bool)
    ensures
        r == text_lt(a@, b@),
{
    let mut i: usize = 0;
    assert(a@.skip(0) =~= a@);
    assert(b@.skip(0) =~= b@);
    while i < a.len() && i < b.len() && a[i] == b[i]
        invariant
            i <= a@.len(),
            i <= b@.len(),
            text_lt(a@, b@) == text_lt(a@.skip(i as int), b@.skip(i as int)),
        decreases a@.len() - i,
    {
        assert(a@.skip(i as int).drop_first() =~= a@.skip(i + 1));
        assert(b@.skip(i as int).drop_first() =~= b@.skip(i + 1));
        i += 1;
    }
    let ghost sa = a@.skip(i as int);
    let ghost sb = b@.skip(i as int);
    if i >= a.len() {
        return i < b.len();
    }
    if i >= b.len() {
        return false;
    }
    assert(sa[0] == a@[i as int] && sb[0] == b@[i as int]);
    a[i] < b[i]
}

/// The views of a list of strings.
pub open spec fn texts(v: Seq<String>) -> Seq<Seq<char>> {
    v.map_values(|s: String| s@)
}

/// The strings of `ks` in increasing order.
pub fn sort_strings(ks: &Vec<String>) -> (r: Vec<String>)
    requires
        texts(ks@).no_duplicates(),
    ensures
        sorted_texts_of(texts(r@), texts(ks@)),
        texts(r@) == sorted_texts(texts(ks@)),
{
    let ghost all = texts(ks@);
    let mut r: Vec<String> = Vec::new();
    let mut rc: Vec<Vec<char>> = Vec::new();
    let mut k: usize = 0;
    while k < ks.len()
        invariant
            k <= ks@.len(),
            all == texts(ks@),
            all.no_duplicates(),
            r@.len() == k,
            rc@.len() == k,
            forall|i: int| 0 <= i < k ==> #[trigger] rc@[i]@ == r@[i]@,
            strictly_sorted(texts(r@)),
            forall|x: Seq<char>| texts(r@).contains(x) <==> all.take(k as int).contains(x),
        decreases ks@.len() - k,
    {
        let x = ks[k].clone();
        let xc = str_to_chars(x.as_str());
        let ghost xs = x@;
        assert(xs == all[k as int]);
        let mut p: usize = 0;
        while p < rc.len() && text_less(&rc[p], &xc)
            invariant
                p <= rc@.len(),
                rc@.len() == r@.len(),
                forall|i: int| 0 <= i < rc@.len() ==> #[trigger] rc@[i]@ == r@[i]@,
                xc@ == xs,
                forall|i: int| 0 <= i < p ==> text_lt(#[trigger] texts(r@)[i], xs),
            decreases rc@.len() - p,
        {
            assert(rc@[p as int]@ == texts(r@)[p as int]);
            p += 1;
        }
        let ghost before = texts(r@);
        proof {
            assert(!all.take(k as int).contains(xs)) by {
                if all.take(k as int).contains(xs) {
                    let j = choose|j: int| 0 <= j < k && all.take(k as int)[j] == xs;
                    assert(all[j] == all[k as int]);
                }
            }
            assert(!before.contains(xs));
            if p < before.len() {
                assert(rc@[p as int]@ == before[p as int]);
                assert(!text_lt(before[p as int], xs));
                assert(before[p as int] != xs) by {
                    assert(before.contains(before[p as int]));
                }
                lemma_text_lt_total(before[p as int], xs);
            }
        }
        r.insert(p, x);
        rc.insert(p, xc);
        proof {
            let after = texts(r@);
            assert(after =~= before.insert(p as int, xs));
            assert forall|i: int, j: int| 0 <= i < j < after.len() implies text_lt(#[trigger] after[i], #[trigger] after[j]) by {
                if j < p {
                    assert(after[i] == before[i] && after[j] == before[j]);
                } else if j == p {
                    assert(after[i] == before[i]);
                } else if i < p {
                    assert(after[i] == before[i] && after[j] == before[j - 1]);
                    if j - 1 > p {
                        assert(text_lt(before[p as int], before[j - 1]));
                        lemma_text_lt_transitive(xs, before[p as int], before[j - 1]);
                    }
                    lemma_text_lt_transitive(before[i], xs, before[j - 1]);
                } else if i == p {
                    assert(after[j] == before[j - 1]);
                    if j - 1 > p {
                        assert(text_lt(before[p as int], before[j - 1]));
                        lemma_text_lt_transitive(xs, before[p as int], before[j - 1]);
                    }
                } else {
                    assert(after[i] == before[i - 1] && after[j] == before[j - 1]);
                }
            }
            let nk = all.take(k + 1);
            assert(nk =~= all.take(k as int).push(xs));
            assert forall|y: Seq<char>| after.contains(y) implies nk.contains(y) by {
                let j = choose|j: int| 0 <= j < after.len() && after[j] == y;
                if j < p {
                    assert(before[j] == y);
                    assert(before.contains(y));
                    assert(all.take(k as int).contains(y));
                    let q = choose|q: int| 0 <= q < k && all.take(k as int)[q] == y;
                    assert(nk[q] == y);
                } else if j > p {
                    assert(before[j - 1] == y);
                    assert(before.contains(y));
                    assert(all.take(k as int).contains(y));
                    let q = choose|q: int| 0 <= q < k && all.take(k as int)[q] == y;
                    assert(nk[q] == y);
                } else {
                    assert(nk[k as int] == y);
                }
            }
            assert forall|y: Seq<char>| nk.contains(y) implies after.contains(y) by {
                let q = choose|q: int| 0 <= q < nk.len() && nk[q] == y;
                if q == k {
                    assert(after[p as int] == y);
                } else {
                    assert(all.take(k as int)[q] == y);
                    assert(all.take(k as int).contains(y));
                    assert(before.contains(y));
                    let j = choose|j: int| 0 <= j < before.len() && before[j] == y;
                    if j < p {
                        assert(after[j] == y);
                    } else {
                        assert(after[j + 1] == y);
                    }
                }
            }
            assert forall|i: int| 0 <= i < k + 1 implies #[trigger] rc@[i]@ == r@[i]@ by {
                if i < p {
                } else if i > p {
                }
            }
        }
        k += 1;
    }
    assert(all.take(k as int) =~= all);
    proof {
        lemma_sorted_texts(texts(r@), all);
    }
    r
}

} // verus!

use vstd::prelude::*;

use crate::text::{chars_to_string, decimal, push_u64};

verus! {

/// Decimal digits with a comma before every group of three, counted from the
/// right.
pub open spec fn group_digits(d: Seq<char>) -> Seq<char>
    decreases d.len(),
{
    if d.len() <= 3 {
        d
    } else {
        group_digits(d.take(d.len() - 3)) + seq![','] + d.skip(d.len() - 3)
    }
}

fn push_grouped(out: &mut Vec<char>, d: &Vec<char>, end: usize)
    requires
        end <= d@.len(),
    ensures
        final(out)@ == old(out)@ + group_digits(d@.take(end as int)),
    decreases end,
{
    if end <= 3 {
        let mut k: usize = 0;
        while k < end
            invariant
                k <= end <= d@.len(),
                out@ == old(out)@ + d@.take(k as int),
            decreases end - k,
        {
            out.push(d[k]);
            k += 1;
            assert(out@ =~= old(out)@ + d@.take(k as int));
        }
        assert(d@.take(end as int) =~= d@.take(end as int));
    } else {
        push_grouped(out, d, end - 3);
        out.push(',');
        let ghost mid = out@;
        let mut k: usize = end - 3;
        while k < end
            invariant
                3 < end,
                end - 3 <= k <= end <= d@.len(),
                out@ == mid + d@.subrange(end - 3, k as int),
            decreases end - k,
        {
            out.push(d[k]);
            k += 1;
            assert(out@ =~= mid + d@.subrange(end - 3, k as int));
        }
        let ghost t = d@.take(end as int);
        assert(t.take(t.len() - 3) =~= d@.take(end - 3));
        assert(t.skip(t.len() - 3) =~= d@.subrange(end - 3, end as int));
        assert(out@ =~= old(out)@ + group_digits(t));
    }
}

/// Format a count with a comma before every group of three digits.
pub fn format_number(n: u64) -> (s: String)
    ensures
        s@ == group_digits(decimal(n as nat)),
{
    let mut d: Vec<char> = Vec::new();
    push_u64(&mut d, n);
    assert(d@ =~= decimal(n as nat));
    let mut out: Vec<char> = Vec::new();
    push_grouped(&mut out, &d, d.len());
    assert(d@.take(d@.len() as int) =~= d@);
    assert(out@ =~= group_digits(decimal(n as nat)));
    chars_to_string(&out)
}

} // verus!

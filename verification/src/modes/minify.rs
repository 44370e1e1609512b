use vstd::prelude::*;

use super::ir::bf_filter;
use crate::text::{bf_char, chars_to_string, str_to_chars};

verus! {

/// Strip all non-command characters from a source, giving the smallest
/// equivalent program text.
pub fn minify_source(source: &str) -> (r: String)
    ensures
        r@ == bf_filter(source@),
{
    let src = str_to_chars(source);
    let mut out: Vec<char> = Vec::new();
    let mut i: usize = 0;
    while i < src.len()
        invariant
            src@ == source@,
            i <= src@.len(),
            out@ == bf_filter(src@.take(i as int)),
        decreases src@.len() - i,
    {
        assert(src@.take(i + 1).drop_last() =~= src@.take(i as int));
        if bf_char(src[i]) {
            out.push(src[i]);
        }
        i += 1;
    }
    assert(src@.take(src@.len() as int) =~= src@);
    chars_to_string(&out)
}

} // verus!

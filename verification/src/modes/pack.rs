use vstd::prelude::*;

use super::ir::{bf_filter, lemma_parse_moves, ops_text, optimize_spec, parse_source, Program};
use super::minify::minify_source;
use crate::error::OgreError;

verus! {

/// What packing an expanded program gives: its command characters alone, or,
/// when `optimize` is set, the text of its optimized instructions.
pub open spec fn packed(expanded: Seq<char>, optimize: bool) -> Result<Seq<char>, OgreError> {
    if optimize {
        match parse_source(expanded) {
            Ok(p) => Ok(ops_text(optimize_spec(p))),
            Err(e) => Err(e),
        }
    } else {
        Ok(bf_filter(expanded))
    }
}

/// Pack an expanded program into plain brainfuck.
pub fn pack_expanded(expanded: &str, optimize: bool) -> (r: Result<String, OgreError>)
    requires
        expanded@.len() <= isize::MAX,
    ensures
        match r {
            Ok(s) => packed(expanded@, optimize) == Ok::<Seq<char>, OgreError>(s@),
            Err(e) => packed(expanded@, optimize) == Err::<Seq<char>, OgreError>(e),
        },
{
    if optimize {
        let mut program = Program::from_source(expanded)?;
        proof {
            lemma_parse_moves(expanded@);
        }
        program.optimize();
        Ok(program.to_bf_string())
    } else {
        Ok(minify_source(expanded))
    }
}

} // verus!

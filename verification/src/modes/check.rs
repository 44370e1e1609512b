use vstd::prelude::*;

use super::ir::{parse_source, Program};
use crate::error::{error_message, OgreError};
use crate::text::{chars_to_string, push_str};

verus! {

/// The outcome of checking a program.
pub struct CheckResult {
    pub brackets_ok: bool,
    pub preprocess_ok: bool,
    pub errors: Vec<String>,
}

/// The messages of a check result.
pub open spec fn error_texts(r: CheckResult) -> Seq<Seq<char>> {
    r.errors@.map_values(|e: String| e@)
}

fn prefixed_error(prefix: &str, e: &OgreError) -> (s: String)
    ensures
        s@ == prefix@ + error_message(*e),
{
    let mut v: Vec<char> = Vec::new();
    push_str(&mut v, prefix);
    let m = e.message();
    push_str(&mut v, m.as_str());
    chars_to_string(&v)
}

/// Check that the brackets of a (preprocessed) source match.
pub fn check_source(source: &str) -> (r: CheckResult)
    ensures
        r.preprocess_ok,
        match parse_source(source@) {
            Ok(_) => r.brackets_ok && error_texts(r) == Seq::<Seq<char>>::empty(),
            Err(e) => !r.brackets_ok && error_texts(r) == seq!["brackets: "@ + error_message(e)],
        },
{
    let mut result = CheckResult { brackets_ok: true, preprocess_ok: true, errors: Vec::new() };
    match Program::from_source(source) {
        Ok(_) => {
            assert(error_texts(result) =~= Seq::<Seq<char>>::empty());
        },
        Err(e) => {
            result.brackets_ok = false;
            let m = prefixed_error("brackets: ", &e);
            result.errors.push(m);
            assert(error_texts(result) =~= seq!["brackets: "@ + error_message(e)]);
        },
    }
    result
}

/// Check the outcome of preprocessing a file: a preprocessing error is
/// reported as such; otherwise the expanded text is checked.
pub fn check_preprocessed(expanded: Result<String, OgreError>) -> (r: CheckResult)
    ensures
        match expanded {
            Err(e) => r.brackets_ok && !r.preprocess_ok && error_texts(r) == seq!["preprocess: "@ + error_message(e)],
            Ok(s) => r.preprocess_ok && match parse_source(s@) {
                Ok(_) => r.brackets_ok && error_texts(r) == Seq::<Seq<char>>::empty(),
                Err(e) => !r.brackets_ok && error_texts(r) == seq!["brackets: "@ + error_message(e)],
            },
        },
{
    match expanded {
        Err(e) => {
            let m = prefixed_error("preprocess: ", &e);
            let mut errors: Vec<String> = Vec::new();
            errors.push(m);
            let r = CheckResult { brackets_ok: true, preprocess_ok: false, errors };
            assert(error_texts(r) =~= seq!["preprocess: "@ + error_message(e)]);
            r
        },
        Ok(s) => check_source(s.as_str()),
    }
}

} // verus!

use colored::Colorize;
use vstd::prelude::*;

verus! {

/// The escape sequence that selects the colour with the given code.
pub open spec fn color_start(code: Seq<char>) -> Seq<char> {
    seq!['\x1b', '['] + code + seq!['m']
}

/// The escape sequence that resets colours.
pub open spec fn color_reset() -> Seq<char> {
    seq!['\x1b', '[', '0', 'm']
}

/// Whether `s` holds no escape character.
pub open spec fn no_escape(s: Seq<char>) -> bool {
    forall|i: int| 0 <= i < s.len() ==> s[i] != '\x1b'
}

/// Whether `r` is `s` as `colored` shows it in the colour with the given code:
/// `s` itself when colouring is off, or else the text between the escape
/// sequence that selects the colour and the one that resets it, where the text
/// is `s` when `s` holds no escape character.
pub open spec fn painted(s: Seq<char>, code: Seq<char>, r: Seq<char>) -> bool {
    ||| r == s
    ||| exists|m: Seq<char>| #[trigger] (color_start(code) + m) + color_reset() == r && (no_escape(s) ==> m == s)
}

/// `colored`'s `Colorize::green` on `s`, shown with `to_string`. Claimed: the
/// text is `s`, bare when colouring is off (which depends on the environment
/// and the terminal), else wrapped in the escape sequences for green (code 32).
#[verifier::external_body]
pub(crate) fn paint_green(s: &str) -> (r: String)
    ensures
        painted(s@, "32"@, r@),
{
    s.green().to_string()
}

/// `colored`'s `Colorize::yellow` on `s`, shown with `to_string`; as for
/// green, with code 33.
#[verifier::external_body]
pub(crate) fn paint_yellow(s: &str) -> (r: String)
    ensures
        painted(s@, "33"@, r@),
{
    s.yellow().to_string()
}

/// `colored`'s `Colorize::red` on `s`, shown with `to_string`; as for green,
/// with code 31.
#[verifier::external_body]
pub(crate) fn paint_red(s: &str) -> (r: String)
    ensures
        painted(s@, "31"@, r@),
{
    s.red().to_string()
}

/// `colored`'s `Colorize::cyan` on `s`, shown with `to_string`; as for green,
/// with code 36.
#[verifier::external_body]
pub(crate) fn paint_cyan(s: &str) -> (r: String)
    ensures
        painted(s@, "36"@, r@),
{
    s.cyan().to_string()
}

} // verus!

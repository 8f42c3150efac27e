use colored::Colorize;
use vstd::prelude::*;

verus! {

/// `s` between the terminal escape that selects graphic rendition `code` and
/// the one that resets it.
pub open spec fn styled(code: Seq<char>, s: Seq<char>) -> Seq<char> {
    seq!['\u{1b}', '['] + code + seq!['m'] + s + seq!['\u{1b}', '[', '0', 'm']
}

/// Relies on `colored::Colorize::bold` and `ColoredString`'s `Display`: the
/// text itself where colored decides not to color (from the environment and
/// the terminal), else the text between `ESC[1m` and `ESC[0m` (a text holding
/// no escape character is left as it is inside).
#[verifier::external_body]
pub(crate) fn bold(s: &String) -> (r: String)
    ensures
        !s@.contains('\u{1b}') ==> (r@ == s@ || r@ == styled(seq!['1'], s@)),
{
    s.as_str().bold().to_string()
}

/// Relies on `colored::Colorize::green` and `ColoredString`'s `Display`: the
/// text itself where colored decides not to color, else the text between
/// `ESC[32m` and `ESC[0m`.
#[verifier::external_body]
pub(crate) fn green(s: &String) -> (r: String)
    ensures
        !s@.contains('\u{1b}') ==> (r@ == s@ || r@ == styled(seq!['3', '2'], s@)),
{
    s.as_str().green().to_string()
}

/// Relies on `atty::is(Stream::Stdout)`: whether standard output is a
/// terminal, which nothing here can know in advance.
#[verifier::external_body]
pub(crate) fn stdout_is_terminal() -> (r: bool) {
    atty::is(atty::Stream::Stdout)
}

} // verus!

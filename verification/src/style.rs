//! Colours and weights of text on a terminal.

use vstd::prelude::*;

verus! {

/// A text in a colour of which the code is given. After it the usual colour is back.
pub open spec fn coloured(code: Seq<char>, text: Seq<char>) -> Seq<char> {
    "\u{1b}["@ + code + "m"@ + text + "\u{1b}[39m"@
}

/// A text in cyan.
pub open spec fn in_cyan(text: Seq<char>) -> Seq<char> {
    coloured("36"@, text)
}

/// A text in yellow.
pub open spec fn in_yellow(text: Seq<char>) -> Seq<char> {
    coloured("33"@, text)
}

/// A text in bright black.
pub open spec fn in_bright_black(text: Seq<char>) -> Seq<char> {
    coloured("90"@, text)
}

/// A text in red.
pub open spec fn in_red(text: Seq<char>) -> Seq<char> {
    coloured("31"@, text)
}

/// A text in green.
pub open spec fn in_green(text: Seq<char>) -> Seq<char> {
    coloured("32"@, text)
}

/// A text in magenta.
pub open spec fn in_magenta(text: Seq<char>) -> Seq<char> {
    coloured("35"@, text)
}

/// A text in blue.
pub open spec fn in_blue(text: Seq<char>) -> Seq<char> {
    coloured("34"@, text)
}

/// A text in bold. After it all that was set is back to what is usual.
pub open spec fn in_bold(text: Seq<char>) -> Seq<char> {
    "\u{1b}[1m"@ + text + "\u{1b}[0m"@
}

/// `owo_colors::OwoColorize::cyan`: writes the code of the colour before the text, and
/// after it the code of the usual colour.
#[verifier::external_body]
pub(crate) fn cyan(text: &str) -> (styled: String)
    ensures
        styled@ == in_cyan(text@),
{
    owo_colors::OwoColorize::cyan(&text).to_string()
}

/// `owo_colors::OwoColorize::yellow`: writes the code of the colour before the text, and
/// after it the code of the usual colour.
#[verifier::external_body]
pub(crate) fn yellow(text: &str) -> (styled: String)
    ensures
        styled@ == in_yellow(text@),
{
    owo_colors::OwoColorize::yellow(&text).to_string()
}

/// `owo_colors::OwoColorize::bright_black`: writes the code of the colour before the text, and
/// after it the code of the usual colour.
#[verifier::external_body]
pub(crate) fn bright_black(text: &str) -> (styled: String)
    ensures
        styled@ == in_bright_black(text@),
{
    owo_colors::OwoColorize::bright_black(&text).to_string()
}

/// `owo_colors::OwoColorize::red`: writes the code of the colour before the text, and
/// after it the code of the usual colour.
#[verifier::external_body]
pub(crate) fn red(text: &str) -> (styled: String)
    ensures
        styled@ == in_red(text@),
{
    owo_colors::OwoColorize::red(&text).to_string()
}

/// `owo_colors::OwoColorize::green`: writes the code of the colour before the text, and
/// after it the code of the usual colour.
#[verifier::external_body]
pub(crate) fn green(text: &str) -> (styled: String)
    ensures
        styled@ == in_green(text@),
{
    owo_colors::OwoColorize::green(&text).to_string()
}

/// `owo_colors::OwoColorize::magenta`: writes the code of the colour before the text, and
/// after it the code of the usual colour.
#[verifier::external_body]
pub(crate) fn magenta(text: &str) -> (styled: String)
    ensures
        styled@ == in_magenta(text@),
{
    owo_colors::OwoColorize::magenta(&text).to_string()
}

/// `owo_colors::OwoColorize::blue`: writes the code of the colour before the text, and
/// after it the code of the usual colour.
#[verifier::external_body]
pub(crate) fn blue(text: &str) -> (styled: String)
    ensures
        styled@ == in_blue(text@),
{
    owo_colors::OwoColorize::blue(&text).to_string()
}

/// `owo_colors::OwoColorize::bold`: writes the code of bold text before the text, and
/// after it the code that ends all that was set.
#[verifier::external_body]
pub(crate) fn bold(text: &str) -> (styled: String)
    ensures
        styled@ == in_bold(text@),
{
    owo_colors::OwoColorize::bold(&text).to_string()
}

} // verus!

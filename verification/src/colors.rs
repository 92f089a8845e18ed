//! ANSI terminal styling of text through `owo_colors`, as the command
//! manager prints it.

use vstd::prelude::*;
use owo_colors::OwoColorize;
use crate::text::decimal;

verus! {

/// The escape character that starts every ANSI sequence.
pub open spec fn esc() -> char {
    '\u{1b}'
}

/// `text` in bright cyan: the foreground code 96, then the text, then the
/// code 39 that restores the default foreground.
pub open spec fn bright_cyan_text(text: Seq<char>) -> Seq<char> {
    seq![esc(), '[', '9', '6', 'm'] + text + seq![esc(), '[', '3', '9', 'm']
}

/// `text` in bold: the code 1, then the text, then the reset code 0.
pub open spec fn bold_text(text: Seq<char>) -> Seq<char> {
    seq![esc(), '[', '1', 'm'] + text + seq![esc(), '[', '0', 'm']
}

/// `text` in the 24-bit foreground colour `(r, g, b)`, then the code 39.
pub open spec fn truecolor_text(text: Seq<char>, r: u8, g: u8, b: u8) -> Seq<char> {
    seq![esc(), '[', '3', '8', ';', '2', ';'] + decimal(r as nat) + seq![';'] + decimal(g as nat) + seq![';']
        + decimal(b as nat) + seq!['m'] + text + seq![esc(), '[', '3', '9', 'm']
}

/// `OwoColorize::bright_cyan`, displayed: `text` between the escape
/// sequences `ESC[96m` and `ESC[39m`.
#[verifier::external_body]
pub(crate) fn bright_cyan(text: &str) -> (r: String)
    ensures
        r@ == bright_cyan_text(text@),
{
    format!("{}", text.bright_cyan())
}

/// `OwoColorize::bold`, displayed: `text` between the escape sequences
/// `ESC[1m` and `ESC[0m`.
#[verifier::external_body]
pub(crate) fn bold(text: &str) -> (r: String)
    ensures
        r@ == bold_text(text@),
{
    format!("{}", text.bold())
}

/// `OwoColorize::truecolor`, displayed: `text` between `ESC[38;2;{r};{g};{b}m`
/// and `ESC[39m`, with the components in decimal.
#[verifier::external_body]
pub(crate) fn truecolor(text: &str, r: u8, g: u8, b: u8) -> (out: String)
    ensures
        out@ == truecolor_text(text@, r, g, b),
{
    format!("{}", text.truecolor(r, g, b))
}

} // verus!

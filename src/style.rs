//! Terminal colouring through owo-colors. Each wrapper states the exact escape
//! sequences that the crate writes around the text.

use owo_colors::OwoColorize;
use vstd::prelude::*;

verus! {

/// Text drawn with the foreground colour whose SGR parameters are `code`;
/// owo-colors restores the default foreground (`39`) after it.
pub open spec fn fg(code: Seq<char>, s: Seq<char>) -> Seq<char> {
    "\x1b["@ + code + "m"@ + s + "\x1b[39m"@
}

/// Bold text; owo-colors resets all attributes (`0`) after it.
pub open spec fn bold(s: Seq<char>) -> Seq<char> {
    "\x1b[1m"@ + s + "\x1b[0m"@
}

/// Relies on owo-colors `white` (SGR 37) and `bold`.
#[verifier::external_body]
pub(crate) fn white_bold(s: &str) -> (r: String)
    ensures
        r@ == bold(fg("37"@, s@)),
{
    s.white().bold().to_string()
}

/// Relies on owo-colors `green` (SGR 32) and `bold`.
#[verifier::external_body]
pub(crate) fn green_bold(s: &str) -> (r: String)
    ensures
        r@ == bold(fg("32"@, s@)),
{
    s.green().bold().to_string()
}

/// Relies on owo-colors `yellow` (SGR 33) and `bold`.
#[verifier::external_body]
pub(crate) fn yellow_bold(s: &str) -> (r: String)
    ensures
        r@ == bold(fg("33"@, s@)),
{
    s.yellow().bold().to_string()
}

/// Relies on owo-colors `magenta` (SGR 35) and `bold`.
#[verifier::external_body]
pub(crate) fn magenta_bold(s: &str) -> (r: String)
    ensures
        r@ == bold(fg("35"@, s@)),
{
    s.magenta().bold().to_string()
}

/// Relies on owo-colors `blue` (SGR 34) and `bold`.
#[verifier::external_body]
pub(crate) fn blue_bold(s: &str) -> (r: String)
    ensures
        r@ == bold(fg("34"@, s@)),
{
    s.blue().bold().to_string()
}

/// Relies on owo-colors `red` (SGR 31) and `bold`.
#[verifier::external_body]
pub(crate) fn red_bold(s: &str) -> (r: String)
    ensures
        r@ == bold(fg("31"@, s@)),
{
    s.red().bold().to_string()
}

/// Relies on owo-colors `fg_rgb::<201, 201, 201>` (SGR 38;2;201;201;201), not bold.
#[verifier::external_body]
pub(crate) fn light_grey(s: &str) -> (r: String)
    ensures
        r@ == fg("38;2;201;201;201"@, s@),
{
    s.fg_rgb::<201, 201, 201>().to_string()
}

/// Relies on owo-colors `bright_yellow` (SGR 93) and `bold`.
#[verifier::external_body]
pub(crate) fn bright_yellow_bold(s: &str) -> (r: String)
    ensures
        r@ == bold(fg("93"@, s@)),
{
    s.bright_yellow().bold().to_string()
}

/// Relies on owo-colors `bright_green` (SGR 92) and `bold`.
#[verifier::external_body]
pub(crate) fn bright_green_bold(s: &str) -> (r: String)
    ensures
        r@ == bold(fg("92"@, s@)),
{
    s.bright_green().bold().to_string()
}

/// Relies on owo-colors `bright_red` (SGR 91) and `bold`.
#[verifier::external_body]
pub(crate) fn bright_red_bold(s: &str) -> (r: String)
    ensures
        r@ == bold(fg("91"@, s@)),
{
    s.bright_red().bold().to_string()
}

} // verus!

use vstd::prelude::*;
use crate::text::decimal;

verus! {

/// The escape sequence that sets the foreground to one of the 256 colours.
pub open spec fn fg_code(value: u8) -> Seq<char> {
    "\x1b[38;5;"@ + decimal(value as nat) + "m"@
}

/// The escape sequence that sets the foreground back to the default.
pub open spec fn fg_reset_code() -> Seq<char> {
    "\x1b[39m"@
}

/// The escape sequence that moves the cursor to the first column of the
/// first row.
pub open spec fn cursor_home_code() -> Seq<char> {
    "\x1b[1;1H"@
}

/// The escape sequence that clears the whole screen.
pub open spec fn clear_all_code() -> Seq<char> {
    "\x1b[2J"@
}

/// `termion::color::AnsiValue::fg_string` writes the foreground sequence of
/// a colour: the introducer, `38;5;`, the colour's number in decimal, `m`.
#[verifier::external_body]
pub(crate) fn ansi_fg(value: u8) -> (code: String)
    ensures
        code@ == fg_code(value),
{
    termion::color::AnsiValue(value).fg_string()
}

/// `termion::color::Reset::fg_str` is the sequence with `39m`.
#[verifier::external_body]
pub(crate) fn fg_reset() -> (code: &'static str)
    ensures
        code@ == fg_reset_code(),
{
    termion::color::Reset.fg_str()
}

/// `termion::cursor::Goto` turned into a string is the sequence with the
/// row, `;`, the column and `H`; its default is row 1, column 1.
#[verifier::external_body]
pub(crate) fn cursor_home() -> (code: String)
    ensures
        code@ == cursor_home_code(),
{
    String::from(termion::cursor::Goto::default())
}

/// `termion::clear::All` as a string is the sequence with `2J`.
#[verifier::external_body]
pub(crate) fn clear_all() -> (code: &'static str)
    ensures
        code@ == clear_all_code(),
{
    AsRef::<str>::as_ref(&termion::clear::All)
}

} // verus!

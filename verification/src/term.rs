//! Trusted wrappers around crossterm's ANSI command serialization. Each one
//! writes a single command's escape sequence into a string and hands it back
//! as characters; the sequences are stated exactly, as crossterm's
//! `Command::write_ansi` implementations produce them.

use vstd::prelude::*;
use crate::text::dec_chars;

verus! {

/// The escape sequence that clears from the cursor to the end of the line.
pub open spec fn clear_line_seq() -> Seq<char> {
    seq!['\u{1b}', '[', 'K']
}

/// The escape sequence that hides the terminal cursor.
pub open spec fn hide_cursor_seq() -> Seq<char> {
    seq!['\u{1b}', '[', '?', '2', '5', 'l']
}

/// The escape sequence that shows the terminal cursor.
pub open spec fn show_cursor_seq() -> Seq<char> {
    seq!['\u{1b}', '[', '?', '2', '5', 'h']
}

/// The escape sequence that moves the cursor to column `x`, row `y`
/// (both zero-based; the wire format is one-based `row;column`).
pub open spec fn move_to_seq(x: int, y: int) -> Seq<char> {
    seq!['\u{1b}', '['] + dec_chars((y + 1) as nat) + seq![';']
        + dec_chars((x + 1) as nat) + seq!['H']
}

/// The escape sequence that switches on reverse video.
pub open spec fn reverse_video_seq() -> Seq<char> {
    seq!['\u{1b}', '[', '7', 'm']
}

/// The escape sequence that resets all display attributes.
pub open spec fn reset_attr_seq() -> Seq<char> {
    seq!['\u{1b}', '[', '0', 'm']
}

/// Relies on crossterm's `terminal::Clear(ClearType::UntilNewLine)`, whose
/// `write_ansi` emits exactly CSI `K`.
#[verifier::external_body]
pub fn term_clear_line() -> (r: Vec<char>)
    ensures
        r@ == clear_line_seq(),
{
    let mut s = String::new();
    let _ = crossterm::Command::write_ansi(
        &crossterm::terminal::Clear(crossterm::terminal::ClearType::UntilNewLine),
        &mut s,
    );
    s.chars().collect()
}

/// Relies on crossterm's `cursor::Hide`, whose `write_ansi` emits exactly
/// CSI `?25l`.
#[verifier::external_body]
pub fn term_hide_cursor() -> (r: Vec<char>)
    ensures
        r@ == hide_cursor_seq(),
{
    let mut s = String::new();
    let _ = crossterm::Command::write_ansi(&crossterm::cursor::Hide, &mut s);
    s.chars().collect()
}

/// Relies on crossterm's `cursor::Show`, whose `write_ansi` emits exactly
/// CSI `?25h`.
#[verifier::external_body]
pub fn term_show_cursor() -> (r: Vec<char>)
    ensures
        r@ == show_cursor_seq(),
{
    let mut s = String::new();
    let _ = crossterm::Command::write_ansi(&crossterm::cursor::Show, &mut s);
    s.chars().collect()
}

/// Relies on crossterm's `cursor::MoveTo(x, y)`, whose `write_ansi` emits
/// exactly CSI `{y+1};{x+1}H` with the numbers in decimal.
#[verifier::external_body]
pub fn term_move_to(x: u16, y: u16) -> (r: Vec<char>)
    requires
        x < u16::MAX,
        y < u16::MAX,
    ensures
        r@ == move_to_seq(x as int, y as int),
{
    let mut s = String::new();
    let _ = crossterm::Command::write_ansi(&crossterm::cursor::MoveTo(x, y), &mut s);
    s.chars().collect()
}

/// Relies on crossterm's `style::SetAttribute(Attribute::Reverse)`, whose
/// `write_ansi` emits exactly CSI `7m` (the SGR reverse-video code).
#[verifier::external_body]
pub fn term_reverse_video() -> (r: Vec<char>)
    ensures
        r@ == reverse_video_seq(),
{
    let mut s = String::new();
    let _ = crossterm::Command::write_ansi(
        &crossterm::style::SetAttribute(crossterm::style::Attribute::Reverse),
        &mut s,
    );
    s.chars().collect()
}

/// Relies on crossterm's `style::SetAttribute(Attribute::Reset)`, whose
/// `write_ansi` emits exactly CSI `0m` (the SGR reset code).
#[verifier::external_body]
pub fn term_reset_attr() -> (r: Vec<char>)
    ensures
        r@ == reset_attr_seq(),
{
    let mut s = String::new();
    let _ = crossterm::Command::write_ansi(
        &crossterm::style::SetAttribute(crossterm::style::Attribute::Reset),
        &mut s,
    );
    s.chars().collect()
}

} // verus!

//! Foreground-color markers for rendering, produced by the `termion` crate.
//!
//! A rendered line interleaves plain text with ANSI foreground markers. The
//! marker text is specified exactly: `fg_rgb_chars` spells out the escape
//! sequence a truecolor foreground request produces, digit for digit.

use vstd::prelude::*;
use crate::highlighting::Type;

verus! {

/// The decimal digit `d` as a character; `d` must be below ten.
pub open spec fn digit_char(d: int) -> char {
    if d == 0 {
        '0'
    } else if d == 1 {
        '1'
    } else if d == 2 {
        '2'
    } else if d == 3 {
        '3'
    } else if d == 4 {
        '4'
    } else if d == 5 {
        '5'
    } else if d == 6 {
        '6'
    } else if d == 7 {
        '7'
    } else if d == 8 {
        '8'
    } else {
        '9'
    }
}

/// The decimal representation of `n`, most significant digit first, with no
/// leading zeros (a lone `'0'` for zero).
pub open spec fn dec_chars(n: nat) -> Seq<char>
    decreases n,
{
    if n < 10 {
        seq![digit_char(n as int)]
    } else {
        dec_chars(n / 10).push(digit_char((n % 10) as int))
    }
}

/// The ANSI escape sequence that sets the foreground to the truecolor
/// `(r, g, b)`: `ESC [ 38 ; 2 ; r ; g ; b m` with decimal components.
pub open spec fn fg_rgb_chars(r: u8, g: u8, b: u8) -> Seq<char> {
    seq!['\u{1b}', '[', '3', '8', ';', '2', ';'] + dec_chars(r as nat) + seq![';'] + dec_chars(
        g as nat,
    ) + seq![';'] + dec_chars(b as nat) + seq!['m']
}

/// The ANSI escape sequence that resets the foreground: `ESC [ 39 m`.
pub open spec fn fg_reset_chars() -> Seq<char> {
    seq!['\u{1b}', '[', '3', '9', 'm']
}

/// Relies on `termion::color::Rgb::fg_string`: it concatenates `"\x1B[38;2;"`,
/// the three components in decimal (rendered by `numtoa`, no leading zeros),
/// separated by `';'`, and a final `'m'`.
#[verifier::external_body]
fn fg_rgb_marker(r: u8, g: u8, b: u8) -> (s: String)
    ensures
        s@ == fg_rgb_chars(r, g, b),
{
    termion::color::Rgb(r, g, b).fg_string()
}

/// Relies on `termion::color::Reset::fg_str`: it returns the constant
/// `"\x1B[39m"`.
#[verifier::external_body]
fn fg_reset_marker() -> (s: String)
    ensures
        s@ == fg_reset_chars(),
{
    String::from(termion::color::Reset.fg_str())
}

/// The foreground color a highlight class renders with: a soft red for
/// numbers, white for plain text.
pub open spec fn marker_chars(t: Type) -> Seq<char> {
    match t {
        Type::Number => fg_rgb_chars(220, 163, 163),
        Type::Plain => fg_rgb_chars(255, 255, 255),
    }
}

/// The marker that sets the foreground for class `t`.
pub fn class_marker(t: Type) -> (s: String)
    ensures
        s@ == marker_chars(t),
{
    match t {
        Type::Number => fg_rgb_marker(220, 163, 163),
        Type::Plain => fg_rgb_marker(255, 255, 255),
    }
}

/// The marker that resets the foreground after a styled cluster.
pub fn reset_marker() -> (s: String)
    ensures
        s@ == fg_reset_chars(),
{
    fg_reset_marker()
}

} // verus!

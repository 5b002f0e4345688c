//! Source positions and the character classes that the scanner dispatches on.

use vstd::prelude::*;

verus! {

/// Position used by tokens: both fields are 1-based.
#[derive(Clone, Copy, Debug, PartialEq, Eq, Structural)]
pub struct Position {
    pub col: usize,
    pub line: usize,
}

/// `a` comes no later than `b` in reading order.
pub open spec fn pos_le(a: Position, b: Position) -> bool {
    a.line < b.line || (a.line == b.line && a.col <= b.col)
}

/// An ASCII letter or `_`.
pub open spec fn alphabetical(ch: char) -> bool {
    ('a' <= ch && ch <= 'z') || ('A' <= ch && ch <= 'Z') || ch == '_'
}

/// An ASCII decimal digit.
pub open spec fn digit(ch: char) -> bool {
    '0' <= ch && ch <= '9'
}

/// A digit or `.`.
pub open spec fn numeric(ch: char) -> bool {
    digit(ch) || ch == '.'
}

/// A letter, a digit or `_`.
pub open spec fn alphanumeric(ch: char) -> bool {
    alphabetical(ch) || digit(ch)
}

/// Returns true if char is an alphabetical char or '_'
pub fn is_alphabetical(ch: char) -> (r: bool)
    ensures
        r == alphabetical(ch),
{
    match ch {
        'a'..='z' | 'A'..='Z' | '_' => true,
        _ => false,
    }
}

/// Returns true if char is a decimal digit
pub fn is_integer(ch: char) -> (r: bool)
    ensures
        r == digit(ch),
{
    match ch {
        '0'..='9' => true,
        _ => false,
    }
}

/// Returns true if char is a digit or '.'
pub fn is_numeric(ch: char) -> (r: bool)
    ensures
        r == numeric(ch),
{
    is_integer(ch) || ch == '.'
}

/// Returns true if char is a digit, a letter or '_'
pub fn is_alphanumeric(ch: char) -> (r: bool)
    ensures
        r == alphanumeric(ch),
{
    is_alphabetical(ch) || is_integer(ch)
}

} // verus!

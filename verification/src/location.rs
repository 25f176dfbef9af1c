//! Source locations within a filter expression.

use vstd::prelude::*;

use crate::unicode::{append_chars, chars_of, string_from_chars};

verus! {

/// A position within the filter expression: a 1-based line number and the
/// column at which a token starts on that line, counted in bytes from 1.
#[derive(Debug, Clone, Copy, PartialEq, Eq, Structural)]
pub struct Loc {
    /// The 1-based line number.
    pub line: usize,
    /// The 1-based column (in bytes) within the line.
    pub column: usize,
}

/// The decimal digit for `d` (which is below ten).
pub open spec fn digit_char(d: nat) -> char {
    if d == 0 {
        '0'
    } else if d == 1 {
        '1'
    } else if d == 2 {
        '2'
    } else if d == 3 {
        '3'
    } else if d == 4 {
        '4'
    } else if d == 5 {
        '5'
    } else if d == 6 {
        '6'
    } else if d == 7 {
        '7'
    } else if d == 8 {
        '8'
    } else {
        '9'
    }
}

/// The decimal digits of `n`, without leading zeros.
pub open spec fn decimal(n: nat) -> Seq<char>
    decreases n,
{
    if n < 10 {
        seq![digit_char(n)]
    } else {
        decimal(n / 10).push(digit_char(n % 10))
    }
}

/// How a location reads in messages: `line L, column C`.
pub open spec fn loc_text(l: Loc) -> Seq<char> {
    "line "@ + decimal(l.line as nat) + ", column "@ + decimal(l.column as nat)
}

/// The decimal digit for `d`.
fn digit(d: usize) -> (c: char)
    requires
        d < 10,
    ensures
        c == digit_char(d as nat),
{
    if d == 0 {
        '0'
    } else if d == 1 {
        '1'
    } else if d == 2 {
        '2'
    } else if d == 3 {
        '3'
    } else if d == 4 {
        '4'
    } else if d == 5 {
        '5'
    } else if d == 6 {
        '6'
    } else if d == 7 {
        '7'
    } else if d == 8 {
        '8'
    } else {
        '9'
    }
}

/// The decimal digits of `n`.
pub(crate) fn decimal_chars(n: usize) -> (r: Vec<char>)
    ensures
        r@ == decimal(n as nat),
    decreases n,
{
    if n < 10 {
        let mut r: Vec<char> = Vec::new();
        r.push(digit(n));
        proof {
            assert(r@ =~= seq![digit_char(n as nat)]);
        }
        r
    } else {
        let mut r = decimal_chars(n / 10);
        r.push(digit(n % 10));
        r
    }
}

impl Loc {
    /// Creates a location from a line and a column.
    pub fn new(line: usize, column: usize) -> (l: Self)
        ensures
            l.line == line,
            l.column == column,
    {
        Loc { line, column }
    }

    /// The location as it reads in messages (see [`loc_text`]).
    pub fn display_text(&self) -> (r: String)
        ensures
            r@ == loc_text(*self),
    {
        let mut out = chars_of("line ");
        append_chars(&mut out, &decimal_chars(self.line));
        append_chars(&mut out, &chars_of(", column "));
        append_chars(&mut out, &decimal_chars(self.column));
        string_from_chars(&out)
    }
}

} // verus!

//! The errors of range-expression parsing.

use vstd::prelude::*;

use crate::error::ParseRangeError;

verus! {

/// Why an integer could not be read from a piece of text, after the
/// fashion of the standard library's integer parsing.
#[derive(Debug, Clone, Copy, PartialEq, Eq, Structural)]
pub enum IntErrorKind {
    /// The text is empty.
    Empty,
    /// The text holds a character that is no digit of the value.
    InvalidDigit,
    /// The value is greater than the largest representable index.
    PosOverflow,
    /// The value is smaller than the smallest representable index.
    NegOverflow,
}

/// Why a range expression was rejected.
#[derive(Debug)]
pub enum ParseError {
    /// A bound of the expression is no readable integer.
    ParseIntError(IntErrorKind),
    /// The expression's separator is none of the known range forms.
    ParseRangeError(ParseRangeError),
}

} // verus!

//! The failures that parsing and division report.

use vstd::prelude::*;

verus! {

/// Why a text was not accepted as a 256-bit hexadecimal number.
#[derive(Clone, Copy, Debug, PartialEq, Eq, Structural)]
pub enum ParseError {
    /// Without an optional leading `0x`, the text is not exactly 64 bytes long.
    InvalidLength,
    /// The text has the right length and holds something that is no
    /// hexadecimal digit.
    InvalidHexDigit,
}

/// Why an arithmetic operation gave no value.
#[derive(Clone, Copy, Debug, PartialEq, Eq, Structural)]
pub enum ArithmeticError {
    /// The divisor of a division or of a remainder was zero.
    DivisionByZero,
}

} // verus!

//! The ASCII codes that the two file formats are made of.

use vstd::prelude::*;

verus! {

/// Horizontal tab, the first of the control codes that count as white space.
pub const TAB: u8 = 9;

/// Line feed, which ends every line.
pub const NEWLINE: u8 = 10;

/// Carriage return, the last of the control codes that count as white space.
pub const CARRIAGE_RETURN: u8 = 13;

/// The space character.
pub const SPACE: u8 = 32;

/// The plus sign.
pub const PLUS: u8 = 43;

/// The minus sign.
pub const MINUS: u8 = 45;

/// The digit `0`.
pub const ZERO: u8 = 48;

/// The digit `9`.
pub const NINE: u8 = 57;

/// The capital letter `A`.
pub const UPPER_A: u8 = 65;

/// The capital letter `N`.
pub const UPPER_N: u8 = 78;

/// The capital letter `S`.
pub const UPPER_S: u8 = 83;

/// The capital letter `T`.
pub const UPPER_T: u8 = 84;

/// The capital letter `U`.
pub const UPPER_U: u8 = 85;

/// The small letter `c`.
pub const LOWER_C: u8 = 99;

/// The small letter `f`.
pub const LOWER_F: u8 = 102;

/// The small letter `n`.
pub const LOWER_N: u8 = 110;

/// The small letter `p`.
pub const LOWER_P: u8 = 112;

/// Whether `b` is one of the ASCII digits `0` to `9`.
pub open spec fn is_digit(b: u8) -> bool {
    ZERO <= b <= NINE
}

/// Whether `b` is ASCII white space: a space, or one of the control codes
/// from horizontal tab to carriage return (tab, line feed, vertical tab, form
/// feed, carriage return).
pub open spec fn is_space(b: u8) -> bool {
    b == SPACE || TAB <= b <= CARRIAGE_RETURN
}

/// Tests whether `b` is an ASCII digit.
pub fn byte_is_digit(b: u8) -> (digit: bool)
    ensures
        digit == is_digit(b),
{
    ZERO <= b && b <= NINE
}

/// Tests whether `b` is ASCII white space.
pub fn byte_is_space(b: u8) -> (space: bool)
    ensures
        space == is_space(b),
{
    b == SPACE || (TAB <= b && b <= CARRIAGE_RETURN)
}

} // verus!

//! Named ASCII byte values, so the scanner can speak of characters while
//! working over the byte-indexed source buffer.

use vstd::prelude::*;

verus! {

pub const HTAB: u8 = 9;

pub const NEWLINE: u8 = 10;

pub const CARRIAGE: u8 = 13;

pub const SPACE: u8 = 32;

pub const BANG: u8 = 33;

pub const QUOTE: u8 = 34;

pub const PERCENT: u8 = 37;

pub const AMP: u8 = 38;

pub const APOSTROPHE: u8 = 39;

pub const PAREN_OPEN: u8 = 40;

pub const PAREN_CLOSE: u8 = 41;

pub const STAR: u8 = 42;

pub const PLUS: u8 = 43;

pub const COMMA: u8 = 44;

pub const MINUS: u8 = 45;

pub const DOT: u8 = 46;

pub const SLASH: u8 = 47;

pub const DIGIT_0: u8 = 48;

pub const DIGIT_9: u8 = 57;

pub const SEMICOLON: u8 = 59;

pub const LESS: u8 = 60;

pub const EQUAL: u8 = 61;

pub const GREATER: u8 = 62;

pub const QUESTION: u8 = 63;

pub const UPPER_A: u8 = 65;

pub const UPPER_E: u8 = 69;

pub const UPPER_Z: u8 = 90;

pub const BRACKET_OPEN: u8 = 91;

pub const BRACKET_CLOSE: u8 = 93;

pub const UNDERSCORE: u8 = 95;

pub const LOWER_A: u8 = 97;

pub const LOWER_C: u8 = 99;

pub const LOWER_E: u8 = 101;

pub const LOWER_F: u8 = 102;

pub const LOWER_L: u8 = 108;

pub const LOWER_N: u8 = 110;

pub const LOWER_O: u8 = 111;

pub const LOWER_R: u8 = 114;

pub const LOWER_S: u8 = 115;

pub const LOWER_T: u8 = 116;

pub const LOWER_U: u8 = 117;

pub const LOWER_Z: u8 = 122;

pub const BRACE_OPEN: u8 = 123;

pub const PIPE: u8 = 124;

pub const BRACE_CLOSE: u8 = 125;

/// An ASCII decimal digit.
pub open spec fn spec_digit(b: u8) -> bool {
    DIGIT_0 <= b <= DIGIT_9
}

/// An ASCII letter or decimal digit.
pub open spec fn spec_alphanumeric(b: u8) -> bool {
    spec_digit(b) || (LOWER_A <= b <= LOWER_Z) || (UPPER_A <= b <= UPPER_Z)
}

/// An ASCII letter, decimal digit, or underscore: the identifier bytes.
pub open spec fn spec_word_byte(b: u8) -> bool {
    spec_alphanumeric(b) || b == UNDERSCORE
}

/// A blank byte: space, tab, carriage return, or newline.
pub open spec fn spec_blank(b: u8) -> bool {
    b == SPACE || b == HTAB || b == CARRIAGE || b == NEWLINE
}

#[verifier::when_used_as_spec(spec_digit)]
pub fn digit(b: u8) -> (r: bool)
    ensures
        r == spec_digit(b),
{
    DIGIT_0 <= b && b <= DIGIT_9
}

#[verifier::when_used_as_spec(spec_alphanumeric)]
pub fn alphanumeric(b: u8) -> (r: bool)
    ensures
        r == spec_alphanumeric(b),
{
    digit(b) || (LOWER_A <= b && b <= LOWER_Z) || (UPPER_A <= b && b <= UPPER_Z)
}

#[verifier::when_used_as_spec(spec_word_byte)]
pub fn word_byte(b: u8) -> (r: bool)
    ensures
        r == spec_word_byte(b),
{
    alphanumeric(b) || b == UNDERSCORE
}

#[verifier::when_used_as_spec(spec_blank)]
pub fn blank(b: u8) -> (r: bool)
    ensures
        r == spec_blank(b),
{
    b == SPACE || b == HTAB || b == CARRIAGE || b == NEWLINE
}

} // verus!

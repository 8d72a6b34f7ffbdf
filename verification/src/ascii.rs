//! Names for the ASCII bytes that the message formats give a meaning to.

use vstd::prelude::*;

verus! {

/// Horizontal tab.
pub const HT: u8 = 9;

/// Line feed.
pub const LF: u8 = 10;

/// Carriage return.
pub const CR: u8 = 13;

/// Space.
pub const SP: u8 = 32;

/// `+`
pub const PLUS: u8 = 43;

/// `-`
pub const HYPHEN: u8 = 45;

/// `/`
pub const SLASH: u8 = 47;

/// `0`
pub const DIGIT_0: u8 = 48;

/// `9`
pub const DIGIT_9: u8 = 57;

/// `:`
pub const COLON: u8 = 58;

/// `=`
pub const EQUALS: u8 = 61;

/// `?`
pub const QUESTION: u8 = 63;

/// `A`
pub const UPPER_A: u8 = 65;

/// `B`
pub const UPPER_B: u8 = 66;

/// `F`
pub const UPPER_F: u8 = 70;

/// `Q`
pub const UPPER_Q: u8 = 81;

/// `Z`
pub const UPPER_Z: u8 = 90;

/// `_`
pub const UNDERSCORE: u8 = 95;

/// `a`
pub const LOWER_A: u8 = 97;

/// `b`
pub const LOWER_B: u8 = 98;

/// `f`
pub const LOWER_F: u8 = 102;

/// `q`
pub const LOWER_Q: u8 = 113;

/// `z`
pub const LOWER_Z: u8 = 122;

} // verus!

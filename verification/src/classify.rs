//! Classification of input bytes into the three kinds of run that the
//! tokenizer produces, plus the bytes that no Code128 subset can carry.

use vstd::prelude::*;

verus! {

/// The class of one input byte.
#[derive(Clone, Copy, PartialEq, Eq, Structural, Debug)]
pub enum ByteClass {
    /// ASCII `0` to `9`.
    Digit,
    /// Space to tilde, digits excluded.
    Symbol,
    /// The ASCII control codes below space.
    Control,
    /// DEL and every byte with the high bit set.
    Invalid,
}

/// Whether `b` is an ASCII digit.
pub open spec fn spec_is_digit(b: u8) -> bool {
    0x30 <= b <= 0x39
}

/// Whether `b` is a printable ASCII byte (space to tilde) that is not a digit.
pub open spec fn spec_is_letter_or_symbol(b: u8) -> bool {
    0x20 <= b <= 0x7e && !spec_is_digit(b)
}

/// Whether `b` is an ASCII control code below space.
pub open spec fn spec_is_ctrl(b: u8) -> bool {
    b <= 0x1f
}

/// The class of `b`: the four classes split the byte range into disjoint parts.
pub open spec fn spec_classify(b: u8) -> ByteClass {
    if spec_is_digit(b) {
        ByteClass::Digit
    } else if spec_is_letter_or_symbol(b) {
        ByteClass::Symbol
    } else if spec_is_ctrl(b) {
        ByteClass::Control
    } else {
        ByteClass::Invalid
    }
}

/// Whether the byte represents a digit.
pub fn is_digit(b: &u8) -> (r: bool)
    ensures
        r == spec_is_digit(*b),
{
    0x30 <= *b && *b <= 0x39
}

/// Whether the byte represents a letter or symbol, but not a digit.
pub fn is_letter_or_symbol(b: &u8) -> (r: bool)
    ensures
        r == spec_is_letter_or_symbol(*b),
{
    0x20 <= *b && *b < 0x30 || 0x39 < *b && *b <= 0x7e
}

/// Whether the byte is an ASCII control character.
pub fn is_ctrl(b: &u8) -> (r: bool)
    ensures
        r == spec_is_ctrl(*b),
{
    *b <= 31
}

/// Classifies one byte.
pub fn classify(b: u8) -> (class: ByteClass)
    ensures
        class == spec_classify(b),
{
    if is_digit(&b) {
        ByteClass::Digit
    } else if is_letter_or_symbol(&b) {
        ByteClass::Symbol
    } else if is_ctrl(&b) {
        ByteClass::Control
    } else {
        ByteClass::Invalid
    }
}

} // verus!

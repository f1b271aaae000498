//! The two-byte unit: how a 16-bit code is split into bytes and put together
//! again.

use vstd::prelude::*;

verus! {

/// The character that stands in for a unit without a mapping.
pub const REPLACEMENT: char = '\u{FFFD}';

/// The byte written for a character that cannot be encoded at all: `?`.
pub const FALLBACK: u8 = 0x3F;

/// The code of the unit made of `hi` followed by `lo`.
pub open spec fn pair_code(hi: u8, lo: u8) -> u16 {
    ((hi as u16) << 8) | (lo as u16)
}

/// The first byte of the unit for `code`.
pub open spec fn high_byte(code: u16) -> u8 {
    (code >> 8) as u8
}

/// The second byte of the unit for `code`.
pub open spec fn low_byte(code: u16) -> u8 {
    (code & 0xFF) as u8
}

/// A code belongs to the two-byte range when its first byte is above 0x7F.
pub open spec fn in_two_byte_range(code: u16) -> bool {
    high_byte(code) > 0x7F
}

/// A character is its scalar value: the value fits in 32 bits, and the
/// character can be had back from it.
pub proof fn lemma_scalar_value(ch: char)
    ensures
        0 <= ch as int <= 0x10FFFF,
        (ch as u32) as int == ch as int,
        (ch as u32) as char == ch,
{
}

/// Splitting a code and joining the two bytes gives the code back.
pub proof fn lemma_join_split(code: u16)
    ensures
        pair_code(high_byte(code), low_byte(code)) == code,
{
    assert(((((code >> 8) as u8) as u16) << 8) | (((code & 0xFF) as u8) as u16) == code)
        by (bit_vector);
}

/// Joining two bytes and splitting the code gives the two bytes back.
pub proof fn lemma_split_join(hi: u8, lo: u8)
    ensures
        high_byte(pair_code(hi, lo)) == hi,
        low_byte(pair_code(hi, lo)) == lo,
{
    assert((((((hi as u16) << 8) | (lo as u16)) >> 8) as u8) == hi) by (bit_vector);
    assert((((((hi as u16) << 8) | (lo as u16)) & 0xFF) as u8) == lo) by (bit_vector);
}

/// The two-byte range is the upper half of the 16-bit codes.
pub proof fn lemma_two_byte_range(code: u16)
    ensures
        in_two_byte_range(code) <==> code >= 0x8000,
{
    assert((((code >> 8) as u8) > 0x7F) <==> code >= 0x8000) by (bit_vector);
}

/// Joins two bytes into the code of their unit.
pub fn join(hi: u8, lo: u8) -> (code: u16)
    ensures
        code == pair_code(hi, lo),
{
    ((hi as u16) << 8) | (lo as u16)
}

/// Splits a code into the two bytes of its unit, first byte first.
pub fn split(code: u16) -> (bytes: (u8, u8))
    ensures
        bytes.0 == high_byte(code),
        bytes.1 == low_byte(code),
{
    assert((code >> 8) <= 0xFF) by (bit_vector);
    assert((code & 0xFF) <= 0xFF) by (bit_vector);
    ((code >> 8) as u8, (code & 0xFF) as u8)
}

} // verus!

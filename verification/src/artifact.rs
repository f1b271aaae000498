//! The table as it is stored: a run of fixed-width records, one pair each.
//!
//! A record is six bytes. The first two are the unit of the pair's code, first
//! byte first; the other four are the scalar value of the pair's character,
//! highest byte first.

use crate::error::CodecError;
use crate::unit::{join, lemma_scalar_value, pair_code};
use vstd::prelude::*;

verus! {

/// The number of bytes in one record.
pub const RECORD_LEN: usize = 6;

/// `value` is a Unicode scalar value: a code point that is no surrogate.
pub open spec fn is_scalar_value(value: u32) -> bool {
    value <= 0xD7FF || 0xE000 <= value <= 0x10FFFF
}

/// `char::from_u32` of the standard library: a number is taken as a character
/// exactly when it is a Unicode scalar value, and the character then has that
/// value.
pub assume_specification[ char::from_u32 ](i: u32) -> (res: Option<char>)
    ensures
        res is Some <==> is_scalar_value(i),
        res matches Some(ch) ==> ch as u32 == i,
;

/// The number that four bytes spell, highest byte first.
pub open spec fn quad_value(b0: u8, b1: u8, b2: u8, b3: u8) -> u32 {
    ((b0 as u32) << 24) | ((b1 as u32) << 16) | ((b2 as u32) << 8) | (b3 as u32)
}

/// The number of whole records in `bytes`.
pub open spec fn record_count(bytes: Seq<u8>) -> nat {
    bytes.len() / 6
}

/// The code that record `k` of `bytes` holds.
pub open spec fn record_code(bytes: Seq<u8>, k: int) -> u16 {
    pair_code(bytes[6 * k], bytes[6 * k + 1])
}

/// The scalar value that record `k` of `bytes` holds.
pub open spec fn record_scalar(bytes: Seq<u8>, k: int) -> u32 {
    quad_value(bytes[6 * k + 2], bytes[6 * k + 3], bytes[6 * k + 4], bytes[6 * k + 5])
}

/// `bytes` can be read as records: they divide into records with nothing left
/// over, and every record holds a scalar value.
pub open spec fn records_readable(bytes: Seq<u8>) -> bool {
    &&& bytes.len() % 6 == 0
    &&& forall|k: int|
        0 <= k < record_count(bytes) ==> is_scalar_value(#[trigger] record_scalar(bytes, k))
}

/// The pairs that the records of `bytes` hold, in the order of the records.
pub open spec fn record_pairs(bytes: Seq<u8>) -> Seq<(u16, char)> {
    Seq::new(
        record_count(bytes),
        |k: int| (record_code(bytes, k), record_scalar(bytes, k) as char),
    )
}

/// Joins four bytes into the number they spell, highest byte first.
fn join_quad(b0: u8, b1: u8, b2: u8, b3: u8) -> (value: u32)
    ensures
        value == quad_value(b0, b1, b2, b3),
{
    ((b0 as u32) << 24) | ((b1 as u32) << 16) | ((b2 as u32) << 8) | (b3 as u32)
}

/// Reads the pairs of a stored table.
///
/// Bytes that can be read as records give the pairs of the records, in
/// order. Bytes that cannot are refused as malformed. Whether the pairs make a
/// table is for the constructors to say.
pub fn read_pairs(bytes: &[u8]) -> (res: Result<Vec<(u16, char)>, CodecError>)
    ensures
        res is Ok <==> records_readable(bytes@),
        res matches Ok(pairs) ==> pairs@ == record_pairs(bytes@),
        res matches Err(e) ==> e == CodecError::InitializationError,
{
    if bytes.len() % RECORD_LEN != 0 {
        return Err(CodecError::InitializationError);
    }
    let count: usize = bytes.len() / RECORD_LEN;
    let mut pairs: Vec<(u16, char)> = Vec::new();
    let mut k: usize = 0;
    let mut at: usize = 0;
    while k < count
        invariant
            bytes@.len() % 6 == 0,
            count == record_count(bytes@),
            k <= count,
            at == 6 * k,
            pairs@.len() == k,
            forall|j: int| 0 <= j < k ==> is_scalar_value(#[trigger] record_scalar(bytes@, j)),
            forall|j: int|
                0 <= j < k ==> #[trigger] pairs@[j] == (
                    record_code(bytes@, j),
                    record_scalar(bytes@, j) as char,
                ),
        decreases count - k,
    {
        assert(at + 6 <= bytes@.len());
        let code: u16 = join(bytes[at], bytes[at + 1]);
        let scalar: u32 = join_quad(bytes[at + 2], bytes[at + 3], bytes[at + 4], bytes[at + 5]);
        assert(code == record_code(bytes@, k as int));
        assert(scalar == record_scalar(bytes@, k as int));
        match char::from_u32(scalar) {
            Some(ch) => {
                proof {
                    lemma_scalar_value(ch);
                }
                pairs.push((code, ch));
            },
            None => {
                return Err(CodecError::InitializationError);
            },
        }
        k += 1;
        at += RECORD_LEN;
    }
    assert(pairs@ =~= record_pairs(bytes@));
    Ok(pairs)
}

} // verus!

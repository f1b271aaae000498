//! What holds of decoding and encoding, for every table and every input.
//!
//! The statements are over [`decoded`] and [`encoded`]: the functions that
//! the contracts of `decode` and `encode` give their results by.

use crate::decoder::{decode_unit, decoded};
use crate::encoder::{encode_char, encoded, unit_bytes};
use crate::table::{is_lowest_code, lemma_lowest_code, reverse_map, table_in_range};
use crate::unit::{
    high_byte, lemma_join_split, lemma_scalar_value, low_byte, pair_code, FALLBACK, REPLACEMENT,
};
use vstd::prelude::*;

verus! {

/// Every byte of `bytes` is at most 0x7F.
pub open spec fn ascii_bytes(bytes: Seq<u8>) -> bool {
    forall|i: int| 0 <= i < bytes.len() ==> #[trigger] bytes[i] <= 0x7F
}

/// Every character of `text` is at most U+007F.
pub open spec fn ascii_text(text: Seq<char>) -> bool {
    forall|i: int| 0 <= i < text.len() ==> (#[trigger] text[i]) as u32 <= 0x7F
}

/// `bytes` ends where a unit ends: no byte above 0x7F is left over at the end
/// without the byte that belongs after it.
pub open spec fn whole(bytes: Seq<u8>) -> bool
    decreases bytes.len(),
{
    if bytes.len() == 0 {
        true
    } else if bytes[0] <= 0x7F {
        whole(bytes.skip(1))
    } else if bytes.len() == 1 {
        false
    } else {
        whole(bytes.skip(2))
    }
}

/// What a character has become after it was encoded and decoded again:
/// itself, if it is at most U+007F or the table has a code for it; else the
/// replacement character, if the table has a code for that; else `?`.
pub open spec fn substituted(table: Map<u16, char>, ch: char) -> char {
    if ch as u32 <= 0x7F || table.contains_value(ch) {
        ch
    } else if table.contains_value(REPLACEMENT) {
        REPLACEMENT
    } else {
        FALLBACK as char
    }
}

/// Bytes that are all at most 0x7F decode to themselves, each byte read as
/// the character of the same value, whatever the table holds.
pub proof fn lemma_decode_ascii(table: Map<u16, char>, bytes: Seq<u8>)
    requires
        ascii_bytes(bytes),
    ensures
        decoded(table, bytes) == bytes.map_values(|b: u8| b as char),
    decreases bytes.len(),
{
    if bytes.len() > 0 {
        let rest = bytes.skip(1);
        assert(bytes[0] <= 0x7F);
        assert forall|i: int| 0 <= i < rest.len() implies #[trigger] rest[i] <= 0x7F by {
            assert(rest[i] == bytes[i + 1]);
        }
        lemma_decode_ascii(table, rest);
    }
    assert(decoded(table, bytes) =~= bytes.map_values(|b: u8| b as char));
}

/// A text whose characters are all at most U+007F encodes to itself, each
/// character written as the byte of the same value, whatever the table holds.
pub proof fn lemma_encode_ascii(reverse: Map<char, u16>, text: Seq<char>)
    requires
        ascii_text(text),
    ensures
        encoded(reverse, text) == text.map_values(|ch: char| ch as u8),
        ascii_bytes(encoded(reverse, text)),
    decreases text.len(),
{
    if text.len() > 0 {
        let rest = text.skip(1);
        assert(text[0] as u32 <= 0x7F);
        assert forall|i: int| 0 <= i < rest.len() implies (#[trigger] rest[i]) as u32 <= 0x7F by {
            assert(rest[i] == text[i + 1]);
        }
        lemma_encode_ascii(reverse, rest);
    }
    let bytes = text.map_values(|ch: char| ch as u8);
    assert(encoded(reverse, text) =~= bytes);
    assert forall|i: int| 0 <= i < bytes.len() implies #[trigger] bytes[i] <= 0x7F by {
        assert(text[i] as u32 <= 0x7F);
        lemma_scalar_value(text[i]);
    }
}

/// A text whose characters are all at most U+007F comes back unchanged when
/// it is encoded and then decoded, whatever the tables on either side hold.
pub proof fn lemma_ascii_round_trip(
    table: Map<u16, char>,
    reverse: Map<char, u16>,
    text: Seq<char>,
)
    requires
        ascii_text(text),
    ensures
        decoded(table, encoded(reverse, text)) == text,
{
    let bytes = encoded(reverse, text);
    lemma_encode_ascii(reverse, text);
    lemma_decode_ascii(table, bytes);
    assert forall|i: int| 0 <= i < text.len() implies (bytes[i] as char) == text[i] by {
        assert(text[i] as u32 <= 0x7F);
        lemma_scalar_value(text[i]);
    }
    assert(decoded(table, bytes) =~= text);
}

/// The unit of a code that the table holds decodes to the one character that
/// the table lists for that code.
pub proof fn lemma_decode_entry(table: Map<u16, char>, code: u16)
    requires
        table_in_range(table),
        table.contains_key(code),
    ensures
        decoded(table, unit_bytes(code)) == seq![table[code]],
{
    let bytes = unit_bytes(code);
    lemma_join_split(code);
    assert(bytes[0] > 0x7F);
    assert(decoded(table, bytes.skip(2)) =~= Seq::<char>::empty());
    assert(decoded(table, bytes) =~= seq![decode_unit(table, pair_code(bytes[0], bytes[1]))]);
}

/// A character above U+007F that the table lists encodes to the unit of its
/// code: of the lowest one, where the table lists the character under more
/// than one code.
pub proof fn lemma_encode_entry(table: Map<u16, char>, code: u16)
    requires
        table.contains_key(code),
        table[code] as u32 > 0x7F,
        is_lowest_code(table, table[code], code),
    ensures
        encoded(reverse_map(table), seq![table[code]]) == unit_bytes(code),
{
    let ch = table[code];
    let text = seq![ch];
    assert(table.contains_value(ch));
    lemma_lowest_code(table, ch);
    assert(encoded(reverse_map(table), text.skip(1)) =~= Seq::<u8>::empty());
    assert(encoded(reverse_map(table), text) =~= encode_char(reverse_map(table), ch));
}

/// Applying [`substituted`] twice is the same as applying it once.
pub proof fn lemma_substituted_idempotent(table: Map<u16, char>, ch: char)
    ensures
        substituted(table, substituted(table, ch)) == substituted(table, ch),
{
    assert((FALLBACK as char) as u32 == 0x3F);
}

/// Encoding a text and decoding the bytes again gives a text of the same
/// length in which every character stands where it stood, as
/// [`substituted`] leaves it: characters at most U+007F and characters of the
/// table unchanged, each other character as one placeholder.
pub proof fn lemma_round_trip_substitutes(table: Map<u16, char>, text: Seq<char>)
    requires
        table_in_range(table),
    ensures
        decoded(table, encoded(reverse_map(table), text)) == text.map_values(
            |ch: char| substituted(table, ch),
        ),
    decreases text.len(),
{
    let reverse = reverse_map(table);
    let bytes = encoded(reverse, text);
    let back = text.map_values(|ch: char| substituted(table, ch));
    if text.len() > 0 {
        let ch = text[0];
        let rest = text.skip(1);
        let tail = encoded(reverse, rest);
        lemma_round_trip_substitutes(table, rest);
        lemma_scalar_value(ch);
        if ch as u32 <= 0x7F {
            assert(bytes[0] == ch as u8);
            assert(bytes.skip(1) =~= tail);
        } else if reverse.contains_key(ch) || reverse.contains_key(REPLACEMENT) {
            let target = if reverse.contains_key(ch) {
                ch
            } else {
                REPLACEMENT
            };
            let code = reverse[target];
            lemma_lowest_code(table, target);
            lemma_join_split(code);
            assert(table.contains_key(code));
            assert(bytes =~= unit_bytes(code) + tail);
            assert(bytes[0] == high_byte(code) && bytes[1] == low_byte(code));
            assert(bytes.skip(2) =~= tail);
            assert(decode_unit(table, pair_code(bytes[0], bytes[1])) == target);
        } else {
            assert(bytes[0] == FALLBACK);
            assert(bytes.skip(1) =~= tail);
        }
        assert(decoded(table, tail) == rest.map_values(|c: char| substituted(table, c)));
        assert(decoded(table, bytes) =~= seq![substituted(table, ch)] + decoded(table, tail));
    }
    assert(decoded(table, bytes) =~= back);
}

/// A text made only of characters at most U+007F and of characters that the
/// table lists comes back unchanged when it is encoded and then decoded.
pub proof fn lemma_round_trip(table: Map<u16, char>, text: Seq<char>)
    requires
        table_in_range(table),
        forall|i: int|
            0 <= i < text.len() ==> (#[trigger] text[i]) as u32 <= 0x7F || table.contains_value(
                text[i],
            ),
    ensures
        decoded(table, encoded(reverse_map(table), text)) == text,
{
    lemma_round_trip_substitutes(table, text);
    assert(text.map_values(|ch: char| substituted(table, ch)) =~= text);
}

/// Once a text has been through encoding and decoding, going through both
/// again changes nothing more: the placeholders that the first pass put in
/// stay as they are.
pub proof fn lemma_round_trip_idempotent(table: Map<u16, char>, text: Seq<char>)
    requires
        table_in_range(table),
    ensures
        ({
            let once = decoded(table, encoded(reverse_map(table), text));
            decoded(table, encoded(reverse_map(table), once)) == once
        }),
{
    let once = decoded(table, encoded(reverse_map(table), text));
    lemma_round_trip_substitutes(table, text);
    lemma_round_trip_substitutes(table, once);
    assert forall|i: int| 0 <= i < once.len() implies substituted(table, #[trigger] once[i])
        == once[i] by {
        lemma_substituted_idempotent(table, text[i]);
    }
    assert(once.map_values(|ch: char| substituted(table, ch)) =~= once);
}

/// Where the first part ends on a unit's end, decoding two parts put together
/// is decoding each and putting the texts together.
pub proof fn lemma_decode_concat(table: Map<u16, char>, first: Seq<u8>, second: Seq<u8>)
    requires
        whole(first),
    ensures
        decoded(table, first + second) == decoded(table, first) + decoded(table, second),
    decreases first.len(),
{
    let both = first + second;
    if first.len() == 0 {
        assert(both =~= second);
    } else if first[0] <= 0x7F {
        assert(both[0] == first[0]);
        assert(both.skip(1) =~= first.skip(1) + second);
        lemma_decode_concat(table, first.skip(1), second);
    } else {
        assert(both[0] == first[0] && both[1] == first[1]);
        assert(both.skip(2) =~= first.skip(2) + second);
        lemma_decode_concat(table, first.skip(2), second);
    }
    assert(decoded(table, both) =~= decoded(table, first) + decoded(table, second));
}

/// A byte above 0x7F that is the last of the buffer, with no byte after it to
/// make a unit with, decodes to exactly one replacement character, after the
/// text of what stands before it.
pub proof fn lemma_decode_trailing_byte(table: Map<u16, char>, bytes: Seq<u8>, last: u8)
    requires
        whole(bytes),
        last > 0x7F,
    ensures
        decoded(table, seq![last]) == seq![REPLACEMENT],
        decoded(table, bytes.push(last)) == decoded(table, bytes).push(REPLACEMENT),
{
    lemma_decode_concat(table, bytes, seq![last]);
    assert(bytes.push(last) =~= bytes + seq![last]);
    assert(decoded(table, bytes).push(REPLACEMENT) =~= decoded(table, bytes) + seq![REPLACEMENT]);
}

/// Decoding depends on the table and the bytes and on nothing else: two
/// results for the same bytes under the same table are the same text, be
/// there placeholders in it or not.
pub proof fn lemma_decode_repeatable(
    table: Map<u16, char>,
    bytes: Seq<u8>,
    first: Seq<char>,
    second: Seq<char>,
)
    requires
        first == decoded(table, bytes),
        second == decoded(table, bytes),
    ensures
        first == second,
{
}

} // verus!

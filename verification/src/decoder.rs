//! Decoding: from KPS 9566 bytes to Unicode text.

use crate::error::CodecError;
use crate::table::{build_forward, forward_map, lemma_forward_map, table_in_range, well_formed};
use crate::unit::{join, pair_code, REPLACEMENT};
use std::collections::HashMap;
use vstd::prelude::*;

verus! {

broadcast use vstd::std_specs::hash::group_hash_axioms;

/// `String::push` of the standard library: the character is appended to the
/// end of the string, and what the string held before stays in front of it.
pub assume_specification[ String::push ](s: &mut String, ch: char)
    ensures
        final(s)@ == old(s)@.push(ch),
;

/// The character that a two-byte unit stands for: the one that the table
/// lists for its code, or the replacement character where it lists none.
pub open spec fn decode_unit(table: Map<u16, char>, code: u16) -> char {
    if table.contains_key(code) {
        table[code]
    } else {
        REPLACEMENT
    }
}

/// The text that `bytes` stand for under `table`, read from the left.
///
/// A byte up to 0x7F is one character, itself. A byte above 0x7F takes the
/// byte after it along, and the two are one character, given by
/// [`decode_unit`]. A byte above 0x7F at the very end, with nothing after
/// it, is one replacement character.
pub open spec fn decoded(table: Map<u16, char>, bytes: Seq<u8>) -> Seq<char>
    decreases bytes.len(),
{
    if bytes.len() == 0 {
        Seq::empty()
    } else if bytes[0] <= 0x7F {
        seq![bytes[0] as char] + decoded(table, bytes.skip(1))
    } else if bytes.len() == 1 {
        seq![REPLACEMENT]
    } else {
        seq![decode_unit(table, pair_code(bytes[0], bytes[1]))] + decoded(table, bytes.skip(2))
    }
}

/// A decoder for KPS 9566: it owns the forward mapping from codes to
/// characters and keeps nothing from one call to the next.
pub struct Kps9566Decoder {
    mapping: HashMap<u16, char>,
}

impl View for Kps9566Decoder {
    type V = Map<u16, char>;

    /// The forward mapping that the decoder looks codes up in.
    closed spec fn view(&self) -> Map<u16, char> {
        self.mapping@
    }
}

impl Kps9566Decoder {
    /// Builds a decoder from the pairs of a code-point table.
    ///
    /// A well-formed list gives a decoder whose mapping holds exactly the
    /// listed pairs, all of them under two-byte codes; any other list is
    /// refused as malformed.
    pub fn new(pairs: &[(u16, char)]) -> (res: Result<Self, CodecError>)
        ensures
            res is Ok <==> well_formed(pairs@),
            res matches Ok(decoder) ==> decoder@ == forward_map(pairs@) && table_in_range(decoder@),
            res matches Err(e) ==> e == CodecError::InitializationError,
    {
        match build_forward(pairs) {
            Ok(mapping) => {
                proof {
                    lemma_forward_map(pairs@);
                }
                Ok(Kps9566Decoder { mapping })
            },
            Err(e) => Err(e),
        }
    }

    /// Makes a decoder of a forward mapping that is already built.
    pub(crate) fn from_forward(mapping: HashMap<u16, char>) -> (decoder: Self)
        ensures
            decoder@ == mapping@,
    {
        Kps9566Decoder { mapping }
    }

    /// The forward mapping, for the code that builds an encoder from it.
    pub(crate) fn forward(&self) -> (mapping: &HashMap<u16, char>)
        ensures
            mapping@ == self@,
    {
        &self.mapping
    }

    /// The character that the table lists for `code`, if it lists one.
    pub fn lookup(&self, code: u16) -> (res: Option<char>)
        ensures
            res == if self@.contains_key(code) {
                Some(self@[code])
            } else {
                None
            },
    {
        match self.mapping.get(&code) {
            Some(ch) => Some(*ch),
            None => None,
        }
    }

    /// Decodes a buffer of KPS 9566 bytes.
    ///
    /// This never fails: a unit without a mapping, and a lone byte above 0x7F
    /// at the end, each come out as one replacement character.
    pub fn decode(&self, bytes: &[u8]) -> (res: Result<String, CodecError>)
        ensures
            res is Ok,
            res matches Ok(text) ==> text@ == decoded(self@, bytes@),
    {
        let mut text = String::new();
        let mut i: usize = 0;
        assert(bytes@.skip(0) == bytes@);
        assert(text@ + decoded(self@, bytes@) == decoded(self@, bytes@));
        while i < bytes.len()
            invariant
                i <= bytes.len(),
                text@ + decoded(self@, bytes@.skip(i as int)) == decoded(self@, bytes@),
            decreases bytes.len() - i,
        {
            let ghost rest = bytes@.skip(i as int);
            let ghost before = text@;
            let byte: u8 = bytes[i];
            assert(rest[0] == byte);
            if byte <= 0x7F {
                text.push(byte as char);
                i += 1;
                assert(rest.skip(1) == bytes@.skip(i as int));
            } else if i + 1 < bytes.len() {
                let code: u16 = join(byte, bytes[i + 1]);
                assert(rest[1] == bytes@[i + 1]);
                let ch: char = match self.lookup(code) {
                    Some(ch) => ch,
                    None => REPLACEMENT,
                };
                text.push(ch);
                i += 2;
                assert(rest.skip(2) == bytes@.skip(i as int));
            } else {
                text.push(REPLACEMENT);
                i += 1;
                assert(bytes@.skip(i as int).len() == 0);
            }
            assert(text@ + decoded(self@, bytes@.skip(i as int)) == before + decoded(self@, rest));
        }
        Ok(text)
    }
}

} // verus!

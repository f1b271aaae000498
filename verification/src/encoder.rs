//! Encoding: from Unicode text to KPS 9566 bytes.

use crate::error::CodecError;
use crate::table::{build_forward, forward_map, invert, keyed_by_char, reverse_map, well_formed};
use crate::unit::{high_byte, low_byte, split, FALLBACK, REPLACEMENT};
use std::collections::HashMap;
use vstd::prelude::*;
use vstd::std_specs::iter::IteratorSpec;

verus! {

broadcast use {vstd::std_specs::hash::group_hash_axioms, vstd::string::group_string_axioms};

/// The two bytes of the unit for `code`, first byte first.
pub open spec fn unit_bytes(code: u16) -> Seq<u8> {
    seq![high_byte(code), low_byte(code)]
}

/// The bytes that one character is written as. Three rules, tried in order:
/// a character up to U+007F is one byte, itself; a character that the
/// reverse mapping holds is the unit of its code; any other character is the
/// unit of the replacement character's code, where the mapping holds that
/// one, and else the single byte `?`.
pub open spec fn encode_char(reverse: Map<char, u16>, ch: char) -> Seq<u8> {
    if ch as u32 <= 0x7F {
        seq![ch as u8]
    } else if reverse.contains_key(ch) {
        unit_bytes(reverse[ch])
    } else if reverse.contains_key(REPLACEMENT) {
        unit_bytes(reverse[REPLACEMENT])
    } else {
        seq![FALLBACK]
    }
}

/// The bytes that `text` is written as under `reverse`: what
/// [`encode_char`] gives for each character, one after the other.
pub open spec fn encoded(reverse: Map<char, u16>, text: Seq<char>) -> Seq<u8>
    decreases text.len(),
{
    if text.len() == 0 {
        Seq::empty()
    } else {
        encode_char(reverse, text[0]) + encoded(reverse, text.skip(1))
    }
}

/// An encoder for KPS 9566: it owns the reverse mapping from characters to
/// codes and keeps nothing from one call to the next.
pub struct Kps9566Encoder {
    reverse_mapping: HashMap<u32, u16>,
}

impl View for Kps9566Encoder {
    type V = Map<char, u16>;

    /// The reverse mapping that the encoder looks characters up in.
    closed spec fn view(&self) -> Map<char, u16> {
        keyed_by_char(self.reverse_mapping@)
    }
}

impl Kps9566Encoder {
    /// Builds an encoder from the pairs of a code-point table.
    ///
    /// A well-formed list gives an encoder whose mapping is the reverse of the
    /// list's forward mapping; any other list is refused as malformed.
    pub fn new(pairs: &[(u16, char)]) -> (res: Result<Self, CodecError>)
        ensures
            res is Ok <==> well_formed(pairs@),
            res matches Ok(encoder) ==> encoder@ == reverse_map(forward_map(pairs@)),
            res matches Err(e) ==> e == CodecError::InitializationError,
    {
        match build_forward(pairs) {
            Ok(mapping) => Ok(Self::from_forward(&mapping)),
            Err(e) => Err(e),
        }
    }

    /// Makes an encoder by inverting a forward mapping.
    pub(crate) fn from_forward(mapping: &HashMap<u16, char>) -> (encoder: Self)
        ensures
            encoder@ == reverse_map(mapping@),
    {
        Kps9566Encoder { reverse_mapping: invert(mapping) }
    }

    /// The code that the reverse mapping holds for `ch`, if it holds one.
    pub fn lookup(&self, ch: char) -> (res: Option<u16>)
        ensures
            res == if self@.contains_key(ch) {
                Some(self@[ch])
            } else {
                None
            },
    {
        let key: u32 = ch as u32;
        match self.reverse_mapping.get(&key) {
            Some(code) => Some(*code),
            None => None,
        }
    }

    /// Appends the bytes of one character to `out`.
    fn push_char(&self, ch: char, out: &mut Vec<u8>)
        ensures
            final(out)@ == old(out)@ + encode_char(self@, ch),
    {
        if ch as u32 <= 0x7F {
            out.push(ch as u8);
        } else {
            let code: Option<u16> = match self.lookup(ch) {
                Some(code) => Some(code),
                None => self.lookup(REPLACEMENT),
            };
            match code {
                Some(code) => {
                    let unit: (u8, u8) = split(code);
                    out.push(unit.0);
                    out.push(unit.1);
                },
                None => {
                    out.push(FALLBACK);
                },
            }
        }
    }

    /// Encodes a text as KPS 9566 bytes.
    ///
    /// This never fails: a character without a code is written as the
    /// replacement character's unit or, where the table has none, as `?`.
    pub fn encode(&self, text: &str) -> (bytes: Vec<u8>)
        ensures
            bytes@ == encoded(self@, text@),
    {
        let mut bytes: Vec<u8> = Vec::new();
        let ghost mut done: int = 0;
        assert(text@.skip(0) == text@);
        assert(bytes@ + encoded(self@, text@) == encoded(self@, text@));
        for ch in it: text.chars()
            invariant
                it.seq() == text@,
                it.index() == done,
                0 <= done <= text@.len(),
                bytes@ + encoded(self@, text@.skip(done)) == encoded(self@, text@),
        {
            let ghost rest = text@.skip(done);
            let ghost before = bytes@;
            assert(rest[0] == ch);
            self.push_char(ch, &mut bytes);
            proof {
                done = done + 1;
                assert(rest.skip(1) == text@.skip(done));
                assert(bytes@ + encoded(self@, text@.skip(done)) == before + encoded(self@, rest));
            }
        }
        assert(text@.skip(done).len() == 0);
        bytes
    }
}

} // verus!

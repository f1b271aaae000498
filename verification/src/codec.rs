//! The codec: one decoder and one encoder over the same table.

use crate::decoder::{decoded, Kps9566Decoder};
use crate::encoder::{encoded, Kps9566Encoder};
use crate::error::CodecError;
use crate::table::{build_forward, forward_map, lemma_forward_map, reverse_map, table_in_range, well_formed};
use vstd::prelude::*;

verus! {

/// A decoder and an encoder built from one table. Every operation is handed
/// on to the one it belongs to.
pub struct Kps9566Codec {
    decoder: Kps9566Decoder,
    encoder: Kps9566Encoder,
}

impl View for Kps9566Codec {
    type V = Map<u16, char>;

    /// The forward mapping of the table that the codec was built from.
    closed spec fn view(&self) -> Map<u16, char> {
        self.decoder@
    }
}

impl Kps9566Codec {
    /// The two halves belong together: the encoder holds the reverse of the
    /// decoder's mapping.
    #[verifier::type_invariant]
    spec fn halves_agree(&self) -> bool {
        self.encoder@ == reverse_map(self.decoder@)
    }

    /// Builds a codec from the pairs of a code-point table.
    ///
    /// A well-formed list gives a codec whose mapping holds exactly the listed
    /// pairs, all of them under two-byte codes; any other list is refused as
    /// malformed. The table is read once, and the encoder's half is made from
    /// the decoder's.
    pub fn new(pairs: &[(u16, char)]) -> (res: Result<Self, CodecError>)
        ensures
            res is Ok <==> well_formed(pairs@),
            res matches Ok(codec) ==> codec@ == forward_map(pairs@) && table_in_range(codec@),
            res matches Err(e) ==> e == CodecError::InitializationError,
    {
        match build_forward(pairs) {
            Ok(mapping) => {
                proof {
                    lemma_forward_map(pairs@);
                }
                let encoder = Kps9566Encoder::from_forward(&mapping);
                let decoder = Kps9566Decoder::from_forward(mapping);
                Ok(Kps9566Codec { decoder, encoder })
            },
            Err(e) => Err(e),
        }
    }

    /// The decoding half.
    pub fn decoder(&self) -> (decoder: &Kps9566Decoder)
        ensures
            decoder@ == self@,
    {
        &self.decoder
    }

    /// The encoding half.
    pub fn encoder(&self) -> (encoder: &Kps9566Encoder)
        ensures
            encoder@ == reverse_map(self@),
    {
        proof {
            use_type_invariant(self);
        }
        &self.encoder
    }

    /// Decodes a buffer of KPS 9566 bytes, as [`Kps9566Decoder::decode`] does.
    pub fn decode(&self, bytes: &[u8]) -> (res: Result<String, CodecError>)
        ensures
            res is Ok,
            res matches Ok(text) ==> text@ == decoded(self@, bytes@),
    {
        self.decoder.decode(bytes)
    }

    /// Encodes a text as KPS 9566 bytes, as [`Kps9566Encoder::encode`] does.
    pub fn encode(&self, text: &str) -> (bytes: Vec<u8>)
        ensures
            bytes@ == encoded(reverse_map(self@), text@),
    {
        proof {
            use_type_invariant(self);
        }
        self.encoder.encode(text)
    }
}

} // verus!

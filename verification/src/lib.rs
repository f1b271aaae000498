//! A transcoder between the KPS 9566 double-byte encoding and Unicode text.
//!
//! Bytes up to 0x7F stand for themselves. A byte above 0x7F opens a two-byte
//! unit whose 16-bit code is looked up in a code-point table. The table is
//! handed in when a decoder, an encoder or a codec is built; nothing in the
//! library reads it from anywhere else.

pub mod artifact;
pub mod codec;
pub mod decoder;
pub mod encoder;
pub mod error;
pub mod laws;
pub mod table;
pub mod unit;

pub use codec::Kps9566Codec;
pub use decoder::Kps9566Decoder;
pub use encoder::Kps9566Encoder;
pub use error::CodecError;

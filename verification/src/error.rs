//! The failures a caller can tell apart.

use vstd::prelude::*;

verus! {

/// Why an operation around the codec failed.
///
/// Characters and codes without a mapping are no failure: decoding and
/// encoding put a placeholder in their place and go on.
#[derive(Clone, Copy, Debug, PartialEq, Eq, Structural)]
pub enum CodecError {
    /// The code-point table handed to a constructor is malformed.
    InitializationError,
    /// A file could not be read or written. The library itself touches no
    /// file; callers that do report their failures under this variant.
    IoError,
}

} // verus!

//! Failures of decoding, each local to the structure that was being read.

use vstd::prelude::*;

verus! {

/// Why a structure could not be decoded.
#[derive(Clone, Copy, Debug, PartialEq, Eq)]
pub enum DecodeError {
    /// An offset or a declared length reads past the end of the buffer.
    MalformedBuffer,
    /// An entry's type tag is not one that is understood.
    UnsupportedAceType,
    /// An entry of a kind that carries a rights mask has none.
    MissingMask,
    /// A certificate could not be parsed.
    CertificateDecodeError,
}

} // verus!

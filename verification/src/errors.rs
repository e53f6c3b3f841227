//! Error taxonomy of the key-material pipeline.

use vstd::prelude::*;

verus! {

/// Everything that can go wrong in this library.
///
/// Hashing and encoding are total over well-formed fixed-width input, so
/// failures arise only where foreign bytes are accepted (the decoding
/// paths) or where entropy is requested.
#[derive(Clone, Copy, Debug, PartialEq, Eq, Structural)]
pub enum KeyError {
    /// The secure randomness source could not be read; key generation is
    /// aborted rather than falling back to a weaker source.
    EntropyUnavailable,
    /// A Base58 string held a character outside the alphabet, or a
    /// Base58Check payload's trailing four bytes did not match the
    /// recomputed double-SHA-256 checksum.
    InvalidEncodedInput,
    /// An uncompressed-point byte sequence did not have the expected
    /// length or leading format byte.
    MalformedPublicKeyBytes,
}

} // verus!

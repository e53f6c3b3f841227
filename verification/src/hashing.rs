//! Trusted wrappers around the hash primitives: SHA-256, RIPEMD-160 and
//! Keccak-256 as pure byte-in/byte-out functions.
//!
//! Each digest is a function of the input bytes alone; its value is given
//! a name that the encoding contracts speak of, and nothing beyond the
//! documented output width is assumed of it.

use vstd::prelude::*;
use sha2::Digest;
use tiny_keccak::Hasher;

verus! {

/// The SHA-256 digest of a byte sequence.
pub uninterp spec fn sha256_of(input: Seq<u8>) -> Seq<u8>;

/// The RIPEMD-160 digest of a byte sequence.
pub uninterp spec fn ripemd160_of(input: Seq<u8>) -> Seq<u8>;

/// The Keccak-256 digest of a byte sequence.
pub uninterp spec fn keccak256_of(input: Seq<u8>) -> Seq<u8>;

/// Relies on sha2's `Sha256::digest`: a 32-byte digest that depends on
/// the input bytes alone.
#[verifier::external_body]
pub(crate) fn sha256(input: &[u8]) -> (r: Vec<u8>)
    ensures
        r@ == sha256_of(input@),
        r@.len() == 32,
{
    sha2::Sha256::digest(input).to_vec()
}

/// Relies on ripemd's `Ripemd160::digest`: a 20-byte digest that depends
/// on the input bytes alone.
#[verifier::external_body]
pub(crate) fn ripemd160(input: &[u8]) -> (r: Vec<u8>)
    ensures
        r@ == ripemd160_of(input@),
        r@.len() == 20,
{
    ripemd::Ripemd160::digest(input).to_vec()
}

/// Relies on tiny-keccak's `Keccak::v256` with `update` and `finalize`: a
/// 32-byte digest that depends on the input bytes alone.
#[verifier::external_body]
pub(crate) fn keccak256(input: &[u8]) -> (r: Vec<u8>)
    ensures
        r@ == keccak256_of(input@),
        r@.len() == 32,
{
    let mut hasher = tiny_keccak::Keccak::v256();
    hasher.update(input);
    let mut hash = [0u8; 32];
    hasher.finalize(&mut hash);
    hash.to_vec()
}

} // verus!

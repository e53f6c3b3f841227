//! secp256k1 key-pair generation, behind trusted wrappers over the curve
//! library: a uniform scalar in [1, order - 1] from the system entropy
//! source, and both SEC1 encodings of its public point.

use vstd::prelude::*;
use crate::base58::be_val;

verus! {

/// A secp256k1 key pair: the 32 private scalar bytes and the SEC1
/// uncompressed (65-byte) and compressed (33-byte) public point forms.
pub struct Secp256k1 {
    pub private_key: Vec<u8>,
    pub uncompressed_public_key: Vec<u8>,
    pub compressed_public_key: Vec<u8>,
}

/// The order of the secp256k1 group.
pub open spec fn secp256k1_order() -> nat {
    0xFFFFFFFFFFFFFFFFFFFFFFFFFFFFFFFEBAAEDCE6AF48A03BBFD25E8CD0364141nat
}

/// The SEC1 uncompressed encoding (`0x04`, x, y) of the public point of
/// a private scalar, a function of the scalar bytes alone.
pub uninterp spec fn secp256k1_uncompressed_of(private_key: Seq<u8>) -> Seq<u8>;

/// The SEC1 compressed encoding (parity byte, x) of the public point of
/// a private scalar, a function of the scalar bytes alone.
pub uninterp spec fn secp256k1_compressed_of(private_key: Seq<u8>) -> Seq<u8>;

/// A valid private key: the canonical big-endian encoding of a scalar
/// in [1, order - 1].
pub open spec fn secp256k1_private_key_valid(key: Seq<u8>) -> bool {
    key.len() == 32 && 0 < be_val(key, 256) < secp256k1_order()
}

/// A well-formed key pair: both public forms belong to the private key.
pub open spec fn secp256k1_well_formed(k: Secp256k1) -> bool {
    &&& secp256k1_private_key_valid(k.private_key@)
    &&& k.uncompressed_public_key@ == secp256k1_uncompressed_of(k.private_key@)
    &&& k.uncompressed_public_key@.len() == 65
    &&& k.uncompressed_public_key@[0] == 0x04
    &&& k.compressed_public_key@ == secp256k1_compressed_of(k.private_key@)
    &&& k.compressed_public_key@.len() == 33
    &&& (k.compressed_public_key@[0] == 0x02 || k.compressed_public_key@[0] == 0x03)
}

/// Relies on k256's `NonZeroScalar::random` over rand's `OsRng`:
/// rejection sampling yields a scalar uniform in [1, order - 1], and
/// `to_bytes` is its canonical big-endian encoding. Aborts if the
/// entropy source cannot be read; no weaker source is substituted.
#[verifier::external_body]
fn random_private_key() -> (r: Vec<u8>)
    ensures
        secp256k1_private_key_valid(r@),
{
    let scalar = k256::NonZeroScalar::random(&mut rand::rngs::OsRng);
    scalar.to_bytes().to_vec()
}

/// Relies on k256's `SigningKey::from_slice` (which accepts exactly the
/// canonical encodings of scalars in [1, order - 1]) and
/// `VerifyingKey::to_encoded_point(false)`: the 65-byte SEC1
/// uncompressed encoding, `0x04` then x then y, of the scalar's public
/// point, a function of the scalar bytes alone.
#[verifier::external_body]
fn uncompressed_public(private_key: &[u8]) -> (r: Vec<u8>)
    requires
        secp256k1_private_key_valid(private_key@),
    ensures
        r@ == secp256k1_uncompressed_of(private_key@),
        r@.len() == 65,
        r@[0] == 0x04,
{
    let key = k256::ecdsa::SigningKey::from_slice(private_key).unwrap();
    key.verifying_key().to_encoded_point(false).as_bytes().to_vec()
}

/// Relies on k256's `SigningKey::from_slice` and
/// `VerifyingKey::to_encoded_point(true)`: the 33-byte SEC1 compressed
/// encoding, the y-parity byte `0x02` or `0x03` then x, of the scalar's
/// public point, a function of the scalar bytes alone.
#[verifier::external_body]
fn compressed_public(private_key: &[u8]) -> (r: Vec<u8>)
    requires
        secp256k1_private_key_valid(private_key@),
    ensures
        r@ == secp256k1_compressed_of(private_key@),
        r@.len() == 33,
        r@[0] == 0x02 || r@[0] == 0x03,
{
    let key = k256::ecdsa::SigningKey::from_slice(private_key).unwrap();
    key.verifying_key().to_encoded_point(true).as_bytes().to_vec()
}

/// Assembles the key pair of a valid private scalar.
pub fn secp256k1_keypair_from_private(private_key: Vec<u8>) -> (r: Secp256k1)
    requires
        secp256k1_private_key_valid(private_key@),
    ensures
        secp256k1_well_formed(r),
        r.private_key@ == private_key@,
{
    let uncompressed_public_key = uncompressed_public(private_key.as_slice());
    let compressed_public_key = compressed_public(private_key.as_slice());
    Secp256k1 { private_key, uncompressed_public_key, compressed_public_key }
}

/// Generates a secp256k1 key pair: a uniform scalar in [1, order - 1]
/// drawn through the curve library's rejection sampler, and both SEC1
/// encodings of its public point.
pub fn process() -> (r: Secp256k1)
    ensures
        secp256k1_well_formed(r),
{
    let private_key = random_private_key();
    secp256k1_keypair_from_private(private_key)
}

} // verus!

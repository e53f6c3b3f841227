//! Ed25519 key-pair generation, behind trusted wrappers over the curve
//! library: fresh entropy is reduced modulo the group order to a scalar,
//! and the public point is the scalar times the curve's base point.

use vstd::prelude::*;
use rand::RngCore;
use crate::errors::KeyError;

verus! {

/// An Ed25519 key pair: 32 private scalar bytes, the 32-byte compressed
/// public point, and their 64-byte concatenation as the combined secret
/// key form.
pub struct Ed25519 {
    pub secret_key: Vec<u8>,
    pub private_key: Vec<u8>,
    pub public_key: Vec<u8>,
}

/// The canonical scalar bytes of a 32-byte seed reduced modulo the
/// group order.
pub uninterp spec fn ed25519_scalar_of(seed: Seq<u8>) -> Seq<u8>;

/// The canonical scalar bytes of a 64-byte seed reduced modulo the
/// group order (the wide, bias-free reduction).
pub uninterp spec fn ed25519_scalar_wide_of(seed: Seq<u8>) -> Seq<u8>;

/// The compressed public point of a scalar given by its bytes: reduce,
/// multiply the base point, compress.
pub uninterp spec fn ed25519_public_of(scalar: Seq<u8>) -> Seq<u8>;

/// A well-formed key pair: fixed widths, the public key belongs to the
/// private key, and the secret key is their concatenation.
pub open spec fn ed25519_well_formed(k: Ed25519) -> bool {
    &&& k.private_key@.len() == 32
    &&& k.public_key@.len() == 32
    &&& k.public_key@ == ed25519_public_of(k.private_key@)
    &&& k.secret_key@ == k.private_key@ + k.public_key@
}

/// rand's error type, carried through and mapped to `KeyError` by the
/// caller.
#[verifier::external_type_specification]
#[verifier::external_body]
pub struct ExRandError(rand::Error);

/// Relies on rand's `OsRng::try_fill_bytes`: on success the buffer holds
/// bytes from the operating system's entropy source; nothing is assumed
/// of their values.
#[verifier::external_body]
pub(crate) fn os_random_bytes(len: usize) -> (r: Result<Vec<u8>, rand::Error>)
    ensures
        match r {
            Ok(bytes) => bytes@.len() == len,
            Err(_) => true,
        },
{
    let mut buf = vec![0u8; len];
    match rand::rngs::OsRng.try_fill_bytes(&mut buf) {
        Ok(()) => Ok(buf),
        Err(e) => Err(e),
    }
}

/// Relies on curve25519-dalek's `Scalar::from_bytes_mod_order` and
/// `Scalar::to_bytes`: the canonical bytes of the 32-byte seed reduced
/// modulo the group order, a function of the seed alone.
#[verifier::external_body]
fn scalar_from_seed(seed: &[u8]) -> (r: Vec<u8>)
    requires
        seed@.len() == 32,
    ensures
        r@ == ed25519_scalar_of(seed@),
        r@.len() == 32,
{
    let mut arr = [0u8; 32];
    arr.copy_from_slice(seed);
    curve25519_dalek::scalar::Scalar::from_bytes_mod_order(arr).to_bytes().to_vec()
}

/// Relies on curve25519-dalek's `Scalar::from_bytes_mod_order_wide` and
/// `Scalar::to_bytes`: the canonical bytes of the 64-byte seed reduced
/// modulo the group order, a function of the seed alone.
#[verifier::external_body]
fn scalar_from_seed_wide(seed: &[u8]) -> (r: Vec<u8>)
    requires
        seed@.len() == 64,
    ensures
        r@ == ed25519_scalar_wide_of(seed@),
        r@.len() == 32,
{
    let mut arr = [0u8; 64];
    arr.copy_from_slice(seed);
    curve25519_dalek::scalar::Scalar::from_bytes_mod_order_wide(&arr).to_bytes().to_vec()
}

/// Relies on curve25519-dalek's `Scalar::from_bytes_mod_order`, the
/// base-point multiplication on `ED25519_BASEPOINT_POINT`, and
/// `EdwardsPoint::compress`: the 32-byte compressed public point of the
/// scalar, a function of the scalar bytes alone.
#[verifier::external_body]
fn public_from_scalar(scalar: &[u8]) -> (r: Vec<u8>)
    requires
        scalar@.len() == 32,
    ensures
        r@ == ed25519_public_of(scalar@),
        r@.len() == 32,
{
    let mut arr = [0u8; 32];
    arr.copy_from_slice(scalar);
    let s = curve25519_dalek::scalar::Scalar::from_bytes_mod_order(arr);
    let p = &s * &curve25519_dalek::constants::ED25519_BASEPOINT_POINT;
    p.compress().to_bytes().to_vec()
}

/// Derives a key pair from a uniform random seed of 32 bytes (exact
/// reduction) or 64 bytes (wide reduction, the bias-free preferred
/// form).
pub fn ed25519_keypair_from_seed(seed: &[u8]) -> (r: Ed25519)
    requires
        seed@.len() == 32 || seed@.len() == 64,
    ensures
        ed25519_well_formed(r),
        r.private_key@ == if seed@.len() == 64 {
            ed25519_scalar_wide_of(seed@)
        } else {
            ed25519_scalar_of(seed@)
        },
{
    let private_key = if seed.len() == 64 {
        scalar_from_seed_wide(seed)
    } else {
        scalar_from_seed(seed)
    };
    let public_key = public_from_scalar(private_key.as_slice());
    let mut secret_key: Vec<u8> = Vec::new();
    secret_key.extend_from_slice(private_key.as_slice());
    secret_key.extend_from_slice(public_key.as_slice());
    proof {
        assert(secret_key@ =~= private_key@ + public_key@);
    }
    Ed25519 { secret_key, private_key, public_key }
}

/// Generates an Ed25519 key pair from 64 bytes of fresh entropy with
/// wide reduction modulo the group order; fails only when the entropy
/// source cannot be read, and never falls back to a weaker source.
pub fn process() -> (r: Result<Ed25519, KeyError>)
    ensures
        match r {
            Ok(k) => ed25519_well_formed(k),
            Err(e) => e == KeyError::EntropyUnavailable,
        },
{
    let seed = match os_random_bytes(64) {
        Ok(s) => s,
        Err(_) => {
            return Err(KeyError::EntropyUnavailable);
        },
    };
    Ok(ed25519_keypair_from_seed(seed.as_slice()))
}

} // verus!

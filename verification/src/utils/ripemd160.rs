//! The Base58Check P2PKH-style address of an uncompressed public key.

use vstd::prelude::*;
use crate::base58::{base58_decode_seq, base58_seq};
use crate::base58check::{
    b58check_payload, base58check_decode_seq, base58check_encode, checksum_ok,
};
use crate::errors::KeyError;
use crate::hashing::{ripemd160, ripemd160_of, sha256, sha256_of};
use crate::utils::keccak256::uncompressed_point_shape;

verus! {

/// The P2PKH payload of a public key: version byte `0x00` over the
/// RIPEMD-160 digest of the SHA-256 digest of the key bytes, with the
/// 4-byte double-SHA-256 checksum over both.
pub open spec fn p2pkh_payload(public_key: Seq<u8>) -> Seq<u8> {
    b58check_payload(0x00, ripemd160_of(sha256_of(public_key)))
}

/// Derives the Base58Check address of a 65-byte uncompressed public key:
/// SHA-256 of the key, RIPEMD-160 of that digest, version byte `0x00`,
/// and the double-SHA-256 checksum, encoded in Base58. Decoding the
/// result and verifying its checksum recovers exactly the version byte
/// and the RIPEMD-160(SHA-256(key)) digest.
pub fn compute_ripemd160_address(public_key_bytes_65: &[u8]) -> (r: String)
    requires
        public_key_bytes_65@.len() == 65,
    ensures
        r@ == base58_seq(p2pkh_payload(public_key_bytes_65@)),
        base58_decode_seq(r@) == Some(p2pkh_payload(public_key_bytes_65@)),
        p2pkh_payload(public_key_bytes_65@).len() == 25,
        p2pkh_payload(public_key_bytes_65@)[0] == 0x00,
        p2pkh_payload(public_key_bytes_65@).subrange(1, 21) == ripemd160_of(
            sha256_of(public_key_bytes_65@),
        ),
        checksum_ok(p2pkh_payload(public_key_bytes_65@)),
        base58check_decode_seq(r@) == Some(
            (0x00u8, ripemd160_of(sha256_of(public_key_bytes_65@))),
        ),
{
    let h1 = sha256(public_key_bytes_65);
    let h2 = ripemd160(h1.as_slice());
    let r = base58check_encode(0x00, h2.as_slice());
    proof {
        assert(p2pkh_payload(public_key_bytes_65@).subrange(1, 21) =~= ripemd160_of(
            sha256_of(public_key_bytes_65@),
        ));
    }
    r
}

/// The P2PKH-style address, for byte strings that are a 65-byte
/// uncompressed point with format byte `0x04`; anything else is reported
/// as malformed.
pub fn base58check_p2pkh(public_key_bytes: &[u8]) -> (r: Result<String, KeyError>)
    ensures
        match r {
            Ok(s) => {
                &&& uncompressed_point_shape(public_key_bytes@)
                &&& s@ == base58_seq(p2pkh_payload(public_key_bytes@))
            },
            Err(e) => {
                &&& !uncompressed_point_shape(public_key_bytes@)
                &&& e == KeyError::MalformedPublicKeyBytes
            },
        },
{
    if public_key_bytes.len() != 65 || public_key_bytes[0] != 0x04 {
        return Err(KeyError::MalformedPublicKeyBytes);
    }
    Ok(compute_ripemd160_address(public_key_bytes))
}

} // verus!

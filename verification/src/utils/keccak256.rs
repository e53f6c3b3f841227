//! The raw Keccak-256 address of an uncompressed public key.

use vstd::prelude::*;
use vstd::slice::slice_to_vec;
use crate::errors::KeyError;
use crate::hashing::{keccak256, keccak256_of};
use crate::hex::{bytes_to_hex, hex_seq};
use crate::text::push_char;

verus! {

/// The 20-byte Keccak address of an uncompressed public key: the last 20
/// bytes of the Keccak-256 digest of the key bytes without their leading
/// format byte.
pub open spec fn keccak_address_of(public_key: Seq<u8>) -> Seq<u8> {
    keccak256_of(public_key.skip(1)).skip(12)
}

/// An uncompressed public point: 65 bytes, format byte `0x04` first.
pub open spec fn uncompressed_point_shape(public_key: Seq<u8>) -> bool {
    public_key.len() == 65 && public_key[0] == 0x04
}

/// Computes the 20-byte Keccak address of a 65-byte uncompressed public
/// key: the format byte is stripped, the remaining 64 bytes are hashed
/// with Keccak-256, and the last 20 bytes of the digest are the address.
pub fn compute_keccak256_address(public_key_bytes_65: &[u8]) -> (r: Vec<u8>)
    requires
        public_key_bytes_65@.len() == 65,
    ensures
        r@ == keccak_address_of(public_key_bytes_65@),
        r@.len() == 20,
{
    let coordinates = &public_key_bytes_65[1..65];
    proof {
        assert(coordinates@ =~= public_key_bytes_65@.skip(1));
    }
    let hash = keccak256(coordinates);
    let tail = &hash.as_slice()[12..32];
    proof {
        assert(tail@ =~= keccak256_of(public_key_bytes_65@.skip(1)).skip(12));
    }
    slice_to_vec(tail)
}

/// The Keccak address rendered as `0x` and 40 lowercase hex characters,
/// for byte strings that are a 65-byte uncompressed point with format
/// byte `0x04`; anything else is reported as malformed.
pub fn keccak_address_hex(public_key_bytes: &[u8]) -> (r: Result<String, KeyError>)
    ensures
        match r {
            Ok(s) => {
                &&& uncompressed_point_shape(public_key_bytes@)
                &&& s@ == seq!['0', 'x'] + hex_seq(keccak_address_of(public_key_bytes@))
                &&& s@.len() == 42
            },
            Err(e) => {
                &&& !uncompressed_point_shape(public_key_bytes@)
                &&& e == KeyError::MalformedPublicKeyBytes
            },
        },
{
    if public_key_bytes.len() != 65 || public_key_bytes[0] != 0x04 {
        return Err(KeyError::MalformedPublicKeyBytes);
    }
    let address = compute_keccak256_address(public_key_bytes);
    let tail = bytes_to_hex(address.as_slice());
    let mut out = String::new();
    push_char(&mut out, '0');
    push_char(&mut out, 'x');
    let r = out.concat(tail.as_str());
    proof {
        assert(r@ =~= seq!['0', 'x'] + hex_seq(keccak_address_of(public_key_bytes@)));
    }
    Ok(r)
}

} // verus!

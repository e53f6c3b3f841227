//! Wallet Import Format: Base58Check over a private scalar with version
//! byte `0x80`.

use vstd::prelude::*;
use crate::base58::{base58_decode_seq, base58_seq};
use crate::base58check::{
    b58check_payload, base58check_decode_seq, base58check_encode, checksum_ok,
};

verus! {

/// The WIF payload of a 32-byte private scalar: version byte `0x80`, the
/// scalar bytes, and the 4-byte double-SHA-256 checksum over both.
pub open spec fn wif_payload(private_key: Seq<u8>) -> Seq<u8> {
    b58check_payload(0x80, private_key)
}

/// Encodes a 32-byte private scalar in Wallet Import Format. Decoding
/// the result and verifying its checksum recovers exactly the version
/// byte `0x80` and the scalar bytes.
pub fn convert_private_key_to_wif(private_key_bytes_32: &[u8]) -> (r: String)
    requires
        private_key_bytes_32@.len() == 32,
    ensures
        r@ == base58_seq(wif_payload(private_key_bytes_32@)),
        base58_decode_seq(r@) == Some(wif_payload(private_key_bytes_32@)),
        wif_payload(private_key_bytes_32@).len() == 37,
        wif_payload(private_key_bytes_32@)[0] == 0x80,
        wif_payload(private_key_bytes_32@).subrange(1, 33) == private_key_bytes_32@,
        checksum_ok(wif_payload(private_key_bytes_32@)),
        base58check_decode_seq(r@) == Some((0x80u8, private_key_bytes_32@)),
{
    base58check_encode(0x80, private_key_bytes_32)
}

} // verus!

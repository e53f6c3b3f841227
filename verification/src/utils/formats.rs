//! The encoding pipeline's user-facing formats: hex, WIF, P2PKH and the
//! mixed-case checksum address, as traits over key byte strings.

use vstd::prelude::*;
use crate::base58::base58_seq;
use crate::base58check::checksum_ok;
use crate::errors::KeyError;
use crate::hashing::{keccak256, keccak256_of};
use crate::hex::{
    bytes_to_hex, bytes_to_hex_ascii, hex_ascii_seq, hex_char, hex_char_of, hex_char_upper,
    hex_char_upper_of, hex_seq, is_hex_char,
};
use crate::text::push_char;
use crate::utils::keccak256::{compute_keccak256_address, keccak_address_of,
    uncompressed_point_shape};
use crate::utils::ripemd160::{compute_ripemd160_address, p2pkh_payload};
use crate::wif::{convert_private_key_to_wif, wif_payload};

verus! {

/// The nibble of `h` that governs position `i` of a hex rendering: the
/// high nibble of byte `i/2` for even `i`, the low nibble for odd `i`.
pub open spec fn nibble_at(h: Seq<u8>, i: int) -> u8 {
    if i % 2 == 0 {
        h[i / 2] / 16
    } else {
        h[i / 2] % 16
    }
}

/// The mixed-case rendering of an address: each hex character is
/// uppercased exactly when the corresponding nibble of the Keccak-256
/// digest of the lowercase rendering's ASCII bytes is at least 8.
pub open spec fn mixed_case_seq(address: Seq<u8>) -> Seq<char> {
    Seq::new(
        2 * address.len(),
        |i: int| if nibble_at(keccak256_of(hex_ascii_seq(address)), i) >= 8 {
            hex_char_upper(nibble_at(address, i))
        } else {
            hex_char(nibble_at(address, i))
        },
    )
}

/// The full mixed-case checksum address of an uncompressed public key:
/// `0x`, then the checksummed rendering of its 20-byte Keccak address.
pub open spec fn mixed_case_address_seq(public_key: Seq<u8>) -> Seq<char> {
    seq!['0', 'x'] + mixed_case_seq(keccak_address_of(public_key))
}

/// Renders a 20-byte address with the mixed-case checksum casing, no
/// prefix. The case pattern is drawn from the Keccak-256 digest of the
/// lowercase rendering, so it is a function of the address alone.
pub fn mixed_case_render(address: &[u8]) -> (r: String)
    requires
        address@.len() == 20,
    ensures
        r@ == mixed_case_seq(address@),
        r@.len() == 40,
        forall|i: int| 0 <= i < r@.len() ==> is_hex_char(#[trigger] r@[i]),
{
    let ascii = bytes_to_hex_ascii(address);
    let hash = keccak256(ascii.as_slice());
    let mut out = String::new();
    let mut i: usize = 0;
    while i < 20
        invariant
            i <= 20,
            address@.len() == 20,
            hash@ == keccak256_of(hex_ascii_seq(address@)),
            hash@.len() == 32,
            out@ == mixed_case_seq(address@).take(2 * i as int),
        decreases 20 - i,
    {
        let b = address[i];
        let hb = hash[i];
        push_char(
            &mut out,
            if hb / 16 >= 8 {
                hex_char_upper_of(b / 16)
            } else {
                hex_char_of(b / 16)
            },
        );
        push_char(
            &mut out,
            if hb % 16 >= 8 {
                hex_char_upper_of(b % 16)
            } else {
                hex_char_of(b % 16)
            },
        );
        i += 1;
        proof {
            assert(out@ =~= mixed_case_seq(address@).take(2 * i as int));
        }
    }
    proof {
        assert(out@ =~= mixed_case_seq(address@));
        assert forall|i2: int| 0 <= i2 < out@.len() implies is_hex_char(#[trigger] out@[i2]) by {
            let n = nibble_at(address@, i2);
            assert(n < 16);
            assert(out@[i2] == hex_char(n) || out@[i2] == hex_char_upper(n));
        }
    }
    out
}

/// The mixed-case checksum address, for byte strings that are a 65-byte
/// uncompressed point with format byte `0x04`; anything else is reported
/// as malformed. The result is `0x` and exactly 40 hex characters, and
/// is the same on every call with the same key.
pub fn mixed_case_checksum_address(public_key_bytes: &[u8]) -> (r: Result<String, KeyError>)
    ensures
        match r {
            Ok(s) => {
                &&& uncompressed_point_shape(public_key_bytes@)
                &&& s@ == mixed_case_address_seq(public_key_bytes@)
                &&& s@.len() == 42
                &&& s@[0] == '0'
                &&& s@[1] == 'x'
                &&& forall|i: int| 2 <= i < 42 ==> is_hex_char(#[trigger] s@[i])
            },
            Err(e) => {
                &&& !uncompressed_point_shape(public_key_bytes@)
                &&& e == KeyError::MalformedPublicKeyBytes
            },
        },
{
    if public_key_bytes.len() != 65 || public_key_bytes[0] != 0x04 {
        return Err(KeyError::MalformedPublicKeyBytes);
    }
    let address = compute_keccak256_address(public_key_bytes);
    let tail = mixed_case_render(address.as_slice());
    let mut out = String::new();
    push_char(&mut out, '0');
    push_char(&mut out, 'x');
    let r = out.concat(tail.as_str());
    proof {
        assert(r@ =~= mixed_case_address_seq(public_key_bytes@));
        assert forall|i: int| 2 <= i < 42 implies is_hex_char(#[trigger] r@[i]) by {
            assert(r@[i] == tail@[i - 2]);
        }
    }
    Ok(r)
}

/// Lowercase hex rendering of key bytes.
pub trait Hex {
    /// The bytes the rendering is of.
    spec fn encoded_bytes(&self) -> Seq<u8>;

    /// Renders the bytes as lowercase hex, two characters per byte, no
    /// separators, no prefix.
    fn hex(self) -> (r: String) where Self: Sized
        ensures
            r@ == hex_seq(self.encoded_bytes()),
            r@.len() == 2 * self.encoded_bytes().len(),
    ;
}

impl Hex for &[u8] {
    open spec fn encoded_bytes(&self) -> Seq<u8> {
        self@
    }

    fn hex(self) -> (r: String) {
        bytes_to_hex(self)
    }
}

/// The mixed-case checksum address of a 65-byte uncompressed public key.
pub trait MixedCaseChecksum {
    /// The bytes of the uncompressed public point.
    spec fn encoded_bytes(&self) -> Seq<u8>;

    /// Renders the key's Keccak address with `0x` prefix and the
    /// checksum-carrying case pattern.
    fn mixed_case_checksum(self) -> (r: String) where Self: Sized
        requires
            self.encoded_bytes().len() == 65,
        ensures
            r@ == mixed_case_address_seq(self.encoded_bytes()),
    ;
}

impl MixedCaseChecksum for &[u8] {
    open spec fn encoded_bytes(&self) -> Seq<u8> {
        self@
    }

    fn mixed_case_checksum(self) -> (r: String) {
        let address = compute_keccak256_address(self);
        let tail = mixed_case_render(address.as_slice());
        let mut out = String::new();
        push_char(&mut out, '0');
        push_char(&mut out, 'x');
        let r = out.concat(tail.as_str());
        proof {
            assert(r@ =~= mixed_case_address_seq(self@));
        }
        r
    }
}

/// The Base58Check P2PKH-style address of a 65-byte uncompressed public
/// key.
pub trait P2PKH {
    /// The bytes of the uncompressed public point.
    spec fn encoded_bytes(&self) -> Seq<u8>;

    /// Encodes `0x00 ∥ RIPEMD-160(SHA-256(key)) ∥ checksum` in Base58.
    fn p2pkh(self) -> (r: String) where Self: Sized
        requires
            self.encoded_bytes().len() == 65,
        ensures
            r@ == base58_seq(p2pkh_payload(self.encoded_bytes())),
            checksum_ok(p2pkh_payload(self.encoded_bytes())),
    ;
}

impl P2PKH for &[u8] {
    open spec fn encoded_bytes(&self) -> Seq<u8> {
        self@
    }

    fn p2pkh(self) -> (r: String) {
        compute_ripemd160_address(self)
    }
}

/// Wallet Import Format of a 32-byte private scalar.
pub trait WIF {
    /// The bytes of the private scalar.
    spec fn encoded_bytes(&self) -> Seq<u8>;

    /// Encodes `0x80 ∥ scalar ∥ checksum` in Base58.
    fn wif(self) -> (r: String) where Self: Sized
        requires
            self.encoded_bytes().len() == 32,
        ensures
            r@ == base58_seq(wif_payload(self.encoded_bytes())),
            checksum_ok(wif_payload(self.encoded_bytes())),
    ;
}

impl WIF for Vec<u8> {
    open spec fn encoded_bytes(&self) -> Seq<u8> {
        self@
    }

    fn wif(self) -> (r: String) {
        convert_private_key_to_wif(self.as_slice())
    }
}

} // verus!

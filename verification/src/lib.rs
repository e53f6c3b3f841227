//! Key-material encoding for two elliptic-curve key families.
//!
//! The library generates key pairs on the Ed25519 and secp256k1 curves
//! (through their curve libraries, behind trusted wrappers) and derives the
//! standard textual encodings of the key bytes: lowercase hex, Base58,
//! Base58Check (WIF for private keys, P2PKH-style addresses for public
//! keys), the raw Keccak-256 address, and the mixed-case checksum address.
//! The encoding pipeline is verified: each encoder's contract pins the
//! output down to a spec-level model of the format, the Base58 codec is
//! proved to round-trip, and the checksummed decoders state exactly which
//! inputs they accept.

pub mod base58;
pub mod base58check;
pub mod curves;
pub mod errors;
pub mod hashing;
pub mod hex;
mod text;
pub mod utils;
pub mod wif;

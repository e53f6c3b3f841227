[package]
name = "wallet_keys"
version = "0.1.0"
edition = "2021"
publish = false

[dependencies]
curve25519-dalek = "4"
k256 = "0.13"
rand = "0.8"
ripemd = "0.1"
sha2 = "0.10"
tiny-keccak = { version = "2", features = ["keccak"] }

[dev-dependencies]
base58 = "0.2"

use curve25519_dalek::constants::ED25519_BASEPOINT_POINT;
use curve25519_dalek::scalar::Scalar;
use wallet_keys::base58check::base58check_decode;
use wallet_keys::curves::ed25519::{ed25519_keypair_from_seed, process as ed25519_process};
use wallet_keys::curves::secp256k1::{
    process as secp256k1_process, secp256k1_keypair_from_private,
};
use wallet_keys::utils::formats::WIF;

fn hex_to_bytes(hex: &str) -> Vec<u8> {
    let hex: String = hex.chars().filter(|c| !c.is_whitespace()).collect();
    (0..hex.len() / 2)
        .map(|i| u8::from_str_radix(&hex[2 * i..2 * i + 2], 16).unwrap())
        .collect()
}

#[test]
fn ed25519_keypair_is_deterministic_in_the_seed() {
    let seed: Vec<u8> = (0u8..64).collect();
    let first = ed25519_keypair_from_seed(&seed);
    let second = ed25519_keypair_from_seed(&seed);
    assert_eq!(first.private_key, second.private_key);
    assert_eq!(first.public_key, second.public_key);
    assert_eq!(first.secret_key, second.secret_key);
}

#[test]
fn ed25519_keypair_matches_curve_library() {
    let seed: Vec<u8> = (0u8..64).collect();
    let keys = ed25519_keypair_from_seed(&seed);
    let mut arr = [0u8; 64];
    arr.copy_from_slice(&seed);
    let scalar = Scalar::from_bytes_mod_order_wide(&arr);
    assert_eq!(keys.private_key, scalar.to_bytes().to_vec());
    let point = &scalar * &ED25519_BASEPOINT_POINT;
    assert_eq!(keys.public_key, point.compress().to_bytes().to_vec());
}

#[test]
fn ed25519_exact_seed_matches_curve_library() {
    let seed: Vec<u8> = (100u8..132).collect();
    let keys = ed25519_keypair_from_seed(&seed);
    let mut arr = [0u8; 32];
    arr.copy_from_slice(&seed);
    let scalar = Scalar::from_bytes_mod_order(arr);
    assert_eq!(keys.private_key, scalar.to_bytes().to_vec());
}

#[test]
fn ed25519_secret_key_is_private_then_public() {
    let keys = ed25519_process().unwrap();
    assert_eq!(keys.private_key.len(), 32);
    assert_eq!(keys.public_key.len(), 32);
    assert_eq!(keys.secret_key.len(), 64);
    assert_eq!(&keys.secret_key[..32], &keys.private_key[..]);
    assert_eq!(&keys.secret_key[32..], &keys.public_key[..]);
}

#[test]
fn secp256k1_public_keys_of_scalar_one_are_the_base_point() {
    let mut key = vec![0u8; 31];
    key.push(1);
    let keys = secp256k1_keypair_from_private(key.clone());
    assert_eq!(keys.private_key, key);
    assert_eq!(
        keys.uncompressed_public_key,
        hex_to_bytes(
            "0479be667ef9dcbbac55a06295ce870b07029bfcdb2dce28d959f2815b16f81798\
             483ada7726a3c4655da4fbfc0e1108a8fd17b448a68554199c47d08ffb10d4b8"
        )
    );
    assert_eq!(
        keys.compressed_public_key,
        hex_to_bytes("0279be667ef9dcbbac55a06295ce870b07029bfcdb2dce28d959f2815b16f81798")
    );
}

#[test]
fn secp256k1_process_yields_well_shaped_keys() {
    let keys = secp256k1_process();
    assert_eq!(keys.private_key.len(), 32);
    assert_eq!(keys.uncompressed_public_key.len(), 65);
    assert_eq!(keys.uncompressed_public_key[0], 0x04);
    assert_eq!(keys.compressed_public_key.len(), 33);
    assert!(keys.compressed_public_key[0] == 0x02 || keys.compressed_public_key[0] == 0x03);
    assert!(keys.private_key.iter().any(|b| *b != 0));
}

#[test]
fn wif_trait_round_trips_a_generated_key() {
    let keys = secp256k1_process();
    let wif = keys.private_key.clone().wif();
    let (version, body) = base58check_decode(&wif).unwrap();
    assert_eq!(version, 0x80);
    assert_eq!(body, keys.private_key);
}

#[test]
fn generated_keys_draw_fresh_entropy() {
    let first = ed25519_process().unwrap();
    let second = ed25519_process().unwrap();
    assert_ne!(first.private_key, second.private_key);
    let first = secp256k1_process();
    let second = secp256k1_process();
    assert_ne!(first.private_key, second.private_key);
}

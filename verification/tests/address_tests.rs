use tiny_keccak::{Hasher, Keccak};
use wallet_keys::errors::KeyError;
use wallet_keys::utils::formats::{mixed_case_checksum_address, Hex, MixedCaseChecksum, P2PKH};
use wallet_keys::utils::keccak256::{compute_keccak256_address, keccak_address_hex};

fn pubkey_of_one() -> Vec<u8> {
    let hex = "0479be667ef9dcbbac55a06295ce870b07029bfcdb2dce28d959f2815b16f81798\
               483ada7726a3c4655da4fbfc0e1108a8fd17b448a68554199c47d08ffb10d4b8";
    hex_to_bytes(hex)
}

fn hex_to_bytes(hex: &str) -> Vec<u8> {
    let hex: String = hex.chars().filter(|c| !c.is_whitespace()).collect();
    (0..hex.len() / 2)
        .map(|i| u8::from_str_radix(&hex[2 * i..2 * i + 2], 16).unwrap())
        .collect()
}

fn keccak256(input: &[u8]) -> [u8; 32] {
    let mut hasher = Keccak::v256();
    hasher.update(input);
    let mut hash = [0u8; 32];
    hasher.finalize(&mut hash);
    hash
}

#[test]
fn keccak_address_of_scalar_one_pubkey() {
    let pubkey = pubkey_of_one();
    let address = compute_keccak256_address(&pubkey);
    assert_eq!(
        address,
        hex_to_bytes("7e5f4552091a69125d5dfcb7b8c2659029395bdf")
    );
}

#[test]
fn keccak_address_matches_direct_hash() {
    let pubkey = pubkey_of_one();
    let address = compute_keccak256_address(&pubkey);
    let hash = keccak256(&pubkey[1..]);
    assert_eq!(address, hash[12..].to_vec());
}

#[test]
fn keccak_address_hex_form() {
    let pubkey = pubkey_of_one();
    let text = keccak_address_hex(&pubkey).unwrap();
    assert_eq!(text, "0x7e5f4552091a69125d5dfcb7b8c2659029395bdf");
}

#[test]
fn keccak_address_hex_rejects_malformed_keys() {
    assert!(matches!(
        keccak_address_hex(&[4u8; 66]),
        Err(KeyError::MalformedPublicKeyBytes)
    ));
    let mut wrong_prefix = pubkey_of_one();
    wrong_prefix[0] = 0x02;
    assert!(matches!(
        keccak_address_hex(&wrong_prefix),
        Err(KeyError::MalformedPublicKeyBytes)
    ));
}

#[test]
fn mixed_case_is_deterministic_and_shaped() {
    let pubkey = pubkey_of_one();
    let first = (&pubkey[..]).mixed_case_checksum();
    let second = (&pubkey[..]).mixed_case_checksum();
    assert_eq!(first, second);
    assert_eq!(first.len(), 42);
    assert!(first.starts_with("0x"));
    assert!(first[2..].chars().all(|c| c.is_ascii_hexdigit()));
}

#[test]
fn mixed_case_known_vector() {
    let pubkey = pubkey_of_one();
    let text = (&pubkey[..]).mixed_case_checksum();
    assert_eq!(text, "0x7E5F4552091A69125d5DfCb7b8C2659029395Bdf");
}

#[test]
fn mixed_case_casing_follows_keccak_of_lowercase_address() {
    let pubkey = pubkey_of_one();
    let text = (&pubkey[..]).mixed_case_checksum();
    let address = compute_keccak256_address(&pubkey);
    let lowercase: String = address.iter().map(|b| format!("{:02x}", b)).collect();
    let checksum_hash = keccak256(lowercase.as_bytes());
    let expected: String = lowercase
        .chars()
        .enumerate()
        .map(|(i, c)| {
            let byte = checksum_hash[i / 2];
            let nibble = if i % 2 == 0 { byte >> 4 } else { byte & 0x0f };
            if nibble >= 8 {
                c.to_ascii_uppercase()
            } else {
                c
            }
        })
        .collect();
    assert_eq!(text, format!("0x{}", expected));
}

#[test]
fn hex_trait_renders_lowercase_pairs() {
    let bytes: Vec<u8> = vec![0x00, 0xff, 0x1a];
    assert_eq!((&bytes[..]).hex(), "00ff1a");
    let empty: Vec<u8> = vec![];
    assert_eq!((&empty[..]).hex(), "");
}

#[test]
fn p2pkh_trait_matches_free_function() {
    let pubkey = pubkey_of_one();
    assert_eq!(
        (&pubkey[..]).p2pkh(),
        wallet_keys::utils::ripemd160::compute_ripemd160_address(&pubkey)
    );
}

#[test]
fn checked_mixed_case_address_matches_trait_and_rejects_malformed() {
    let pubkey = pubkey_of_one();
    let checked = mixed_case_checksum_address(&pubkey).unwrap();
    assert_eq!(checked, (&pubkey[..]).mixed_case_checksum());
    assert!(matches!(
        mixed_case_checksum_address(&pubkey[..64]),
        Err(KeyError::MalformedPublicKeyBytes)
    ));
    let mut wrong_prefix = pubkey_of_one();
    wrong_prefix[0] = 0x00;
    assert!(matches!(
        mixed_case_checksum_address(&wrong_prefix),
        Err(KeyError::MalformedPublicKeyBytes)
    ));
}

use ripemd::Ripemd160;
use sha2::{Digest, Sha256};
use wallet_keys::base58check::{base58check_decode, base58check_encode};
use wallet_keys::errors::KeyError;
use wallet_keys::utils::ripemd160::{base58check_p2pkh, compute_ripemd160_address};
use wallet_keys::wif::convert_private_key_to_wif;

fn pubkey_of_one() -> Vec<u8> {
    // The uncompressed SEC1 encoding of the secp256k1 base point, which
    // is the public key of the private scalar 1.
    let hex = "0479be667ef9dcbbac55a06295ce870b07029bfcdb2dce28d959f2815b16f81798\
               483ada7726a3c4655da4fbfc0e1108a8fd17b448a68554199c47d08ffb10d4b8";
    hex_to_bytes(hex)
}

fn hex_to_bytes(hex: &str) -> Vec<u8> {
    let hex: String = hex.chars().filter(|c| !c.is_whitespace()).collect();
    (0..hex.len() / 2)
        .map(|i| u8::from_str_radix(&hex[2 * i..2 * i + 2], 16).unwrap())
        .collect()
}

#[test]
fn wif_of_scalar_one() {
    let mut key = vec![0u8; 31];
    key.push(1);
    let wif = convert_private_key_to_wif(&key);
    assert_eq!(wif, "5HpHagT65TZzG1PH3CSu63k8DbpvD8s5ip4nEB3kEsreAnchuDf");
}

#[test]
fn wif_concrete_vector_high_scalar() {
    // The scalar whose big-endian bytes are 0x01 followed by 31 zero
    // bytes, valid on the secp256k1 curve.
    let mut key = vec![1u8];
    key.extend_from_slice(&[0u8; 31]);
    let wif = convert_private_key_to_wif(&key);
    assert!(wif.starts_with('5'));
    assert_eq!(wif, "5Hpj8DKG44nNjuTG4mCmPFpnugcNRk98e1K51zfFDWwB4v3WZZc");
    let (version, body) = base58check_decode(&wif).unwrap();
    assert_eq!(version, 0x80);
    assert_eq!(body, key);
}

#[test]
fn wif_decode_recovers_version_and_scalar() {
    let key: Vec<u8> = (100u8..132).collect();
    let wif = convert_private_key_to_wif(&key);
    let (version, body) = base58check_decode(&wif).unwrap();
    assert_eq!(version, 0x80);
    assert_eq!(body, key);
}

#[test]
fn corrupted_encoding_fails_checksum() {
    let key: Vec<u8> = (0u8..32).collect();
    let wif = convert_private_key_to_wif(&key);
    // Replace each character in turn by a different alphabet character;
    // every corrupted string must be rejected.
    let chars: Vec<char> = wif.chars().collect();
    for i in 0..chars.len() {
        let mut corrupted = chars.clone();
        corrupted[i] = if corrupted[i] == 'x' { 'y' } else { 'x' };
        let text: String = corrupted.iter().collect();
        assert!(matches!(
            base58check_decode(&text),
            Err(KeyError::InvalidEncodedInput)
        ));
    }
}

#[test]
fn decode_rejects_bad_characters_and_short_payloads() {
    assert!(matches!(
        base58check_decode("0OIl"),
        Err(KeyError::InvalidEncodedInput)
    ));
    // "11" decodes to two zero bytes: shorter than version plus checksum.
    assert!(matches!(
        base58check_decode("11"),
        Err(KeyError::InvalidEncodedInput)
    ));
}

#[test]
fn encode_decode_round_trip_with_version() {
    let body: Vec<u8> = vec![9, 8, 7, 6, 5];
    let text = base58check_encode(0x42, &body);
    let (version, decoded) = base58check_decode(&text).unwrap();
    assert_eq!(version, 0x42);
    assert_eq!(decoded, body);
}

#[test]
fn p2pkh_decode_recovers_hash_digest() {
    let pubkey = pubkey_of_one();
    let address = compute_ripemd160_address(&pubkey);
    let (version, body) = base58check_decode(&address).unwrap();
    assert_eq!(version, 0x00);
    let digest = Ripemd160::digest(Sha256::digest(&pubkey));
    assert_eq!(body, digest.to_vec());
}

#[test]
fn p2pkh_of_scalar_one_pubkey() {
    let pubkey = pubkey_of_one();
    let address = compute_ripemd160_address(&pubkey);
    assert_eq!(address, "1EHNa6Q4Jz2uvNExL497mE43ikXhwF6kZm");
}

#[test]
fn p2pkh_checked_rejects_malformed_keys() {
    assert!(matches!(
        base58check_p2pkh(&[0u8; 64]),
        Err(KeyError::MalformedPublicKeyBytes)
    ));
    let mut wrong_prefix = pubkey_of_one();
    wrong_prefix[0] = 0x03;
    assert!(matches!(
        base58check_p2pkh(&wrong_prefix),
        Err(KeyError::MalformedPublicKeyBytes)
    ));
    let pubkey = pubkey_of_one();
    assert_eq!(
        base58check_p2pkh(&pubkey).unwrap(),
        compute_ripemd160_address(&pubkey)
    );
}

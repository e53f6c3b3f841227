use base58::ToBase58;
use wallet_keys::base58::{base58_decode, base58_encode};
use wallet_keys::errors::KeyError;

#[test]
fn encode_empty() {
    let bytes: Vec<u8> = vec![];
    assert_eq!(base58_encode(&bytes), "");
}

#[test]
fn encode_known_vector() {
    let bytes = b"Hello World!".to_vec();
    assert_eq!(base58_encode(&bytes), "2NEpo7TZRRrLZSi2U");
}

#[test]
fn encode_matches_reference_crate() {
    let cases: Vec<Vec<u8>> = vec![
        vec![],
        vec![0],
        vec![0, 0, 0],
        vec![1],
        vec![57],
        vec![58],
        vec![0, 0, 1, 2, 3],
        vec![255, 254, 253],
        vec![0x00, 0x61],
        b"Hello World!".to_vec(),
        (0u8..=255).collect(),
    ];
    for bytes in cases {
        assert_eq!(base58_encode(&bytes), bytes.to_base58());
    }
}

#[test]
fn round_trip() {
    let cases: Vec<Vec<u8>> = vec![
        vec![],
        vec![0],
        vec![0, 0, 0, 0],
        vec![0, 0, 7, 0, 0],
        vec![255; 40],
        (0u8..=255).collect(),
    ];
    for bytes in cases {
        let encoded = base58_encode(&bytes);
        assert_eq!(base58_decode(&encoded).unwrap(), bytes);
    }
}

#[test]
fn leading_zero_bytes_become_leading_ones() {
    let bytes = vec![0u8, 0, 0, 5, 200];
    let encoded = base58_encode(&bytes);
    assert!(encoded.starts_with("111"));
    assert!(!encoded.starts_with("1111"));
}

#[test]
fn decode_rejects_characters_outside_alphabet() {
    for text in ["0", "O", "I", "l", "2NEpo7TZ RrrLZSi2U", "abc0def"] {
        assert!(matches!(base58_decode(text), Err(KeyError::InvalidEncodedInput)));
    }
}

#[test]
fn decode_empty_is_empty() {
    assert_eq!(base58_decode("").unwrap(), Vec::<u8>::new());
}

#[test]
fn decode_ones_are_zero_bytes() {
    assert_eq!(base58_decode("1111").unwrap(), vec![0u8, 0, 0, 0]);
}

//! Nonce construction and payload decryption edges.

use sniproxy_ng::quic::decrypt::{construct_nonce, decrypt_initial_payload};

#[test]
fn test_construct_nonce() {
    let iv = [0u8; 12];
    let packet_number = 0x12345678;

    let nonce = construct_nonce(&iv, packet_number).unwrap();

    assert_eq!(nonce.len(), 12);
    let expected = [0, 0, 0, 0, 0x12, 0x34, 0x56, 0x78];
    assert_eq!(&nonce[4..12], &expected[..]);
}

#[test]
fn test_construct_nonce_with_iv() {
    let iv = [0x5b, 0x6c, 0x9f, 0x0e, 0x7e, 0x6a, 0x7b, 0xb4, 0x1d, 0xb6, 0x56, 0x34];
    let packet_number = 0;

    let nonce = construct_nonce(&iv, packet_number).unwrap();

    assert_eq!(nonce.as_slice(), &iv);
}

#[test]
fn test_construct_nonce_invalid_iv_length() {
    let iv = [0u8; 10];
    let packet_number = 0;

    let result = construct_nonce(&iv, packet_number);
    assert!(result.is_err());
}

#[test]
fn test_decrypt_crypto_payload_too_short() {
    // A payload shorter than the AEAD tag cannot decrypt.
    let packet = vec![0u8; 30];
    let key = [0u8; 16];
    let iv = [0u8; 12];
    let result = decrypt_initial_payload(&packet, 10, 5, 1, 0, &key, &iv);
    assert!(result.is_err());
}

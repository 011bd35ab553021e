//! Header protection and packet-number decoding.

use sniproxy_ng::quic::crypto::InitialKeys;
use sniproxy_ng::quic::error::QuicError;
use sniproxy_ng::quic::header::{decode_packet_number, remove_header_protection};

#[test]
fn test_decode_packet_number_1_byte() {
    let pn_bytes = [0x00];
    let decoded = decode_packet_number(&pn_bytes, 0).unwrap();
    assert_eq!(decoded, 0);
}

#[test]
fn test_decode_packet_number_2_bytes() {
    let pn_bytes = [0x01, 0x23];
    let decoded = decode_packet_number(&pn_bytes, 0).unwrap();
    assert_eq!(decoded, 0x0123);
}

#[test]
fn test_decode_packet_number_with_expected() {
    let pn_bytes = [5u8];
    let decoded = decode_packet_number(&pn_bytes, 10000).unwrap();
    assert_eq!(decoded, 9989);
}

#[test]
fn test_decode_packet_number_rollover() {
    let pn_bytes = [0x00];
    let decoded = decode_packet_number(&pn_bytes, 255).unwrap();
    assert_eq!(decoded, 256);
}

#[test]
fn test_decode_packet_number_4_bytes() {
    let pn_bytes = [0x12, 0x34, 0x56, 0x78];
    let decoded = decode_packet_number(&pn_bytes, 0).unwrap();
    assert_eq!(decoded, 0x12345678);
}

#[test]
fn test_decode_packet_number_invalid_length() {
    let pn_bytes = [0x00, 0x01, 0x02, 0x03, 0x04];
    let result = decode_packet_number(&pn_bytes, 0);
    assert!(result.is_err());
    assert!(matches!(result, Err(QuicError::PacketNumberError(_))));
}

#[test]
fn test_remove_header_protection_simple() {
    let pn_bytes = [0x00, 0x01, 0x02, 0x03];
    let decoded = decode_packet_number(&pn_bytes[..1], 0).unwrap();
    assert_eq!(decoded, 0);

    let mut short_packet = vec![0u8; 30];
    let keys = InitialKeys { key: vec![0u8; 16], iv: vec![0u8; 12], hp_key: vec![0u8; 16] };

    let result = remove_header_protection(&mut short_packet, 25, &keys);
    assert!(result.is_err());
}

#[test]
fn test_remove_header_protection_packet_too_short() {
    let mut packet = vec![0u8; 10];
    let keys = InitialKeys { key: vec![0u8; 16], iv: vec![0u8; 12], hp_key: vec![0u8; 16] };

    let result = remove_header_protection(&mut packet, 8, &keys);
    assert!(result.is_err());
    assert!(matches!(result, Err(QuicError::PacketTooShort { .. })));
}

#[test]
fn test_unprotect_twice_restores_first_byte() {
    // The unprotection procedure XORs the same mask twice: the first
    // byte always returns to its original value, and when the mask
    // leaves the packet-number-length bits alone the whole packet does.
    let mut packet: Vec<u8> = (0u8..40u8).collect();
    let original = packet.clone();
    let keys = InitialKeys {
        key: vec![0u8; 16],
        iv: vec![0u8; 12],
        hp_key: vec![0x7a, 0xc8, 0x5c, 0x72, 0x6d, 0xa2, 0x28, 0x6e, 0x7d, 0x5e, 0x4b, 0x49, 0xb1,
            0x66, 0x43, 0x80],
    };
    let (_, _, pn_len1) = remove_header_protection(&mut packet, 10, &keys).unwrap();
    let (_, _, pn_len2) = remove_header_protection(&mut packet, 10, &keys).unwrap();
    assert_eq!(packet[0], original[0]);
    if pn_len1 == pn_len2 {
        assert_eq!(packet, original);
    }
}

//! Wire-format parsing: variable-length integers, DCID extraction and
//! the Initial header layout.

use sniproxy_ng::quic::error::QuicError;
use sniproxy_ng::quic::parser::{encode_varint, extract_dcid, parse_initial_header, parse_varint};

#[test]
fn test_parse_varint() {
    let data = [0x3F];
    let (value, len) = parse_varint(&data).unwrap();
    assert_eq!(value, 63);
    assert_eq!(len, 1);

    let data = [0x7F, 0xFF];
    let (value, len) = parse_varint(&data).unwrap();
    assert_eq!(value, 16383);
    assert_eq!(len, 2);

    let data = [0xBF, 0xFF, 0xFF, 0xFF];
    let (value, len) = parse_varint(&data).unwrap();
    assert_eq!(value, 1073741823);
    assert_eq!(len, 4);
}

#[test]
fn test_parse_varint_truncated() {
    assert!(parse_varint(&[]).is_err());
    assert!(parse_varint(&[0x7F]).is_err());
    assert!(parse_varint(&[0xBF, 0xFF]).is_err());
    assert!(parse_varint(&[0xC0, 0, 0, 0, 0, 0, 0]).is_err());
}

#[test]
fn test_varint_round_trip() {
    let cases: [(u64, usize); 8] = [
        (0, 1),
        (63, 1),
        (0, 2),
        (16383, 2),
        (16384, 4),
        (1073741823, 4),
        (1073741824, 8),
        (4611686018427387903, 8),
    ];
    for (value, width) in cases {
        let encoded = encode_varint(value, width);
        assert_eq!(encoded.len(), width);
        let (decoded, consumed) = parse_varint(encoded.as_slice()).unwrap();
        assert_eq!(decoded, value);
        assert_eq!(consumed, width);
    }
}

#[test]
fn test_extract_dcid_valid_initial_packet() {
    let packet = [
        0xC0, 0x00, 0x00, 0x00, 0x01, 0x08, 0x01, 0x02, 0x03, 0x04, 0x05, 0x06, 0x07, 0x08, 0x08,
        0x11, 0x12, 0x13, 0x14, 0x15, 0x16, 0x17, 0x18, 0x00, 0x05, 0x00, 0x01, 0x02, 0x03, 0x04,
    ];
    let dcid = extract_dcid(&packet).expect("Failed to extract DCID");
    assert_eq!(dcid, &[0x01, 0x02, 0x03, 0x04, 0x05, 0x06, 0x07, 0x08]);
}

#[test]
fn test_extract_dcid_not_initial_packet() {
    let packet = [0x40, 0x00, 0x01, 0x02, 0x03];
    let result = extract_dcid(&packet);
    assert!(result.is_err());
    if let Err(QuicError::NotInitialPacket(b)) = result {
        assert_eq!(b, 0x40);
    } else {
        panic!("Expected NotInitialPacket error");
    }
}

#[test]
fn test_extract_dcid_packet_too_short() {
    let packet = [0xC0, 0x00, 0x00, 0x00, 0x01];
    let result = extract_dcid(&packet);
    assert!(result.is_err());
    assert!(matches!(result, Err(QuicError::PacketTooShort { .. })));
}

#[test]
fn test_parse_initial_header() {
    let packet = [
        0xC0, 0x00, 0x00, 0x00, 0x01, 0x08, 0x01, 0x02, 0x03, 0x04, 0x05, 0x06, 0x07, 0x08, 0x08,
        0x11, 0x12, 0x13, 0x14, 0x15, 0x16, 0x17, 0x18, 0x00, 0x05, 0x00, 0x01, 0x02, 0x03, 0x04,
    ];
    let header = parse_initial_header(&packet).expect("Failed to parse header");
    assert_eq!(header.version, 0x00000001);
    assert_eq!(header.dcid.len(), 8);
    assert_eq!(header.scid.len(), 8);
    assert_eq!(header.token_len, 0);
    assert_eq!(header.payload_len, 5);
    assert_eq!(header.pn_offset, 25);
}

#[test]
fn parser_test_unsupported_version() {
    let packet = [
        0xC0, 0xFF, 0xFF, 0xFF, 0xFF, 0x08, 0x01, 0x02, 0x03, 0x04, 0x05, 0x06, 0x07, 0x08, 0x00,
        0x00, 0x00,
    ];
    let result = parse_initial_header(&packet);
    assert!(result.is_err());
    assert!(matches!(result, Err(QuicError::UnsupportedVersion { .. })));
}

#[test]
fn test_parse_initial_header_truncated_varint() {
    // The token-length varint announces two bytes but only one is left.
    let packet = [
        0xC0, 0x00, 0x00, 0x00, 0x01, 0x02, 0x01, 0x02, 0x00, 0x7F,
    ];
    let result = parse_initial_header(&packet);
    assert!(matches!(result, Err(QuicError::VarIntError(_))));
}

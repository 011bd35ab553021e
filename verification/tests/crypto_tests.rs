//! Initial key schedule: determinism, lengths, and the HkdfLabel wire
//! form.

use sniproxy_ng::quic::crypto::{derive_initial_keys, HkdfLabel};

#[test]
fn test_rfc9001_test_vector_1() {
    let dcid = [0x83, 0x94, 0xc8, 0xf0, 0x3e, 0x51, 0x57, 0x08];

    let keys = derive_initial_keys(&dcid, 0x00000001).expect("Failed to derive keys");

    assert_eq!(keys.key.len(), 16, "Key length should be 16 bytes");
    assert_eq!(keys.iv.len(), 12, "IV length should be 12 bytes");
    assert_eq!(keys.hp_key.len(), 16, "HP key length should be 16 bytes");

    // The client initial key for this DCID begins 0x1f 0x36 under the
    // v1 salt; outputs must also agree across calls.
    assert_eq!(keys.key[0], 0x1f);
    assert_eq!(keys.key[1], 0x36);
    let again = derive_initial_keys(&dcid, 0x00000001).unwrap();
    assert_eq!(keys.key, again.key);
    assert_eq!(keys.iv, again.iv);
    assert_eq!(keys.hp_key, again.hp_key);
}

#[test]
fn test_hkdf_label_serialization() {
    let label = HkdfLabel::new(32, b"client in", b"");

    let bytes = label.as_bytes();

    assert_eq!(bytes[0], 0x00);
    assert_eq!(bytes[1], 0x20);
    assert_eq!(bytes[2], 15);
    assert_eq!(&bytes[3..18], b"tls13 client in");
    assert_eq!(bytes[18], 0);
    assert_eq!(bytes.len(), 19);
}

#[test]
fn test_derive_keys_deterministic() {
    let dcid = [0x01, 0x02, 0x03, 0x04];

    let keys1 = derive_initial_keys(&dcid, 0x00000001).unwrap();
    let keys2 = derive_initial_keys(&dcid, 0x00000001).unwrap();

    assert_eq!(keys1.key, keys2.key);
    assert_eq!(keys1.iv, keys2.iv);
    assert_eq!(keys1.hp_key, keys2.hp_key);
}

#[test]
fn test_different_dcids_different_keys() {
    let dcid1 = [0x01, 0x02, 0x03, 0x04];
    let dcid2 = [0x01, 0x02, 0x03, 0x05];

    let keys1 = derive_initial_keys(&dcid1, 0x00000001).unwrap();
    let keys2 = derive_initial_keys(&dcid2, 0x00000001).unwrap();

    assert_ne!(keys1.key, keys2.key);
    assert_ne!(keys1.iv, keys2.iv);
    assert_ne!(keys1.hp_key, keys2.hp_key);
}

#[test]
fn test_empty_dcid() {
    let dcid = [];

    let keys = derive_initial_keys(&dcid, 0x00000001).expect("Empty DCID should work");

    assert_eq!(keys.key.len(), 16);
    assert_eq!(keys.iv.len(), 12);
    assert_eq!(keys.hp_key.len(), 16);
}

#[test]
fn test_long_dcid() {
    let dcid: Vec<u8> = (0..20).collect();

    let keys = derive_initial_keys(&dcid, 0x00000001).expect("Long DCID should work");

    assert_eq!(keys.key.len(), 16);
    assert_eq!(keys.iv.len(), 12);
    assert_eq!(keys.hp_key.len(), 16);
}

//! End-to-end SNI extraction from QUIC Initial packets, including real
//! AES-128-GCM encrypted packets built with the same key schedule.

use sniproxy_ng::config::RulesConfig;
use sniproxy_ng::quic::crypto::{derive_initial_keys_for_role, InitialKeyRole};
use sniproxy_ng::quic::decrypt::extract_sni_from_quic_initial;
use sniproxy_ng::quic::error::QuicError;
use sniproxy_ng::quic::parser::encode_varint;
use sniproxy_ng::quic::reassembly::PendingCryptoMap;
use sniproxy_ng::quic::session::{NetAddr, PacketAction, QuicSession, QuicSessionConfig, QuicSessionManager};
use sniproxy_ng::router::Router;

#[test]
fn test_quic_initial_packet_parsing() {
    let mut packet = vec![
        0xC0, 0x00, 0x00, 0x00, 0x01, 0x08, 0x83, 0x94, 0xc8, 0xf0, 0x3e, 0x51, 0x57, 0x08, 0x08,
        0x11, 0x12, 0x13, 0x14, 0x15, 0x16, 0x17, 0x18, 0x00, 0x20, 0x00, 0x01, 0x02, 0x03, 0x04,
        0x05, 0x06, 0x07, 0x08, 0x09, 0x0a, 0x0b, 0x0c, 0x0d, 0x0e, 0x0f, 0x10, 0x11, 0x12, 0x13,
        0x14, 0x15, 0x16, 0x17, 0x18, 0x19, 0x1a, 0x1b, 0x1c, 0x1d, 0x1e, 0x1f,
    ];

    let mut pending = PendingCryptoMap::new();
    let result = extract_sni_from_quic_initial(&mut packet, &mut pending, 0);

    match result {
        Ok(sni) => {
            println!("Extracted SNI: {:?}", sni);
        },
        Err(e) => {
            println!("Expected error (payload is fake): {:?}", e);
        },
    }
}

#[test]
fn test_non_quic_packet() {
    let mut packet = vec![0x40, 0x00, 0x01, 0x02, 0x03];

    let mut pending = PendingCryptoMap::new();
    let result = extract_sni_from_quic_initial(&mut packet, &mut pending, 0);
    assert!(result.is_err(), "Should fail for non-Initial packet");
}

#[test]
fn test_empty_packet() {
    let mut packet = Vec::new();

    let mut pending = PendingCryptoMap::new();
    let result = extract_sni_from_quic_initial(&mut packet, &mut pending, 0);
    assert!(result.is_err(), "Should fail for empty packet");
}

#[test]
fn test_packet_too_short() {
    let mut packet = vec![0xC0];

    let mut pending = PendingCryptoMap::new();
    let result = extract_sni_from_quic_initial(&mut packet, &mut pending, 0);
    assert!(result.is_err(), "Should fail for too short packet");
}

#[test]
fn quic_integration_test_test_unsupported_version() {
    let mut packet = vec![
        0xC0, 0xFF, 0xFF, 0xFF, 0xFF, 0x08, 0x01, 0x02, 0x03, 0x04, 0x05, 0x06, 0x07, 0x08, 0x00,
        0x00, 0x05, 0x00, 0x01, 0x02, 0x03, 0x04,
    ];

    let mut pending = PendingCryptoMap::new();
    let result = extract_sni_from_quic_initial(&mut packet, &mut pending, 0);
    assert!(result.is_err(), "Should fail for unsupported version");
}

/// A bare TLS ClientHello handshake message carrying one server name.
fn client_hello(name: &[u8]) -> Vec<u8> {
    let mut data = Vec::new();

    data.push(0x01);
    let hs_len_pos = data.len();
    data.push(0);
    data.push(0);
    data.push(0);

    data.extend_from_slice(&[0x03, 0x03]);
    for i in 0u8..32 {
        data.push(i);
    }
    data.push(0x00);
    data.extend_from_slice(&[0x00, 0x02, 0x00, 0x2F]);
    data.push(0x01);
    data.push(0x00);

    let ext_start = data.len();
    data.push(0);
    data.push(0);

    // A filler extension ahead of server_name, so the handshake spans
    // more than one CRYPTO fragment in the reassembly scenario.
    data.extend_from_slice(&[0x00, 0x15, 0x00, 0x5a]);
    for _ in 0..0x5a {
        data.push(0x00);
    }

    data.extend_from_slice(&[0x00, 0x00]);
    let sni_ext_start = data.len();
    data.push(0);
    data.push(0);

    let sni_list_start = data.len();
    data.push(0);
    data.push(0);

    data.push(0x00);
    data.push((name.len() >> 8) as u8);
    data.push((name.len() & 0xFF) as u8);
    data.extend_from_slice(name);

    let sni_list_len = data.len() - sni_list_start - 2;
    data[sni_list_start] = (sni_list_len >> 8) as u8;
    data[sni_list_start + 1] = (sni_list_len & 0xFF) as u8;

    let sni_ext_len = data.len() - sni_ext_start - 2;
    data[sni_ext_start] = (sni_ext_len >> 8) as u8;
    data[sni_ext_start + 1] = (sni_ext_len & 0xFF) as u8;

    let ext_len = data.len() - ext_start - 2;
    data[ext_start] = (ext_len >> 8) as u8;
    data[ext_start + 1] = (ext_len & 0xFF) as u8;

    let hs_len = data.len() - hs_len_pos - 3;
    data[hs_len_pos] = (hs_len >> 16) as u8;
    data[hs_len_pos + 1] = ((hs_len >> 8) & 0xFF) as u8;
    data[hs_len_pos + 2] = (hs_len & 0xFF) as u8;

    data
}

/// Builds a genuine client Initial packet: the CRYPTO fragment is
/// framed, sealed with the client initial keys, and header protection
/// is applied, all as RFC 9001 prescribes.
fn build_initial(dcid: &[u8], crypto_offset: u64, crypto_data: &[u8], pn: u8) -> Vec<u8> {
    let keys = derive_initial_keys_for_role(dcid, 0x00000001, InitialKeyRole::Client).unwrap();

    let mut plain = vec![0x06];
    let off_width = if crypto_offset < 64 { 1 } else { 2 };
    plain.extend_from_slice(encode_varint(crypto_offset, off_width).as_slice());
    plain.extend_from_slice(encode_varint(crypto_data.len() as u64, 2).as_slice());
    plain.extend_from_slice(crypto_data);
    while plain.len() < 24 {
        plain.push(0x00);
    }

    let mut hdr = vec![0xC0];
    hdr.extend_from_slice(&[0x00, 0x00, 0x00, 0x01]);
    hdr.push(dcid.len() as u8);
    hdr.extend_from_slice(dcid);
    hdr.push(0x08);
    hdr.extend_from_slice(&[0x11, 0x12, 0x13, 0x14, 0x15, 0x16, 0x17, 0x18]);
    hdr.push(0x00);
    let payload_len = 1 + plain.len() + 16;
    hdr.extend_from_slice(encode_varint(payload_len as u64, 2).as_slice());
    let pn_offset = hdr.len();
    hdr.push(pn);

    let mut nonce = [0u8; 12];
    nonce.copy_from_slice(&keys.iv);
    nonce[11] ^= pn;

    let unbound = ring::aead::UnboundKey::new(&ring::aead::AES_128_GCM, &keys.key).unwrap();
    let sealing = ring::aead::LessSafeKey::new(unbound);
    let mut ct = plain.clone();
    sealing
        .seal_in_place_append_tag(
            ring::aead::Nonce::assume_unique_for_key(nonce),
            ring::aead::Aad::from(&hdr),
            &mut ct,
        )
        .unwrap();

    let mut packet = hdr;
    packet.extend_from_slice(&ct);

    let hp = ring::aead::quic::HeaderProtectionKey::new(&ring::aead::quic::AES_128, &keys.hp_key)
        .unwrap();
    let sample_start = pn_offset + 4;
    let mask = hp.new_mask(&packet[sample_start..sample_start + 16]).unwrap();
    packet[0] ^= mask[0] & 0x0f;
    packet[pn_offset] ^= mask[1];

    packet
}

#[test]
fn test_extract_sni_from_real_initial() {
    let dcid = [0x83, 0x94, 0xc8, 0xf0, 0x3e, 0x51, 0x57, 0x08];
    let hello = client_hello(b"example.com");
    let mut packet = build_initial(&dcid, 0, &hello, 0);

    let mut pending = PendingCryptoMap::new();
    let result = extract_sni_from_quic_initial(&mut packet, &mut pending, 0);
    assert_eq!(result.unwrap(), Some(b"example.com".to_vec()));
}

#[test]
fn test_sni_reassembly_across_two_initials() {
    let dcid = [0x01, 0x02, 0x03, 0x04, 0x05, 0x06, 0x07, 0x08];
    let hello = client_hello(b"example.com");
    assert!(hello.len() > 150);

    let mut first = build_initial(&dcid, 0, &hello[0..100], 0);
    let mut second = build_initial(&dcid, 100, &hello[100..], 1);

    let mut pending = PendingCryptoMap::new();

    // The first fragment alone is an incomplete ClientHello.
    let r1 = extract_sni_from_quic_initial(&mut first, &mut pending, 0);
    assert!(matches!(r1, Err(QuicError::TlsError(_))));

    // With the second fragment the stream completes and yields the name.
    let r2 = extract_sni_from_quic_initial(&mut second, &mut pending, 10);
    assert_eq!(r2.unwrap(), Some(b"example.com".to_vec()));
}

#[test]
fn test_session_routing_two_packets() {
    let dcid = [0x0a, 0x0b, 0x0c, 0x0d, 0x0e, 0x0f, 0x10, 0x11];
    let hello = client_hello(b"example.com");
    let initial = build_initial(&dcid, 0, &hello, 0);

    let mut mgr = QuicSessionManager::new(
        QuicSessionConfig::default(),
        Router::new(RulesConfig { allow: Vec::new() }),
    );
    let client = NetAddr { ip: 0x0a000001, port: 1234 };

    // First packet: a valid Initial yields an allowed SNI and asks for
    // a session.
    let action = mgr.handle_packet(&initial, client, 0);
    let sni = match action {
        PacketAction::NeedSession(s) => s,
        other => panic!("expected NeedSession, got {:?}", discr(&other)),
    };
    assert_eq!(sni, b"example.com".to_vec());
    assert!(mgr.register_session(QuicSession {
        dcid: dcid.to_vec(),
        sni,
        target_addr: NetAddr { ip: 0x5db8d822, port: 443 },
        client_addr: client,
        last_active: 0,
        created_at: 0,
    }));
    assert_eq!(mgr.session_count(), 1);

    // Second packet: an opaque short-header datagram from the same
    // client 10 ms later is forwarded through the same session and not
    // parsed as QUIC.
    let opaque = vec![0x4f, 0x01, 0x02, 0x03];
    let action = mgr.handle_packet(&opaque, client, 10);
    assert!(matches!(action, PacketAction::Forwarded));
    assert_eq!(mgr.session_count(), 1);

    // Replaying the original Initial forwards via the existing session
    // and creates no second one.
    let action = mgr.handle_packet(&initial, client, 20);
    assert!(matches!(action, PacketAction::Forwarded));
    assert_eq!(mgr.session_count(), 1);
}

fn discr(a: &PacketAction) -> &'static str {
    match a {
        PacketAction::Forwarded => "Forwarded",
        PacketAction::NotHandled => "NotHandled",
        PacketAction::NeedSession(_) => "NeedSession",
    }
}

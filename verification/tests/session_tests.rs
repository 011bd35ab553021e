//! Session-layer decisions: defaults, DCID keying and the session
//! table.

use std::collections::HashMap;

use sniproxy_ng::config::RulesConfig;
use sniproxy_ng::quic::crypto::derive_initial_keys;
use sniproxy_ng::quic::error::QuicError;
use sniproxy_ng::quic::parser::extract_dcid;
use sniproxy_ng::quic::session::{
    NetAddr, PacketAction, QuicSession, QuicSessionConfig, QuicSessionManager,
};
use sniproxy_ng::router::Router;

#[test]
fn test_config_default() {
    let config = QuicSessionConfig::default();
    assert_eq!(config.idle_timeout, 60);
    assert_eq!(config.cleanup_interval, 30);
}

#[test]
fn test_dcid_key() {
    let dcid1 = vec![0x01, 0x02, 0x03];
    let dcid2 = vec![0x01, 0x02, 0x03];
    let dcid3 = vec![0x01, 0x02, 0x04];

    assert_eq!(dcid1, dcid2);
    assert_ne!(dcid1, dcid3);

    let mut map = HashMap::new();
    map.insert(dcid1.clone(), "session1");
    assert_eq!(map.get(&dcid2), Some(&"session1"));
    assert_eq!(map.get(&dcid3), None);
}

fn empty_rules_manager() -> QuicSessionManager {
    QuicSessionManager::new(
        QuicSessionConfig::default(),
        Router::new(RulesConfig { allow: Vec::new() }),
    )
}

fn session_for(client: NetAddr, now_ms: u64) -> QuicSession {
    QuicSession {
        dcid: vec![1, 2, 3],
        sni: b"example.com".to_vec(),
        target_addr: NetAddr { ip: 0x7f000001, port: 443 },
        client_addr: client,
        last_active: now_ms,
        created_at: now_ms,
    }
}

#[test]
fn test_forward_to_existing_session_without_parsing() {
    let mut mgr = empty_rules_manager();
    let client = NetAddr { ip: 0x0a000001, port: 1234 };
    assert!(mgr.register_session(session_for(client, 0)));
    assert_eq!(mgr.session_count(), 1);

    // An opaque short-header packet from a known client is forwarded
    // without any QUIC parsing.
    let opaque = vec![0x40, 0xde, 0xad, 0xbe, 0xef];
    let action = mgr.handle_packet(&opaque, client, 10);
    assert!(matches!(action, PacketAction::Forwarded));
    assert_eq!(mgr.session_count(), 1);
}

#[test]
fn test_register_session_twice_keeps_one() {
    let mut mgr = empty_rules_manager();
    let client = NetAddr { ip: 0x0a000001, port: 1234 };
    assert!(mgr.register_session(session_for(client, 0)));
    assert!(!mgr.register_session(session_for(client, 5)));
    assert_eq!(mgr.session_count(), 1);
}

#[test]
fn test_non_initial_from_unknown_client_not_handled() {
    let mut mgr = empty_rules_manager();
    let client = NetAddr { ip: 0x0a000002, port: 999 };
    let opaque = vec![0x40, 0x00, 0x01];
    let action = mgr.handle_packet(&opaque, client, 0);
    assert!(matches!(action, PacketAction::NotHandled));
    assert_eq!(mgr.session_count(), 0);
}

#[test]
fn test_cleanup_expired_sessions() {
    let mut mgr = empty_rules_manager();
    let a = NetAddr { ip: 1, port: 1 };
    let b = NetAddr { ip: 2, port: 2 };
    assert!(mgr.register_session(session_for(a, 0)));
    assert!(mgr.register_session(session_for(b, 50_000)));
    // At 65 seconds, the session last active at 0 has idled past 60
    // seconds; the one last active at 50 seconds has not.
    let removed = mgr.cleanup_expired_sessions(65_000);
    assert_eq!(removed, 1);
    assert_eq!(mgr.session_count(), 1);
    assert!(!mgr.has_session(a));
    assert!(mgr.has_session(b));
}

#[test]
fn test_module_exports() {
    let keys = derive_initial_keys(&[0x01], 0x00000001);
    assert!(keys.is_ok());
    let packet = [0x40, 0x00];
    let dcid: Result<&[u8], QuicError> = extract_dcid(&packet);
    assert!(dcid.is_err());
    assert!(true, "Module exports work");
}

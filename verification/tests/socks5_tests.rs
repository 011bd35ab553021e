//! SOCKS5 client configuration state and pool parameters.

use sniproxy_ng::socks5::client::Socks5Client;
use sniproxy_ng::socks5::pool::PoolConfig;
use sniproxy_ng::socks5::udp::Socks5UdpClient;

#[test]
fn test_client_creation() {
    let client = Socks5Client::new("127.0.0.1:1080".to_string());
    assert_eq!(client.proxy_addr, "127.0.0.1:1080");
    assert!(client.auth.is_none());
}

#[test]
fn test_client_with_auth() {
    let client = Socks5Client::new("127.0.0.1:1080".to_string())
        .with_auth("user".to_string(), "pass".to_string());

    assert!(client.auth.is_some());
    let (username, password) = client.auth.unwrap();
    assert_eq!(username, "user");
    assert_eq!(password, "pass");
}

#[test]
fn test_udp_client_creation() {
    let client = Socks5UdpClient::new("127.0.0.1:1080".to_string());
    assert_eq!(client.proxy_addr, "127.0.0.1:1080");
    assert!(client.auth.is_none());
}

#[test]
fn test_udp_client_with_auth() {
    let client = Socks5UdpClient::new("127.0.0.1:1080".to_string())
        .with_auth("user".to_string(), "pass".to_string());

    assert!(client.auth.is_some());
    let (username, password) = client.auth.unwrap();
    assert_eq!(username, "user");
    assert_eq!(password, "pass");
}

#[test]
fn test_pool_config_default() {
    let config = PoolConfig::default();
    assert_eq!(config.max_connections, 100);
    assert_eq!(config.idle_timeout, 60);
}

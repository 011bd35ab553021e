//! Host-header extraction.

use sniproxy_ng::http::parser::extract_host;

#[test]
fn test_extract_host_simple() {
    let request = b"GET / HTTP/1.1\r\nHost: www.example.com\r\n\r\n";
    let host = extract_host(request).unwrap();
    assert_eq!(host, b"www.example.com".to_vec());
}

#[test]
fn test_extract_host_with_port() {
    let request = b"GET / HTTP/1.1\r\nHost: www.example.com:8080\r\n\r\n";
    let host = extract_host(request).unwrap();
    assert_eq!(host, b"www.example.com".to_vec());
}

#[test]
fn test_extract_host_case_insensitive() {
    let request = b"GET / HTTP/1.1\r\nhost: www.example.com\r\n\r\n";
    let host = extract_host(request).unwrap();
    assert_eq!(host, b"www.example.com".to_vec());
}

#[test]
fn test_extract_host_with_spaces() {
    let request = b"GET / HTTP/1.1\r\nHost:   www.example.com   \r\n\r\n";
    let host = extract_host(request).unwrap();
    assert_eq!(host, b"www.example.com".to_vec());
}

#[test]
fn test_extract_host_ipv6() {
    let request = b"GET / HTTP/1.1\r\nHost: [::1]:8080\r\n\r\n";
    let host = extract_host(request).unwrap();
    assert_eq!(host, b"[::1]".to_vec());
}

#[test]
fn test_extract_host_not_found() {
    let request = b"GET / HTTP/1.1\r\n\r\n";
    let result = extract_host(request);
    assert!(result.is_err());
}

#[test]
fn test_extract_host_invalid_utf8() {
    let request = b"GET / HTTP/1.1\r\nHost: \xff\xfe\r\n\r\n";
    let result = extract_host(request);
    assert!(result.is_err());
}

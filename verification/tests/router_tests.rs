//! Allow-list pattern matching.

use sniproxy_ng::config::RulesConfig;
use sniproxy_ng::router::Router;

fn router_with(patterns: &[&[u8]]) -> Router {
    let allow: Vec<Vec<u8>> = patterns.iter().map(|p| p.to_vec()).collect();
    Router::new(RulesConfig { allow })
}

#[test]
fn test_empty_rules_allow_all() {
    let router = router_with(&[]);
    assert!(router.is_allowed(b"google.com"));
    assert!(router.is_allowed(b"any.domain.com"));
    assert!(router.is_allowed(b"unknown.com"));
}

#[test]
fn test_wildcard_with_self() {
    let router = router_with(&[b"*google.com"]);
    assert!(router.is_allowed(b"google.com"));
    assert!(router.is_allowed(b"www.google.com"));
    assert!(router.is_allowed(b"mail.google.com"));
    assert!(!router.is_allowed(b"evil.com"));
}

#[test]
fn test_wildcard_subdomain_only() {
    let router = router_with(&[b"*.google.com"]);
    assert!(!router.is_allowed(b"google.com"));
    assert!(router.is_allowed(b"www.google.com"));
    assert!(router.is_allowed(b"mail.google.com"));
    assert!(!router.is_allowed(b"evil.com"));
}

#[test]
fn test_multi_wildcard() {
    let router = router_with(&[b"*.prod.*.internal"]);
    assert!(router.is_allowed(b"web.prod.db.internal"));
    assert!(router.is_allowed(b"api.prod.cache.internal"));
    assert!(router.is_allowed(b"app.prod.api.internal"));
    assert!(router.is_allowed(b"dev.prod.db.internal"));
    assert!(!router.is_allowed(b"web.dev.db.internal"));
    assert!(!router.is_allowed(b"web.prod.db.com"));
}

#[test]
fn test_api_wildcard() {
    let router = router_with(&[b"api.*.com"]);
    assert!(router.is_allowed(b"api.example.com"));
    assert!(router.is_allowed(b"api.foo.com"));
    assert!(router.is_allowed(b"api.bar.com"));
    assert!(!router.is_allowed(b"api.com"));
    assert!(!router.is_allowed(b"www.api.com"));
}

#[test]
fn test_exact_match() {
    let router = router_with(&[b"www.example.com"]);
    assert!(router.is_allowed(b"www.example.com"));
    assert!(!router.is_allowed(b"example.com"));
    assert!(!router.is_allowed(b"www.example.org"));
}

#[test]
fn test_multiple_patterns() {
    let router = router_with(&[b"*.google.com", b"api.*.com", b"*.prod.*.internal"]);
    assert!(router.is_allowed(b"www.google.com"));
    assert!(router.is_allowed(b"mail.google.com"));
    assert!(router.is_allowed(b"api.example.com"));
    assert!(router.is_allowed(b"web.prod.db.internal"));
    assert!(!router.is_allowed(b"evil.com"));
    assert!(!router.is_allowed(b"www.api.com"));
}

#[test]
fn test_asterisk_only() {
    let router = router_with(&[b"*"]);
    assert!(router.is_allowed(b"anything"));
    assert!(router.is_allowed(b"any.domain.com"));
    assert!(router.is_allowed(b"foo.bar.baz"));
}

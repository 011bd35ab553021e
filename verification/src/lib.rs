//! Transparent SNI-routing proxy core: QUIC Initial SNI extraction and
//! UDP relay session management, with verified parsing, key-schedule,
//! header-protection and reassembly logic.

pub mod config;
pub mod http;
pub mod quic;
pub mod router;
pub mod socks5;
pub mod tls;

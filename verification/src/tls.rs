//! TLS ClientHello handling: locating the Server Name Indication in a
//! handshake captured from a TCP stream or a QUIC CRYPTO stream.

pub mod sni;

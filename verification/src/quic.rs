//! QUIC Initial packet handling: wire-format parsing, initial key
//! derivation, header protection removal, payload decryption, CRYPTO
//! frame reassembly and session management.

pub mod crypto;
pub mod decrypt;
pub mod header;
pub mod error;
pub mod parser;
pub mod reassembly;
pub mod session;

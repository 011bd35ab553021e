//! Error type for QUIC Initial SNI extraction.

use vstd::prelude::*;

verus! {

/// Everything that can go wrong while parsing, deriving keys for,
/// unprotecting, decrypting or reassembling a QUIC Initial packet.
#[derive(Debug, Clone)]
pub enum QuicError {
    /// The buffer is shorter than the structure that was being read.
    PacketTooShort { expected: u64, actual: u64 },
    /// The first byte does not announce a long-header Initial packet.
    NotInitialPacket(u8),
    /// Key derivation could not be carried out.
    KeyDerivationFailed(String),
    /// Header protection removal could not be carried out.
    HeaderProtectionFailed(String),
    /// AEAD decryption of the payload failed.
    DecryptionFailed(String),
    /// The packet number could not be decoded.
    PacketNumberError(String),
    /// The decrypted payload's frames could not be parsed.
    CryptoFrameError(String),
    /// The reassembled handshake bytes could not be parsed as TLS.
    TlsError(String),
    /// A variable-length integer could not be decoded.
    VarIntError(String),
    /// The version field names a QUIC version this crate does not accept.
    UnsupportedVersion { version: u32 },
    /// A well-formed ClientHello carried no server name.
    NoSniFound,
}

} // verus!

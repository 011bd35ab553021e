//! Plain-HTTP handling: the Host-header parser the proxy consults when
//! no TLS is involved.

pub mod error;
pub mod parser;

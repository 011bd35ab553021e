//! SOCKS5 client-side state the verified core owns: proxy address and
//! optional credentials, plus connection-pool parameters.  The
//! handshakes themselves are network I/O and live with the surrounding
//! program.

pub mod client;
pub mod pool;
pub mod udp;

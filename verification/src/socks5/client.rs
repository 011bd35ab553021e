//! The TCP CONNECT client's configuration: where the proxy is and how
//! to authenticate.

use vstd::prelude::*;

verus! {

/// A SOCKS5 CONNECT client: the proxy address and optional
/// username/password credentials.
#[derive(Clone)]
pub struct Socks5Client {
    pub proxy_addr: String,
    pub auth: Option<(String, String)>,
}

impl Socks5Client {
    /// A client for the given proxy address, unauthenticated.
    pub fn new(proxy_addr: String) -> (r: Socks5Client)
        ensures
            r.proxy_addr@ == proxy_addr@,
            r.auth is None,
    {
        Socks5Client { proxy_addr, auth: None }
    }

    /// The same client with username/password authentication.
    pub fn with_auth(self, username: String, password: String) -> (r: Socks5Client)
        ensures
            r.proxy_addr@ == self.proxy_addr@,
            r.auth matches Some(a) && a.0@ == username@ && a.1@ == password@,
    {
        Socks5Client { proxy_addr: self.proxy_addr, auth: Some((username, password)) }
    }
}

} // verus!

//! UDP relay session management: one session per client address, with
//! SNI extraction and allow-list checks deciding when a new session may
//! be established.  The surrounding program performs the I/O these
//! decisions call for.

use vstd::prelude::*;

use crate::quic::crypto::InitialKeyRole;
use crate::quic::decrypt::{spec_pending_sni, spec_role_usable};
use crate::quic::parser::{parse_initial_header, spec_parse_initial_header};
use crate::quic::reassembly::{clone_bytes, PendingCryptoMap};
use crate::router::{spec_is_allowed, Router};

verus! {

/// Session timing parameters, in seconds.
#[derive(Debug, Clone, Copy, PartialEq, Eq, Structural)]
pub struct QuicSessionConfig {
    pub idle_timeout: u64,
    pub cleanup_interval: u64,
}

impl Default for QuicSessionConfig {
    /// One minute of idle tolerance, cleaned every thirty seconds.
    fn default() -> (r: QuicSessionConfig)
        ensures
            r.idle_timeout == 60,
            r.cleanup_interval == 30,
    {
        QuicSessionConfig { idle_timeout: 60, cleanup_interval: 30 }
    }
}

/// A socket address as plain values: the IP (IPv4 mapped into the low
/// 32 bits) and the port.
#[derive(Debug, Clone, Copy, PartialEq, Eq, Structural)]
pub struct NetAddr {
    pub ip: u128,
    pub port: u16,
}

/// One relay session: the flow from `client_addr` is forwarded to
/// `target_addr` through the SOCKS5 association the surrounding program
/// holds for it.  Times are milliseconds of the caller's clock.
pub struct QuicSession {
    pub dcid: Vec<u8>,
    pub sni: Vec<u8>,
    pub target_addr: NetAddr,
    pub client_addr: NetAddr,
    pub last_active: u64,
    pub created_at: u64,
}

/// What the session layer decided for one datagram.
pub enum PacketAction {
    /// A session for this client exists; hand the bytes to its relay.
    Forwarded,
    /// Not handled: not a usable Initial, no name yet, or refused.
    NotHandled,
    /// A complete ClientHello yielded this allowed server name; the
    /// caller should establish a relay and register the session.
    NeedSession(Vec<u8>),
}

/// The session table, the per-DCID reassembly buffers and the rules.
pub struct QuicSessionManager {
    pub sessions: Vec<QuicSession>,
    pub pending: PendingCryptoMap,
    pub config: QuicSessionConfig,
    pub router: Router,
}

impl QuicSessionManager {
    /// Well-formedness: one session per client address.
    pub open spec fn wf(&self) -> bool {
        &&& self.pending.wf()
        &&& forall|i: int, j: int|
            0 <= i < j < self.sessions@.len() ==> (#[trigger] self.sessions@[i]).client_addr != (
            #[trigger] self.sessions@[j]).client_addr
    }

    /// Whether a session for this client exists.
    pub open spec fn spec_has_session(&self, client: NetAddr) -> bool {
        exists|i: int|
            0 <= i < self.sessions@.len() && (#[trigger] self.sessions@[i]).client_addr == client
    }

    /// A manager with no sessions.
    pub fn new(config: QuicSessionConfig, router: Router) -> (r: QuicSessionManager)
        ensures
            r.wf(),
            r.sessions@.len() == 0,
            r.config == config,
            r.router.rules.view_patterns() == router.rules.view_patterns(),
    {
        QuicSessionManager {
            sessions: Vec::new(),
            pending: PendingCryptoMap::new(),
            config,
            router,
        }
    }

    /// Whether a session for this client exists.
    pub fn has_session(&self, client: NetAddr) -> (r: bool)
        ensures
            r == self.spec_has_session(client),
    {
        let mut i: usize = 0;
        while i < self.sessions.len()
            invariant
                i <= self.sessions@.len(),
                forall|k: int|
                    0 <= k < i ==> (#[trigger] self.sessions@[k]).client_addr != client,
            decreases self.sessions@.len() - i,
        {
            if self.sessions[i].client_addr.ip == client.ip && self.sessions[i].client_addr.port
                == client.port {
                proof {
                    assert(self.sessions@[i as int].client_addr == client);
                }
                return true;
            }
            i = i + 1;
        }
        false
    }

    /// How many sessions are live.
    pub fn session_count(&self) -> (r: usize)
        ensures
            r == self.sessions@.len(),
    {
        self.sessions.len()
    }

    /// Decides one datagram.  A known client's packet is forwarded
    /// through its session, whose activity time advances, and no QUIC
    /// parsing is attempted; replaying the original Initial once the
    /// session exists therefore forwards it and creates no second
    /// session.  An unknown client's packet is examined: only a
    /// decryptable Initial whose reassembled ClientHello names an
    /// allowed host asks for a session.
    pub fn handle_packet(&mut self, packet: &Vec<u8>, client: NetAddr, now_ms: u64) -> (r:
        PacketAction)
        requires
            old(self).wf(),
        ensures
            final(self).wf(),
            final(self).config == old(self).config,
            final(self).router == old(self).router,
            old(self).spec_has_session(client) ==> {
                &&& r is Forwarded
                &&& final(self).sessions@.len() == old(self).sessions@.len()
                &&& final(self).pending == old(self).pending
                &&& exists|i: int|
                    {
                        &&& 0 <= i < old(self).sessions@.len()
                        &&& (#[trigger] old(self).sessions@[i]).client_addr == client
                        &&& final(self).sessions@ == old(self).sessions@.update(
                            i,
                            QuicSession {
                                last_active: now_ms,
                                ..old(self).sessions@[i]
                            },
                        )
                    }
            },
            !old(self).spec_has_session(client) ==> {
                &&& final(self).sessions@ == old(self).sessions@
                &&& !(r is Forwarded)
                &&& match spec_parse_initial_header(packet@) {
                    Err(_) => r is NotHandled,
                    Ok(h) => {
                        if packet@.len() < h.pn_offset + 20 {
                            r is NotHandled
                        } else {
                            let client_ok = spec_role_usable(
                                packet@,
                                h,
                                InitialKeyRole::Client,
                            );
                            let server_ok = spec_role_usable(
                                packet@,
                                h,
                                InitialKeyRole::Server,
                            );
                            if !client_ok && !server_ok {
                                r is NotHandled
                            } else {
                                let role = if client_ok {
                                    InitialKeyRole::Client
                                } else {
                                    InitialKeyRole::Server
                                };
                                match spec_pending_sni(h.dcid, final(self).pending) {
                                    Err(_) => r is NotHandled,
                                    Ok(None) => r is NotHandled,
                                    Ok(Some(s)) => {
                                        if spec_is_allowed(
                                            old(self).router.rules.view_patterns(),
                                            s,
                                        ) {
                                            r matches PacketAction::NeedSession(v) && v@ == s
                                        } else {
                                            r is NotHandled
                                        }
                                    },
                                }
                            }
                        }
                    },
                }
            },
    {
        let mut i: usize = 0;
        let n = self.sessions.len();
        while i < n && !(self.sessions[i].client_addr.ip == client.ip
            && self.sessions[i].client_addr.port == client.port)
            invariant
                i <= n == self.sessions@.len(),
                *self == *old(self),
                forall|k: int|
                    0 <= k < i ==> (#[trigger] self.sessions@[k]).client_addr != client,
            decreases n - i,
        {
            i = i + 1;
        }
        if i < n {
            proof {
                assert(self.sessions@[i as int].client_addr == client);
            }
            let mut s = self.sessions.remove(i);
            s.last_active = now_ms;
            self.sessions.insert(i, s);
            proof {
                assert(self.sessions@ =~= old(self).sessions@.update(
                    i as int,
                    QuicSession { last_active: now_ms, ..old(self).sessions@[i as int] },
                ));
            }
            return PacketAction::Forwarded;
        }

        if parse_initial_header(packet.as_slice()).is_err() {
            return PacketAction::NotHandled;
        }

        let mut copy = clone_bytes(packet);
        let sni = match crate::quic::decrypt::extract_sni_from_quic_initial(
            &mut copy,
            &mut self.pending,
            now_ms,
        ) {
            Ok(Some(s)) => s,
            Ok(None) => {
                return PacketAction::NotHandled;
            },
            Err(_) => {
                return PacketAction::NotHandled;
            },
        };

        if !self.router.is_allowed(sni.as_slice()) {
            return PacketAction::NotHandled;
        }

        PacketAction::NeedSession(sni)
    }

    /// Adds a session for a client that has none.
    pub fn register_session(&mut self, session: QuicSession) -> (r: bool)
        requires
            old(self).wf(),
        ensures
            final(self).wf(),
            final(self).pending == old(self).pending,
            old(self).spec_has_session(session.client_addr) ==> !r && final(self).sessions@ == old(
                self,
            ).sessions@,
            !old(self).spec_has_session(session.client_addr) ==> r && final(self).sessions@ == old(
                self,
            ).sessions@.push(session),
    {
        if self.has_session(session.client_addr) {
            return false;
        }
        self.sessions.push(session);
        true
    }

    /// Whether a session is still fresh at `now_ms` under an idle
    /// timeout in seconds.
    pub open spec fn spec_fresh(s: QuicSession, now_ms: u64, idle_timeout: u64) -> bool {
        now_ms <= s.last_active || (now_ms - s.last_active) / 1000 < idle_timeout
    }

    /// Drops every session whose idle time has passed the timeout;
    /// returns how many were dropped.
    pub fn cleanup_expired_sessions(&mut self, now_ms: u64) -> (removed: usize)
        requires
            old(self).wf(),
        ensures
            final(self).wf(),
            final(self).pending == old(self).pending,
            final(self).config == old(self).config,
            final(self).sessions@ == old(self).sessions@.filter(
                |s: QuicSession| Self::spec_fresh(s, now_ms, old(self).config.idle_timeout),
            ),
            removed == old(self).sessions@.len() - final(self).sessions@.len(),
    {
        let idle_timeout = self.config.idle_timeout;
        let initial_count = self.sessions.len();
        proof {
            assert(old(self).sessions@.take(0) =~= Seq::<QuicSession>::empty());
            assert(old(self).sessions@.skip(0) =~= old(self).sessions@);
            reveal(Seq::filter);
        }
        let mut i: usize = 0;
        let ghost mut g: int = 0;
        while i < self.sessions.len()
            invariant
                0 <= g <= old(self).sessions@.len(),
                i <= self.sessions@.len(),
                self.pending == old(self).pending,
                self.config == old(self).config,
                self.router == old(self).router,
                idle_timeout == old(self).config.idle_timeout,
                self.sessions@ == old(self).sessions@.take(g).filter(
                    |s: QuicSession| Self::spec_fresh(s, now_ms, idle_timeout),
                ) + old(self).sessions@.skip(g),
                i == old(self).sessions@.take(g).filter(
                    |s: QuicSession| Self::spec_fresh(s, now_ms, idle_timeout),
                ).len(),
                old(self).wf(),
            decreases old(self).sessions@.len() - g,
        {
            proof {
                assert(self.sessions@[i as int] == old(self).sessions@[g]);
                reveal(Seq::filter);
                assert(old(self).sessions@.take(g + 1).drop_last() =~= old(self).sessions@.take(g));
                assert(old(self).sessions@.take(g + 1).last() == old(self).sessions@[g]);
            }
            let s = &self.sessions[i];
            let fresh = now_ms <= s.last_active || (now_ms - s.last_active) / 1000 < idle_timeout;
            if fresh {
                i = i + 1;
            } else {
                self.sessions.remove(i);
            }
            proof {
                g = g + 1;
                assert(self.sessions@ =~= old(self).sessions@.take(g).filter(
                    |s: QuicSession| Self::spec_fresh(s, now_ms, idle_timeout),
                ) + old(self).sessions@.skip(g));
            }
        }
        proof {
            assert(old(self).sessions@.take(g) =~= old(self).sessions@);
            assert(old(self).sessions@.skip(g) =~= Seq::<QuicSession>::empty());
            assert(old(self).sessions@.filter(
                |s: QuicSession| Self::spec_fresh(s, now_ms, idle_timeout),
            ) + Seq::<QuicSession>::empty() =~= old(self).sessions@.filter(
                |s: QuicSession| Self::spec_fresh(s, now_ms, idle_timeout),
            ));
            lemma_filter_len_le(
                old(self).sessions@,
                |s: QuicSession| Self::spec_fresh(s, now_ms, idle_timeout),
            );
            lemma_filter_keeps_distinct_clients(
                old(self).sessions@,
                |s: QuicSession| Self::spec_fresh(s, now_ms, idle_timeout),
            );
        }
        let remaining = self.sessions.len();
        initial_count - remaining
    }
}

/// A filtered sequence is no longer than the original.
proof fn lemma_filter_len_le<A>(v: Seq<A>, pred: spec_fn(A) -> bool)
    ensures
        v.filter(pred).len() <= v.len(),
    decreases v.len(),
{
    reveal(Seq::filter);
    if v.len() > 0 {
        lemma_filter_len_le(v.drop_last(), pred);
    }
}

/// Filtering keeps client addresses pairwise distinct.
proof fn lemma_filter_keeps_distinct_clients(
    v: Seq<QuicSession>,
    pred: spec_fn(QuicSession) -> bool,
)
    requires
        forall|i: int, j: int|
            0 <= i < j < v.len() ==> (#[trigger] v[i]).client_addr != (
            #[trigger] v[j]).client_addr,
    ensures
        forall|i: int, j: int|
            0 <= i < j < v.filter(pred).len() ==> (#[trigger] v.filter(pred)[i]).client_addr != (
            #[trigger] v.filter(pred)[j]).client_addr,
    decreases v.len(),
{
    reveal(Seq::filter);
    if v.len() > 0 {
        let d = v.drop_last();
        lemma_filter_keeps_distinct_clients(d, pred);
        if pred(v.last()) {
            assert forall|k: int|
                0 <= k < d.filter(pred).len() implies (#[trigger] d.filter(
                pred,
            )[k]).client_addr != v.last().client_addr by {
                crate::quic::reassembly::lemma_filter_origin(d, pred, k);
                let j = choose|j: int|
                    0 <= j < d.len() && d[j] == d.filter(pred)[k] && pred(d[j]);
                assert(v[j] == d[j]);
                assert(v[j].client_addr != v[v.len() - 1].client_addr);
            }
        }
    }
}

} // verus!

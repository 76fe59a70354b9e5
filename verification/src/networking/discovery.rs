//! A registry of known peers, each known once by its identifier.
//!
//! Adding a peer whose identifier is already registered replaces the peer
//! already there. Health checks (HTTP requests to each peer's `/health`)
//! are made by the caller, which reports each outcome back as a status.
use vstd::prelude::*;
use core::time::Duration;
use crate::utils::error::{BlazeCacheError, Result};
use crate::utils::text::{decimal, format_decimal};
use crate::utils::time::{current_timestamp, duration_from_secs};

verus! {

/// How a peer last answered.
#[derive(Debug, Clone, Copy, PartialEq, Eq, Structural)]
pub enum PeerStatus {
    Active,
    Inactive,
    Unreachable,
}

/// A known peer.
#[derive(Debug, Clone)]
pub struct PeerInfo {
    /// Its identifier, unique in a registry.
    pub id: String,
    /// Its host.
    pub address: String,
    /// Its port.
    pub port: u16,
    /// The protocol it speaks.
    pub protocol: String,
    /// How it last answered.
    pub status: PeerStatus,
    /// When it was last heard of, in seconds since the Unix epoch.
    pub last_seen: u64,
}

impl PeerInfo {
    /// A field-by-field copy.
    pub fn copy(&self) -> (p: PeerInfo)
        ensures
            p == *self,
    {
        PeerInfo {
            id: self.id.clone(),
            address: self.address.clone(),
            port: self.port,
            protocol: self.protocol.clone(),
            status: self.status,
            last_seen: self.last_seen,
        }
    }
}

/// No two peers share an identifier.
pub open spec fn ids_distinct(s: Seq<PeerInfo>) -> bool {
    forall|i: int, j: int| 0 <= i < j < s.len() ==> s[i].id@ != s[j].id@
}

/// Some peer has identifier `id`.
pub open spec fn has_peer(s: Seq<PeerInfo>, id: Seq<char>) -> bool {
    exists|i: int| 0 <= i < s.len() && s[i].id@ == id
}

/// The position of the peer with identifier `id` (meaningful when there is one).
pub open spec fn index_of_peer(s: Seq<PeerInfo>, id: Seq<char>) -> int {
    choose|i: int| 0 <= i < s.len() && s[i].id@ == id
}

/// The registry after adding `p` to `reg`: it takes the place of the peer
/// with its identifier, or goes last when the identifier is new.
pub open spec fn with_peer(reg: Seq<PeerInfo>, p: PeerInfo) -> Seq<PeerInfo> {
    if has_peer(reg, p.id@) { reg.update(index_of_peer(reg, p.id@), p) } else { reg.push(p) }
}

/// The peers whose status is `Active`, in order.
pub open spec fn active_only(s: Seq<PeerInfo>) -> Seq<PeerInfo>
    decreases s.len(),
{
    if s.len() == 0 {
        s
    } else if s.last().status == PeerStatus::Active {
        active_only(s.drop_last()).push(s.last())
    } else {
        active_only(s.drop_last())
    }
}

/// The peers with the one of identifier `id` given `status`, last seen `now`.
pub open spec fn with_status(s: Seq<PeerInfo>, id: Seq<char>, status: PeerStatus, now: u64) -> Seq<PeerInfo> {
    Seq::new(s.len(), |i: int| if s[i].id@ == id { PeerInfo { status, last_seen: now, ..s[i] } } else { s[i] })
}

/// The URL of a peer's health endpoint: `http://ADDRESS:PORT/health`.
pub open spec fn health_url_of(p: PeerInfo) -> Seq<char> {
    "http://"@ + p.address@ + ":"@ + decimal(p.port as nat) + "/health"@
}

/// The registry of known peers.
pub struct PeerRegistry {
    peers: Vec<PeerInfo>,
    health_check_interval: Duration,
}

impl PeerRegistry {
    /// The registered peers.
    pub closed spec fn peers(&self) -> Seq<PeerInfo> {
        self.peers@
    }

    /// The interval of the health monitor.
    pub closed spec fn health_interval(&self) -> Duration {
        self.health_check_interval
    }

    /// The registry's invariant: identifiers are unique.
    pub open spec fn wf(&self) -> bool {
        ids_distinct(self.peers())
    }

    /// An empty registry checking health every 30 seconds.
    pub fn new() -> (r: Self)
        ensures
            r.wf(),
            r.peers() == Seq::<PeerInfo>::empty(),
            r.health_interval() == duration_from_secs(30),
    {
        PeerRegistry { peers: Vec::new(), health_check_interval: Duration::from_secs(30) }
    }

    /// The interval of the health monitor.
    pub fn health_check_interval(&self) -> (d: Duration)
        ensures
            d == self.health_interval(),
    {
        self.health_check_interval
    }

    fn find(&self, id: &str) -> (r: Option<usize>)
        requires
            self.wf(),
        ensures
            r matches Some(i) ==> i < self.peers().len() && self.peers()[i as int].id@ == id@
                && has_peer(self.peers(), id@) && index_of_peer(self.peers(), id@) == i,
            r is None ==> !has_peer(self.peers(), id@),
    {
        let target = String::from_str(id);
        let mut i: usize = 0;
        while i < self.peers.len()
            invariant
                target@ == id@,
                ids_distinct(self.peers@),
                i <= self.peers@.len(),
                forall|j: int| 0 <= j < i ==> self.peers@[j].id@ != id@,
            decreases self.peers@.len() - i,
        {
            if self.peers[i].id == target {
                proof {
                    let k = index_of_peer(self.peers@, id@);
                    assert(self.peers@[k].id@ == id@);
                }
                return Some(i);
            }
            i = i + 1;
        }
        None
    }

    /// Registers a peer; a peer already registered under its identifier is
    /// replaced by the one given, in the same position.
    pub fn add_peer(&mut self, peer: PeerInfo) -> (r: Result<()>)
        requires
            old(self).wf(),
        ensures
            final(self).wf(),
            r is Ok,
            final(self).peers() == with_peer(old(self).peers(), peer),
    {
        let ghost s = self.peers@;
        let ghost p = peer;
        match self.find(peer.id.as_str()) {
            Some(i) => {
                self.peers.set(i, peer);
                proof {
                    let t = self.peers@;
                    assert(t == s.update(i as int, p));
                    assert forall|a: int, b: int| 0 <= a < b < t.len() implies t[a].id@ != t[b].id@ by {
                        if a == i {
                            assert(t[b] == s[b]);
                        } else if b == i {
                            assert(t[a] == s[a]);
                        } else {
                            assert(t[a] == s[a] && t[b] == s[b]);
                        }
                    }
                }
                Ok(())
            },
            None => {
                self.peers.push(peer);
                proof {
                    let t = self.peers@;
                    assert forall|i: int, j: int| 0 <= i < j < t.len() implies t[i].id@ != t[j].id@ by {
                        if j == t.len() - 1 {
                            assert(t[i] == s[i]);
                            assert(t[j] == p);
                        } else {
                            assert(t[i] == s[i] && t[j] == s[j]);
                        }
                    }
                }
                Ok(())
            },
        }
    }

    /// Removes the peer with identifier `peer_id`; reports whether there was one.
    pub fn remove_peer(&mut self, peer_id: &str) -> (r: Result<bool>)
        requires
            old(self).wf(),
        ensures
            final(self).wf(),
            r == Ok::<bool, BlazeCacheError>(has_peer(old(self).peers(), peer_id@)),
            has_peer(old(self).peers(), peer_id@) ==> final(self).peers()
                == old(self).peers().remove(index_of_peer(old(self).peers(), peer_id@)),
            !has_peer(old(self).peers(), peer_id@) ==> final(self).peers() == old(self).peers(),
    {
        match self.find(peer_id) {
            Some(i) => {
                let ghost s = self.peers@;
                let _ = self.peers.remove(i);
                proof {
                    let t = self.peers@;
                    assert(t == s.remove(i as int));
                    assert forall|a: int, b: int| 0 <= a < b < t.len() implies t[a].id@ != t[b].id@ by {
                        let a0 = if a < i { a } else { a + 1 };
                        let b0 = if b < i { b } else { b + 1 };
                        assert(t[a] == s[a0] && t[b] == s[b0]);
                    }
                }
                Ok(true)
            },
            None => Ok(false),
        }
    }

    /// Whether a peer with identifier `peer_id` is registered.
    pub fn contains(&self, peer_id: &str) -> (b: bool)
        requires
            self.wf(),
        ensures
            b == has_peer(self.peers(), peer_id@),
    {
        self.find(peer_id).is_some()
    }

    /// Copies of all registered peers.
    pub fn list_peers(&self) -> (r: Vec<PeerInfo>)
        ensures
            r@ == self.peers(),
    {
        let mut r: Vec<PeerInfo> = Vec::new();
        let mut i: usize = 0;
        while i < self.peers.len()
            invariant
                i <= self.peers@.len(),
                r@ == self.peers@.subrange(0, i as int),
            decreases self.peers@.len() - i,
        {
            r.push(self.peers[i].copy());
            proof {
                assert(r@ =~= self.peers@.subrange(0, i + 1));
            }
            i = i + 1;
        }
        proof {
            assert(self.peers@.subrange(0, self.peers@.len() as int) =~= self.peers@);
        }
        r
    }

    /// Copies of the registered peers that are active.
    pub fn get_active_peers(&self) -> (r: Vec<PeerInfo>)
        ensures
            r@ == active_only(self.peers()),
    {
        let mut r: Vec<PeerInfo> = Vec::new();
        let mut i: usize = 0;
        while i < self.peers.len()
            invariant
                i <= self.peers@.len(),
                r@ == active_only(self.peers@.subrange(0, i as int)),
            decreases self.peers@.len() - i,
        {
            proof {
                assert(self.peers@.subrange(0, i + 1).drop_last() =~= self.peers@.subrange(0, i as int));
                assert(self.peers@.subrange(0, i + 1).last() == self.peers@[i as int]);
            }
            if self.peers[i].status == PeerStatus::Active {
                r.push(self.peers[i].copy());
            }
            i = i + 1;
        }
        proof {
            assert(self.peers@.subrange(0, self.peers@.len() as int) =~= self.peers@);
        }
        r
    }

    /// Gives the peer with identifier `peer_id`, if any, `status`, last seen
    /// at `now`.
    pub fn update_peer_status_at(&mut self, peer_id: &str, status: PeerStatus, now: u64) -> (r: Result<()>)
        requires
            old(self).wf(),
        ensures
            final(self).wf(),
            r is Ok,
            final(self).peers() == with_status(old(self).peers(), peer_id@, status, now),
    {
        let ghost s = self.peers@;
        let target = String::from_str(peer_id);
        let mut i: usize = 0;
        while i < self.peers.len()
            invariant
                target@ == peer_id@,
                s.len() == self.peers@.len(),
                i <= s.len(),
                forall|j: int| 0 <= j < i ==> self.peers@[j] == with_status(s, peer_id@, status, now)[j],
                forall|j: int| i <= j < s.len() ==> self.peers@[j] == s[j],
            decreases s.len() - i,
        {
            if self.peers[i].id == target {
                let mut p = self.peers[i].copy();
                p.status = status;
                p.last_seen = now;
                self.peers.set(i, p);
            }
            i = i + 1;
        }
        proof {
            let t = self.peers@;
            assert(t =~= with_status(s, peer_id@, status, now));
            assert forall|a: int, b: int| 0 <= a < b < t.len() implies t[a].id@ != t[b].id@ by {
                assert(t[a].id == s[a].id && t[b].id == s[b].id);
            }
        }
        Ok(())
    }

    /// Gives the peer with identifier `peer_id`, if any, `status`, last seen now.
    pub fn update_peer_status(&mut self, peer_id: &str, status: PeerStatus) -> (r: Result<()>)
        requires
            old(self).wf(),
        ensures
            final(self).wf(),
            r is Ok,
            exists|now: u64| final(self).peers() == with_status(old(self).peers(), peer_id@, status, now),
    {
        let now = current_timestamp();
        self.update_peer_status_at(peer_id, status, now)
    }

    /// The status a health check gives: `Active` when the peer answered with
    /// success, else `Unreachable`.
    pub fn health_status(answered_ok: bool) -> (s: PeerStatus)
        ensures
            s == (if answered_ok { PeerStatus::Active } else { PeerStatus::Unreachable }),
    {
        if answered_ok { PeerStatus::Active } else { PeerStatus::Unreachable }
    }

    /// The URL a health check requests for `peer`.
    pub fn health_url(peer: &PeerInfo) -> (u: String)
        ensures
            u@ == health_url_of(*peer),
    {
        let mut u = String::from_str("http://");
        u.append(peer.address.as_str());
        u.append(":");
        let port = format_decimal(peer.port as u64);
        u.append(port.as_str());
        u.append("/health");
        u
    }
}

/// Registering a peer under a new identifier makes it listed; removing it
/// makes it unlisted; the other peers stay.
pub proof fn lemma_add_then_remove(s: Seq<PeerInfo>, p: PeerInfo)
    requires
        ids_distinct(s),
        !has_peer(s, p.id@),
    ensures
        has_peer(s.push(p), p.id@),
        index_of_peer(s.push(p), p.id@) == s.len(),
        s.push(p).remove(s.len() as int) == s,
{
    let t = s.push(p);
    assert(t[s.len() as int] == p);
    let k = index_of_peer(t, p.id@);
    if k < s.len() {
        assert(t[k] == s[k]);
    }
    assert(t.remove(s.len() as int) =~= s);
}

/// A status update changes the status of at most one peer and keeps every
/// identifier.
pub proof fn lemma_update_keeps_ids(s: Seq<PeerInfo>, id: Seq<char>, status: PeerStatus, now: u64)
    ensures
        with_status(s, id, status, now).len() == s.len(),
        forall|i: int| 0 <= i < s.len() ==> (#[trigger] with_status(s, id, status, now)[i]).id == s[i].id,
        forall|i: int| 0 <= i < s.len() && s[i].id@ != id ==> #[trigger] with_status(s, id, status, now)[i] == s[i],
        forall|i: int| 0 <= i < s.len() && s[i].id@ == id ==> (#[trigger] with_status(s, id, status, now)[i]).status == status,
{
}

} // verus!

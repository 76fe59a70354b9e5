//! Gossip-based membership.
//!
//! Each node periodically sends its member list to a few random active
//! peers (or broadcasts it when it knows none), merges the lists it
//! receives, answers pings, and marks peers inactive or unreachable when it
//! has not heard of them for a while. The sockets, timers and the encoding
//! of messages are the caller's; this module keeps the membership state and
//! decides what to send and what each message changes.
use vstd::prelude::*;
use core::time::Duration;
use crate::networking::consistent_hash::string_views;
use crate::networking::discovery::{has_peer, ids_distinct, index_of_peer, with_peer, with_status, PeerInfo, PeerRegistry, PeerStatus};
use crate::utils::text::{all_digits, decimal, digits_value, format_decimal, same_text};
use crate::utils::time::duration_from_secs;
use crate::utils::config::AppConfig;
use crate::networking::consistent_hash::{sorted_by_hash, ConsistentHash};
use vstd::string::StrSliceExecFns;

verus! {

/// A gossip message.
#[derive(Debug, Clone)]
pub enum GossipMessage {
    /// The sender's member list.
    Membership { sender: PeerInfo, members: Vec<PeerInfo>, seq: u64 },
    /// A liveness probe.
    Ping { sender: PeerInfo, seq: u64 },
    /// The answer to a probe.
    Pong { sender: PeerInfo, ping_seq: u64 },
}

/// Gossip settings.
#[derive(Debug, Clone, Copy)]
pub struct GossipConfig {
    /// Time between gossip rounds.
    pub gossip_interval: Duration,
    /// How many peers each round targets.
    pub fanout: usize,
    /// Silence after which a peer is unreachable.
    pub failure_timeout: Duration,
    /// Silence after which an active peer is inactive.
    pub suspicion_timeout: Duration,
    /// Time between failure checks.
    pub failure_check_interval: Duration,
    /// UDP port of gossip.
    pub gossip_port: u16,
}

impl Default for GossipConfig {
    /// A round every second to 3 peers; inactive after 15 s, unreachable
    /// after 30 s, checked every 5 s; port 6785.
    fn default() -> (c: Self)
        ensures
            c.gossip_interval == duration_from_secs(1),
            c.fanout == 3,
            c.failure_timeout == duration_from_secs(30),
            c.suspicion_timeout == duration_from_secs(15),
            c.failure_check_interval == duration_from_secs(5),
            c.gossip_port == 6785,
    {
        GossipConfig {
            gossip_interval: Duration::from_secs(1),
            fanout: 3,
            failure_timeout: Duration::from_secs(30),
            suspicion_timeout: Duration::from_secs(15),
            failure_check_interval: Duration::from_secs(5),
            gossip_port: 6785,
        }
    }
}

/// Counters of gossip activity.
#[derive(Debug, Clone, Copy)]
pub struct GossipMetrics {
    pub membership_sent: u64,
    pub membership_received: u64,
    pub ping_sent: u64,
    pub pong_received: u64,
    pub peers_discovered: u64,
    pub peers_failed: u64,
    pub gossip_rounds: u64,
}

/// All counters zero.
pub open spec fn zero_metrics() -> GossipMetrics {
    GossipMetrics {
        membership_sent: 0,
        membership_received: 0,
        ping_sent: 0,
        pong_received: 0,
        peers_discovered: 0,
        peers_failed: 0,
        gossip_rounds: 0,
    }
}

impl Default for GossipMetrics {
    fn default() -> (m: Self)
        ensures
            m == zero_metrics(),
    {
        GossipMetrics {
            membership_sent: 0,
            membership_received: 0,
            ping_sent: 0,
            pong_received: 0,
            peers_discovered: 0,
            peers_failed: 0,
            gossip_rounds: 0,
        }
    }
}

// ---------------------------------------------------------------------------
// Last-heard times.
// ---------------------------------------------------------------------------

/// No identifier twice.
pub open spec fn seen_distinct(s: Seq<(String, u64)>) -> bool {
    forall|i: int, j: int| 0 <= i < j < s.len() ==> s[i].0@ != s[j].0@
}

/// When a peer was last heard of, if ever.
pub open spec fn seen_at(s: Seq<(String, u64)>, id: Seq<char>) -> Option<u64> {
    if exists|i: int| 0 <= i < s.len() && s[i].0@ == id {
        Some(s[choose|i: int| 0 <= i < s.len() && s[i].0@ == id].1)
    } else {
        None
    }
}

proof fn lemma_seen_at_index(s: Seq<(String, u64)>, id: Seq<char>, i: int)
    requires
        seen_distinct(s),
        0 <= i < s.len(),
        s[i].0@ == id,
    ensures
        seen_at(s, id) == Some(s[i].1),
{
    assert(exists|k: int| 0 <= k < s.len() && s[k].0@ == id);
}

/// The new membership after merging `members` heard from another node:
/// every member that is not this node is added in order, replacing the
/// peer known under its identifier.
pub open spec fn merged(reg: Seq<PeerInfo>, members: Seq<PeerInfo>, local_id: Seq<char>) -> Seq<PeerInfo>
    decreases members.len(),
{
    if members.len() == 0 {
        reg
    } else {
        let r = merged(reg, members.drop_last(), local_id);
        let m = members.last();
        if m.id@ != local_id { with_peer(r, m) } else { r }
    }
}

/// How many members [`merged`] adds.
pub open spec fn merged_count(reg: Seq<PeerInfo>, members: Seq<PeerInfo>, local_id: Seq<char>) -> nat
    decreases members.len(),
{
    if members.len() == 0 {
        0
    } else {
        let r = merged(reg, members.drop_last(), local_id);
        let m = members.last();
        merged_count(reg, members.drop_last(), local_id) + if m.id@ != local_id && !has_peer(r, m.id@) { 1nat } else { 0 }
    }
}

/// The status a failure check gives a peer last heard of `elapsed` seconds
/// ago: unreachable past the failure timeout; past the suspicion timeout an
/// active peer becomes inactive (another keeps its status); otherwise active.
pub open spec fn checked_status(current: PeerStatus, elapsed: u64, failure_secs: u64, suspicion_secs: u64) -> PeerStatus {
    if elapsed > failure_secs {
        PeerStatus::Unreachable
    } else if elapsed > suspicion_secs {
        if current == PeerStatus::Active { PeerStatus::Inactive } else { current }
    } else {
        PeerStatus::Active
    }
}

/// The seconds since a peer was last heard of at time `now` (from 0 when
/// never heard of; 0 when the clock reads earlier).
pub open spec fn silence(s: Seq<(String, u64)>, id: Seq<char>, now: u64) -> u64 {
    let last = match seen_at(s, id) { Some(t) => t, None => 0 };
    if now >= last { (now - last) as u64 } else { 0 }
}

/// The peers after a failure check at `now`: each peer other than this node
/// whose status changes gets it, last seen at `now`.
pub open spec fn after_check(
    peers: Seq<PeerInfo>,
    seen: Seq<(String, u64)>,
    local_id: Seq<char>,
    now: u64,
    failure_secs: u64,
    suspicion_secs: u64,
) -> Seq<PeerInfo> {
    Seq::new(peers.len(), |i: int| {
        let p = peers[i];
        let st = checked_status(p.status, silence(seen, p.id@, now), failure_secs, suspicion_secs);
        if p.id@ != local_id && st != p.status { PeerInfo { status: st, last_seen: now, ..p } } else { p }
    })
}

/// How many peers a failure check at `now` newly marks unreachable.
pub open spec fn failed_count(
    peers: Seq<PeerInfo>,
    seen: Seq<(String, u64)>,
    local_id: Seq<char>,
    now: u64,
    failure_secs: u64,
) -> nat
    decreases peers.len(),
{
    if peers.len() == 0 {
        0
    } else {
        let p = peers.last();
        failed_count(peers.drop_last(), seen, local_id, now, failure_secs) + if p.id@ != local_id
            && silence(seen, p.id@, now) > failure_secs && p.status != PeerStatus::Unreachable { 1nat } else { 0 }
    }
}

/// `x + n` modulo 2^64.
pub open spec fn plus(x: u64, n: nat) -> u64 {
    ((x as int + n) % 0x1_0000_0000_0000_0000) as u64
}

fn add_wrapping(x: u64, n: u64) -> (r: u64)
    ensures
        r == plus(x, n as nat),
{
    let r = x.wrapping_add(n);
    proof {
        let m: int = 0x1_0000_0000_0000_0000;
        if x + n > u64::MAX {
            vstd::arithmetic::div_mod::lemma_small_mod((x + n - m) as nat, m as nat);
            vstd::arithmetic::div_mod::lemma_mod_add_multiples_vanish(x + n - m, m);
        } else {
            vstd::arithmetic::div_mod::lemma_small_mod((x + n) as nat, m as nat);
        }
    }
    r
}

proof fn lemma_plus_step(x: u64, n: nat)
    ensures
        plus(plus(x, n), 1) == plus(x, n + 1),
{
    let m: int = 0x1_0000_0000_0000_0000;
    vstd::arithmetic::div_mod::lemma_add_mod_noop(x as int + n, 1, m);
    vstd::arithmetic::div_mod::lemma_small_mod(1, m as nat);
    vstd::arithmetic::div_mod::lemma_mod_bound(x as int + n, m);
    let y = (x as int + n) % m;
    assert(plus(x, n) as int == y);
}

/// What a gossip round sends.
pub enum RoundPlan {
    /// No active peer is known: broadcast the message to these addresses.
    Broadcast { message: GossipMessage, targets: Vec<String> },
    /// Send the message to these peers' addresses at the gossip port.
    Targeted { message: GossipMessage, peers: Vec<PeerInfo> },
}

/// The membership state of one node.
pub struct GossipState {
    local_peer: PeerInfo,
    registry: PeerRegistry,
    config: GossipConfig,
    seq: u64,
    last_seen: Vec<(String, u64)>,
    metrics: GossipMetrics,
}

impl GossipState {
    /// This node.
    pub closed spec fn local(&self) -> PeerInfo {
        self.local_peer
    }

    /// The known peers.
    pub closed spec fn members(&self) -> Seq<PeerInfo> {
        self.registry.peers()
    }

    /// When each peer was last heard of.
    pub closed spec fn seen(&self) -> Seq<(String, u64)> {
        self.last_seen@
    }

    /// The sequence number of the last membership message.
    pub closed spec fn sequence(&self) -> u64 {
        self.seq
    }

    /// The counters.
    pub closed spec fn counters(&self) -> GossipMetrics {
        self.metrics
    }

    /// The settings.
    pub closed spec fn settings(&self) -> GossipConfig {
        self.config
    }

    /// The state's invariant.
    pub closed spec fn wf(&self) -> bool {
        &&& self.registry.wf()
        &&& seen_distinct(self.last_seen@)
    }

    /// The state of a node joining with `registry`; the node itself is
    /// registered.
    pub fn new(local_peer: PeerInfo, registry: PeerRegistry, config: GossipConfig) -> (g: GossipState)
        requires
            registry.wf(),
        ensures
            g.wf(),
            g.local() == local_peer,
            g.settings() == config,
            g.members() == with_peer(registry.peers(), local_peer),
            g.sequence() == 0,
            g.seen() == Seq::<(String, u64)>::empty(),
            g.counters() == zero_metrics(),
    {
        let mut registry = registry;
        let _ = registry.add_peer(local_peer.copy());
        GossipState {
            local_peer,
            registry,
            config,
            seq: 0,
            last_seen: Vec::new(),
            metrics: GossipMetrics::default(),
        }
    }

    /// The registry of known peers.
    pub fn registry(&self) -> (r: &PeerRegistry)
        ensures
            r.peers() == self.members(),
            self.wf() ==> r.wf(),
    {
        &self.registry
    }

    /// The counters.
    pub fn get_metrics(&self) -> (m: GossipMetrics)
        ensures
            m == self.counters(),
    {
        self.metrics
    }

    /// Records that `id` was heard of at `now`.
    fn heard(&mut self, id: &String, now: u64)
        requires
            old(self).wf(),
        ensures
            final(self).wf(),
            final(self).members() == old(self).members(),
            final(self).local() == old(self).local(),
            final(self).settings() == old(self).settings(),
            final(self).sequence() == old(self).sequence(),
            final(self).counters() == old(self).counters(),
            forall|x: Seq<char>| #[trigger] seen_at(final(self).seen(), x)
                == if x == id@ { Some(now) } else { seen_at(old(self).seen(), x) },
    {
        let ghost s = self.last_seen@;
        let mut i: usize = 0;
        while i < self.last_seen.len()
            invariant
                self.last_seen@ == s,
                s == old(self).last_seen@,
                seen_distinct(s),
                self.registry == old(self).registry,
                self.registry.wf(),
                self.local_peer == old(self).local_peer,
                self.config == old(self).config,
                self.seq == old(self).seq,
                self.metrics == old(self).metrics,
                i <= s.len(),
                forall|j: int| 0 <= j < i ==> s[j].0@ != id@,
            decreases s.len() - i,
        {
            if self.last_seen[i].0 == *id {
                let k = self.last_seen[i].0.clone();
                self.last_seen.set(i, (k, now));
                proof {
                    let t = self.last_seen@;
                    assert forall|a: int, b: int| 0 <= a < b < t.len() implies t[a].0@ != t[b].0@ by {
                        assert(t[a].0 == s[a].0 && t[b].0 == s[b].0);
                    }
                    assert forall|x: Seq<char>| #[trigger] seen_at(t, x) == if x == id@ { Some(now) } else { seen_at(s, x) } by {
                        if x == id@ {
                            lemma_seen_at_index(t, x, i as int);
                        } else if exists|a: int| 0 <= a < s.len() && s[a].0@ == x {
                            let a = choose|a: int| 0 <= a < s.len() && s[a].0@ == x;
                            lemma_seen_at_index(s, x, a);
                            assert(t[a] == s[a]);
                            lemma_seen_at_index(t, x, a);
                        } else {
                            if exists|a: int| 0 <= a < t.len() && t[a].0@ == x {
                                let a = choose|a: int| 0 <= a < t.len() && t[a].0@ == x;
                                assert(t[a].0 == s[a].0);
                            }
                        }
                    }
                }
                return;
            }
            i = i + 1;
        }
        self.last_seen.push((id.clone(), now));
        proof {
            let t = self.last_seen@;
            let n = s.len() as int;
            assert forall|a: int, b: int| 0 <= a < b < t.len() implies t[a].0@ != t[b].0@ by {
                if b == n {
                    assert(t[a] == s[a]);
                } else {
                    assert(t[a] == s[a] && t[b] == s[b]);
                }
            }
            assert forall|x: Seq<char>| #[trigger] seen_at(t, x) == if x == id@ { Some(now) } else { seen_at(s, x) } by {
                if x == id@ {
                    lemma_seen_at_index(t, x, n);
                } else if exists|a: int| 0 <= a < s.len() && s[a].0@ == x {
                    let a = choose|a: int| 0 <= a < s.len() && s[a].0@ == x;
                    lemma_seen_at_index(s, x, a);
                    assert(t[a] == s[a]);
                    lemma_seen_at_index(t, x, a);
                } else {
                    if exists|a: int| 0 <= a < t.len() && t[a].0@ == x {
                        let a = choose|a: int| 0 <= a < t.len() && t[a].0@ == x;
                        if a < n {
                            assert(t[a] == s[a]);
                        }
                    }
                }
            }
        }
    }

    /// Merges a member list heard from `sender` at `now`: the sender and
    /// every member other than this node count as heard of, those members
    /// are added in order (replacing the peers known under their
    /// identifiers), then the sender if it is new; the numbers
    /// of messages received and peers discovered grow accordingly.
    pub fn on_membership(&mut self, sender: PeerInfo, members: Vec<PeerInfo>, now: u64)
        requires
            old(self).wf(),
        ensures
            final(self).wf(),
            final(self).local() == old(self).local(),
            final(self).settings() == old(self).settings(),
            final(self).sequence() == old(self).sequence(),
            ({
                let local_id = old(self).local().id@;
                let m = merged(old(self).members(), members@, local_id);
                let fresh = sender.id@ != local_id && !has_peer(m, sender.id@);
                let added = merged_count(old(self).members(), members@, local_id) + if fresh { 1nat } else { 0 };
                &&& final(self).members() == if fresh { m.push(sender) } else { m }
                &&& final(self).counters() == (GossipMetrics {
                    membership_received: plus(old(self).counters().membership_received, 1),
                    peers_discovered: plus(old(self).counters().peers_discovered, added),
                    ..old(self).counters()
                })
            }),
            seen_at(final(self).seen(), sender.id@) == Some(now),
            forall|k: int| 0 <= k < members@.len() && members@[k].id@ != old(self).local().id@
                ==> seen_at(final(self).seen(), #[trigger] members@[k].id@) == Some(now),
    {
        let ghost m0 = self.metrics;
        let ghost reg0 = self.registry.peers();
        let ghost local_id = self.local_peer.id@;
        self.metrics.membership_received = add_wrapping(self.metrics.membership_received, 1);
        self.heard(&sender.id, now);
        let mut new_peers: u64 = 0;
        let mut i: usize = 0;
        while i < members.len()
            invariant
                self.wf(),
                self.local_peer.id@ == local_id,
                self.local() == old(self).local(),
                self.settings() == old(self).settings(),
                self.sequence() == old(self).sequence(),
                self.metrics == (GossipMetrics {
                    membership_received: plus(m0.membership_received, 1),
                    peers_discovered: plus(m0.peers_discovered, new_peers as nat),
                    ..m0
                }),
                i <= members@.len(),
                self.registry.peers() == merged(reg0, members@.subrange(0, i as int), local_id),
                new_peers as nat == merged_count(reg0, members@.subrange(0, i as int), local_id),
                new_peers <= i,
                seen_at(self.last_seen@, sender.id@) == Some(now),
                forall|k: int| 0 <= k < i && members@[k].id@ != local_id
                    ==> seen_at(self.last_seen@, #[trigger] members@[k].id@) == Some(now),
            decreases members@.len() - i,
        {
            let peer = &members[i];
            proof {
                assert(members@.subrange(0, i + 1).drop_last() =~= members@.subrange(0, i as int));
                assert(members@.subrange(0, i + 1).last() == members@[i as int]);
            }
            if !same_text(peer.id.as_str(), self.local_peer.id.as_str()) {
                let is_new = !self.registry.contains(peer.id.as_str());
                let _ = self.registry.add_peer(peer.copy());
                self.heard(&peer.id, now);
                if is_new {
                    proof { lemma_plus_step(m0.peers_discovered, new_peers as nat); }
                    self.metrics.peers_discovered = add_wrapping(self.metrics.peers_discovered, 1);
                    new_peers = new_peers + 1;
                }
            }
            i = i + 1;
        }
        proof {
            assert(members@.subrange(0, members@.len() as int) =~= members@);
        }
        let sender_is_local = same_text(sender.id.as_str(), self.local_peer.id.as_str());
        if !sender_is_local && !self.registry.contains(sender.id.as_str()) {
            let _ = self.registry.add_peer(sender);
            proof { lemma_plus_step(m0.peers_discovered, new_peers as nat); }
            self.metrics.peers_discovered = add_wrapping(self.metrics.peers_discovered, 1);
        }
    }

    /// Answers a ping from `sender` heard at `now`: the sender counts as
    /// heard of, and the answer is a pong carrying the current sequence number.
    pub fn on_ping(&mut self, sender: &PeerInfo, now: u64) -> (pong: GossipMessage)
        requires
            old(self).wf(),
        ensures
            final(self).wf(),
            final(self).members() == old(self).members(),
            final(self).counters() == old(self).counters(),
            final(self).sequence() == old(self).sequence(),
            final(self).local() == old(self).local(),
            seen_at(final(self).seen(), sender.id@) == Some(now),
            pong matches GossipMessage::Pong { sender: s, ping_seq } && s == old(self).local()
                && ping_seq == old(self).sequence(),
    {
        self.heard(&sender.id, now);
        GossipMessage::Pong { sender: self.local_peer.copy(), ping_seq: self.seq }
    }

    /// Takes a pong from `sender` heard at `now`.
    pub fn on_pong(&mut self, sender: &PeerInfo, now: u64)
        requires
            old(self).wf(),
        ensures
            final(self).wf(),
            final(self).members() == old(self).members(),
            final(self).sequence() == old(self).sequence(),
            final(self).local() == old(self).local(),
            final(self).counters() == (GossipMetrics {
                pong_received: plus(old(self).counters().pong_received, 1),
                ..old(self).counters()
            }),
            seen_at(final(self).seen(), sender.id@) == Some(now),
    {
        self.metrics.pong_received = add_wrapping(self.metrics.pong_received, 1);
        self.heard(&sender.id, now);
    }

    /// The peers a round may target: the active ones other than this node.
    pub fn gossip_candidates(&self) -> (r: Vec<PeerInfo>)
        requires
            self.wf(),
        ensures
            forall|k: int| 0 <= k < r@.len() ==> (#[trigger] r@[k]).status == PeerStatus::Active
                && r@[k].id@ != self.local().id@ && self.members().contains(r@[k]),
            forall|k: int| 0 <= k < self.members().len() && self.members()[k].status == PeerStatus::Active
                && self.members()[k].id@ != self.local().id@ ==> r@.contains(#[trigger] self.members()[k]),
            ids_distinct(r@),
    {
        let all = self.registry.list_peers();
        let mut r: Vec<PeerInfo> = Vec::new();
        let mut i: usize = 0;
        while i < all.len()
            invariant
                all@ == self.members(),
                ids_distinct(all@),
                i <= all@.len(),
                forall|k: int| 0 <= k < r@.len() ==> (#[trigger] r@[k]).status == PeerStatus::Active
                    && r@[k].id@ != self.local().id@ && self.members().contains(r@[k]),
                forall|k: int| 0 <= k < i && all@[k].status == PeerStatus::Active
                    && all@[k].id@ != self.local().id@ ==> r@.contains(#[trigger] all@[k]),
                forall|k: int| 0 <= k < r@.len() ==> exists|j: int| 0 <= j < i && #[trigger] r@[k] == all@[j],
                ids_distinct(r@),
            decreases all@.len() - i,
        {
            if all[i].status == PeerStatus::Active && !same_text(all[i].id.as_str(), self.local_peer.id.as_str()) {
                let ghost before = r@;
                r.push(all[i].copy());
                proof {
                    assert(r@[before.len() as int] == all@[i as int]);
                    assert forall|k: int| 0 <= k < r@.len() implies exists|j: int| 0 <= j < i + 1 && #[trigger] r@[k] == all@[j] by {
                        if k < before.len() {
                            assert(r@[k] == before[k]);
                            let j = choose|j: int| 0 <= j < i && before[k] == all@[j];
                            assert(r@[k] == all@[j]);
                        } else {
                            assert(r@[k] == all@[i as int]);
                        }
                    }
                    assert forall|a: int, b: int| 0 <= a < b < r@.len() implies r@[a].id@ != r@[b].id@ by {
                        if b == before.len() {
                            assert(r@[a] == before[a]);
                            let j = choose|j: int| 0 <= j < i && before[a] == all@[j];
                            assert(all@[j].id@ != all@[i as int].id@);
                        } else {
                            assert(r@[a] == before[a] && r@[b] == before[b]);
                        }
                    }
                    assert forall|k: int| 0 <= k < i + 1 && all@[k].status == PeerStatus::Active
                        && all@[k].id@ != self.local().id@ implies r@.contains(#[trigger] all@[k]) by {
                        if k < i {
                            let w = choose|w: int| 0 <= w < before.len() && before[w] == all@[k];
                            assert(r@[w] == before[w]);
                        }
                    }
                }
            }
            i = i + 1;
        }
        r
    }

    /// Begins a gossip round: the sequence number grows by one and the
    /// message carries the current member list. With no candidate the
    /// message is broadcast; otherwise it goes to the candidates at the first
    /// `fanout` positions of `order`, a permutation of their positions.
    pub fn begin_round(&mut self, candidates: Vec<PeerInfo>, order: Vec<usize>) -> (plan: RoundPlan)
        requires
            old(self).wf(),
            order@.len() == candidates@.len(),
            forall|k: int| 0 <= k < order@.len() ==> (#[trigger] order@[k]) < candidates@.len(),
        ensures
            final(self).wf(),
            final(self).members() == old(self).members(),
            final(self).seen() == old(self).seen(),
            final(self).counters() == old(self).counters(),
            final(self).local() == old(self).local(),
            final(self).sequence() == plus(old(self).sequence(), 1),
            match plan {
                RoundPlan::Broadcast { message, targets } => {
                    &&& candidates@.len() == 0
                    &&& message matches GossipMessage::Membership { sender, members, seq }
                        && sender == old(self).local() && members@ == old(self).members()
                        && seq == final(self).sequence()
                    &&& targets@.len() >= 1
                },
                RoundPlan::Targeted { message, peers } => {
                    &&& candidates@.len() > 0
                    &&& message matches GossipMessage::Membership { sender, members, seq }
                        && sender == old(self).local() && members@ == old(self).members()
                        && seq == final(self).sequence()
                    &&& peers@.len() == if old(self).settings().fanout < candidates@.len() {
                        old(self).settings().fanout as nat
                    } else {
                        candidates@.len()
                    }
                    &&& forall|k: int| 0 <= k < peers@.len() ==> #[trigger] peers@[k] == candidates@[order@[k] as int]
                },
            },
    {
        self.seq = add_wrapping(self.seq, 1);
        let members = self.registry.list_peers();
        let message = GossipMessage::Membership { sender: self.local_peer.copy(), members, seq: self.seq };
        if candidates.len() == 0 {
            let targets = broadcast_targets(self.local_peer.address.as_str(), self.config.gossip_port);
            return RoundPlan::Broadcast { message, targets };
        }
        let take = if self.config.fanout < candidates.len() { self.config.fanout } else { candidates.len() };
        let mut peers: Vec<PeerInfo> = Vec::new();
        let mut i: usize = 0;
        while i < take
            invariant
                take <= candidates@.len(),
                order@.len() == candidates@.len(),
                forall|k: int| 0 <= k < order@.len() ==> (#[trigger] order@[k]) < candidates@.len(),
                i <= take,
                peers@.len() == i,
                forall|k: int| 0 <= k < i ==> #[trigger] peers@[k] == candidates@[order@[k] as int],
            decreases take - i,
        {
            let idx = order[i];
            peers.push(candidates[idx].copy());
            i = i + 1;
        }
        RoundPlan::Targeted { message, peers }
    }

    /// Plans a gossip round over the active peers other than this node, in
    /// an order drawn at random (see [`begin_round`](Self::begin_round)):
    /// with no such peer the membership is broadcast; otherwise it goes to
    /// up to `fanout` of them, each a distinct one.
    pub fn plan_round(&mut self) -> (plan: RoundPlan)
        requires
            old(self).wf(),
        ensures
            final(self).wf(),
            final(self).members() == old(self).members(),
            final(self).seen() == old(self).seen(),
            final(self).counters() == old(self).counters(),
            final(self).local() == old(self).local(),
            final(self).sequence() == plus(old(self).sequence(), 1),
            match plan {
                RoundPlan::Broadcast { message, targets } => {
                    &&& forall|k: int| 0 <= k < old(self).members().len() ==>
                        !(#[trigger] old(self).members()[k].status == PeerStatus::Active
                            && old(self).members()[k].id@ != old(self).local().id@)
                    &&& message matches GossipMessage::Membership { sender, members, seq }
                        && sender == old(self).local() && members@ == old(self).members()
                        && seq == final(self).sequence()
                    &&& targets@.len() >= 1
                },
                RoundPlan::Targeted { message, peers } => {
                    &&& message matches GossipMessage::Membership { sender, members, seq }
                        && sender == old(self).local() && members@ == old(self).members()
                        && seq == final(self).sequence()
                    &&& peers@.len() <= old(self).settings().fanout
                    &&& old(self).settings().fanout > 0 ==> peers@.len() >= 1
                    &&& forall|k: int| 0 <= k < peers@.len() ==> (#[trigger] peers@[k]).status == PeerStatus::Active
                        && peers@[k].id@ != old(self).local().id@ && old(self).members().contains(peers@[k])
                    &&& ids_distinct(peers@)
                },
            },
    {
        let candidates = self.gossip_candidates();
        let ghost cands = candidates@;
        let order = shuffled_positions(candidates.len());
        let plan = self.begin_round(candidates, order);
        proof {
            match &plan {
                RoundPlan::Broadcast { .. } => {
                    assert forall|k: int| 0 <= k < old(self).members().len() implies
                        !(#[trigger] old(self).members()[k].status == PeerStatus::Active
                            && old(self).members()[k].id@ != old(self).local().id@) by {
                        if old(self).members()[k].status == PeerStatus::Active
                            && old(self).members()[k].id@ != old(self).local().id@ {
                            assert(cands.contains(old(self).members()[k]));
                        }
                    }
                },
                RoundPlan::Targeted { peers, .. } => {
                    assert forall|k: int| 0 <= k < peers@.len() implies (#[trigger] peers@[k]).status == PeerStatus::Active
                        && peers@[k].id@ != old(self).local().id@ && old(self).members().contains(peers@[k]) by {
                        assert(peers@[k] == cands[order@[k] as int]);
                    }
                    assert forall|a: int, b: int| 0 <= a < b < peers@.len() implies peers@[a].id@ != peers@[b].id@ by {
                        assert(peers@[a] == cands[order@[a] as int]);
                        assert(peers@[b] == cands[order@[b] as int]);
                        assert(order@[a] != order@[b]);
                        if order@[a] < order@[b] {
                            assert(cands[order@[a] as int].id@ != cands[order@[b] as int].id@);
                        } else {
                            assert(cands[order@[b] as int].id@ != cands[order@[a] as int].id@);
                        }
                    }
                },
            }
        }
        plan
    }

    /// Ends a round that sent the membership to `sent` peers.
    pub fn end_round(&mut self, sent: u64)
        ensures
            final(self).members() == old(self).members(),
            final(self).seen() == old(self).seen(),
            final(self).sequence() == old(self).sequence(),
            final(self).local() == old(self).local(),
            final(self).wf() == old(self).wf(),
            final(self).counters() == (GossipMetrics {
                membership_sent: plus(old(self).counters().membership_sent, sent as nat),
                gossip_rounds: plus(old(self).counters().gossip_rounds, 1),
                ..old(self).counters()
            }),
    {
        self.metrics.membership_sent = add_wrapping(self.metrics.membership_sent, sent);
        self.metrics.gossip_rounds = add_wrapping(self.metrics.gossip_rounds, 1);
    }

    /// Ends a broadcast round: it counts only when some broadcast was sent.
    pub fn end_broadcast(&mut self, sent_any: bool)
        ensures
            final(self).members() == old(self).members(),
            final(self).seen() == old(self).seen(),
            final(self).sequence() == old(self).sequence(),
            final(self).local() == old(self).local(),
            final(self).wf() == old(self).wf(),
            sent_any ==> final(self).counters() == (GossipMetrics {
                membership_sent: plus(old(self).counters().membership_sent, 1),
                gossip_rounds: plus(old(self).counters().gossip_rounds, 1),
                ..old(self).counters()
            }),
            !sent_any ==> final(self).counters() == old(self).counters(),
    {
        if sent_any {
            self.end_round(1);
        }
    }

    /// Checks for failures at `now`: see [`checked_status`]; each changed
    /// peer is last seen at `now`, and the number of peers failed grows by
    /// the peers newly marked unreachable.
    pub fn check_failures_at(&mut self, now: u64)
        requires
            old(self).wf(),
        ensures
            final(self).wf(),
            final(self).local() == old(self).local(),
            final(self).seen() == old(self).seen(),
            final(self).sequence() == old(self).sequence(),
            ({
                let fs = old(self).settings().failure_timeout;
                let ss = old(self).settings().suspicion_timeout;
                forall|f: u64, s: u64| fs == #[trigger] duration_from_secs(f) && ss == #[trigger] duration_from_secs(s) ==> {
                    &&& final(self).members() == after_check(old(self).members(), old(self).seen(), old(self).local().id@, now, f, s)
                    &&& final(self).counters() == (GossipMetrics {
                        peers_failed: plus(old(self).counters().peers_failed,
                            failed_count(old(self).members(), old(self).seen(), old(self).local().id@, now, f)),
                        ..old(self).counters()
                    })
                }
            }),
    {
        let failure_secs = self.config.failure_timeout.as_secs();
        let suspicion_secs = self.config.suspicion_timeout.as_secs();
        let peers = self.registry.list_peers();
        let ghost p0 = peers@;
        let ghost seen0 = self.last_seen@;
        let ghost local_id = self.local_peer.id@;
        let ghost m0 = self.metrics;
        let mut failed: u64 = 0;
        let mut i: usize = 0;
        while i < peers.len()
            invariant
                self.wf(),
                peers@ == p0,
                ids_distinct(p0),
                self.last_seen@ == seen0,
                self.local_peer.id@ == local_id,
                self.local() == old(self).local(),
                self.settings() == old(self).settings(),
                self.sequence() == old(self).sequence(),
                self.metrics == m0,
                i <= p0.len(),
                failed <= i,
                failed as nat == failed_count(p0.subrange(0, i as int), seen0, local_id, now, failure_secs),
                self.registry.peers().len() == p0.len(),
                forall|j: int| 0 <= j < i ==> #[trigger] self.registry.peers()[j]
                    == after_check(p0, seen0, local_id, now, failure_secs, suspicion_secs)[j],
                forall|j: int| i <= j < p0.len() ==> #[trigger] self.registry.peers()[j] == p0[j],
            decreases p0.len() - i,
        {
            let p = &peers[i];
            let last = self.last_seen_of(&p.id);
            let elapsed = now.saturating_sub(last);
            proof {
                assert(elapsed == silence(seen0, p.id@, now));
                assert(p0.subrange(0, i + 1).drop_last() =~= p0.subrange(0, i as int));
                assert(p0.subrange(0, i + 1).last() == p0[i as int]);
            }
            if !same_text(p.id.as_str(), self.local_peer.id.as_str()) {
                let new_status = if elapsed > failure_secs {
                    PeerStatus::Unreachable
                } else if elapsed > suspicion_secs {
                    if p.status == PeerStatus::Active { PeerStatus::Inactive } else { p.status }
                } else {
                    PeerStatus::Active
                };
                if new_status != p.status {
                    let ghost before = self.registry.peers();
                    proof {
                        assert(ids_distinct(before)) by {
                            assert forall|a: int, b: int| 0 <= a < b < before.len() implies before[a].id@ != before[b].id@ by {
                                assert(before[a].id == p0[a].id && before[b].id == p0[b].id) by {
                                    if a < i { assert(before[a] == after_check(p0, seen0, local_id, now, failure_secs, suspicion_secs)[a]); }
                                    if b < i { assert(before[b] == after_check(p0, seen0, local_id, now, failure_secs, suspicion_secs)[b]); }
                                }
                            }
                        }
                    }
                    let _ = self.registry.update_peer_status_at(p.id.as_str(), new_status, now);
                    proof {
                        let after = self.registry.peers();
                        assert(after == with_status(before, p.id@, new_status, now));
                        assert forall|j: int| 0 <= j < before.len() && j != i implies #[trigger] after[j] == before[j] by {
                            assert(before[j].id@ != p.id@) by {
                                if j < i {
                                    assert(before[j] == after_check(p0, seen0, local_id, now, failure_secs, suspicion_secs)[j]);
                                }
                                assert(before[j].id == p0[j].id);
                            }
                        }
                    }
                    if elapsed > failure_secs {
                        failed = failed + 1;
                    }
                }
            }
            i = i + 1;
        }
        proof {
            assert(p0.subrange(0, p0.len() as int) =~= p0);
            assert(self.registry.peers() =~= after_check(p0, seen0, local_id, now, failure_secs, suspicion_secs));
        }
        self.metrics.peers_failed = add_wrapping(self.metrics.peers_failed, failed);
    }

    fn last_seen_of(&self, id: &String) -> (t: u64)
        requires
            seen_distinct(self.last_seen@),
        ensures
            t == match seen_at(self.last_seen@, id@) { Some(x) => x, None => 0 },
    {
        let mut i: usize = 0;
        while i < self.last_seen.len()
            invariant
                seen_distinct(self.last_seen@),
                i <= self.last_seen@.len(),
                forall|j: int| 0 <= j < i ==> self.last_seen@[j].0@ != id@,
            decreases self.last_seen@.len() - i,
        {
            if self.last_seen[i].0 == *id {
                proof {
                    lemma_seen_at_index(self.last_seen@, id@, i as int);
                }
                return self.last_seen[i].1;
            }
            i = i + 1;
        }
        0
    }
}

// ---------------------------------------------------------------------------
// Broadcast addresses.
// ---------------------------------------------------------------------------

/// The pieces of a text between dots, in order (one more than there are
/// dots).
pub open spec fn dot_fields(s: Seq<char>) -> Seq<Seq<char>>
    decreases s.len(),
{
    if s.len() == 0 {
        seq![Seq::empty()]
    } else {
        let f = dot_fields(s.drop_last());
        if s.last() == '.' {
            f.push(Seq::empty())
        } else {
            f.update(f.len() - 1, f[f.len() - 1].push(s.last()))
        }
    }
}

/// A decimal octet: one to three ASCII digits, without a leading zero
/// (unless the octet is `0`), worth at most 255.
pub open spec fn octet_of(s: Seq<char>) -> Option<u8> {
    if 1 <= s.len() <= 3 && all_digits(s) && !(s.len() > 1 && s[0] == '0') && digits_value(s) <= 255 {
        Some(digits_value(s) as u8)
    } else {
        None
    }
}

/// What `Ipv4Addr::from_str` gives for an address in dot-decimal notation:
/// exactly four decimal octets separated by dots; anything else does not
/// parse.
pub open spec fn ipv4_octets(s: Seq<char>) -> Option<(u8, u8, u8, u8)> {
    let f = dot_fields(s);
    if f.len() == 4 && octet_of(f[0]) is Some && octet_of(f[1]) is Some && octet_of(f[2]) is Some
        && octet_of(f[3]) is Some {
        Some((octet_of(f[0])->0, octet_of(f[1])->0, octet_of(f[2])->0, octet_of(f[3])->0))
    } else {
        None
    }
}

/// `Ipv4Addr::from_str`, with the octets of the result.
///
/// Trusted: the result is [`ipv4_octets`] of the text: the documented
/// textual form of `Ipv4Addr` is four octets in decimal notation divided by
/// `.`, with octal (a leading `0`) and hexadecimal forms not allowed.
#[verifier::external_body]
fn parse_ipv4(s: &str) -> (r: Option<(u8, u8, u8, u8)>)
    ensures
        r == ipv4_octets(s@),
{
    match s.parse::<core::net::Ipv4Addr>() {
        Ok(a) => {
            let o = a.octets();
            Some((o[0], o[1], o[2], o[3]))
        },
        Err(_) => None,
    }
}

/// `a` comes before `b` in character order.
pub open spec fn text_less(a: Seq<char>, b: Seq<char>) -> bool
    decreases a.len(),
{
    if b.len() == 0 {
        false
    } else if a.len() == 0 {
        true
    } else if a[0] != b[0] {
        a[0] < b[0]
    } else {
        text_less(a.drop_first(), b.drop_first())
    }
}

/// Whether `a` comes before `b` in character order.
pub fn text_lt(a: &str, b: &str) -> (r: bool)
    ensures
        r == text_less(a@, b@),
{
    let n = a.unicode_len();
    let m = b.unicode_len();
    let mut i: usize = 0;
    proof {
        assert(a@.subrange(0, n as int) =~= a@);
        assert(b@.subrange(0, m as int) =~= b@);
    }
    while i < n && i < m
        invariant
            n == a@.len(),
            m == b@.len(),
            i <= n,
            i <= m,
            text_less(a@, b@) == text_less(a@.subrange(i as int, n as int), b@.subrange(i as int, m as int)),
        decreases n - i,
    {
        let x = a.get_char(i);
        let y = b.get_char(i);
        proof {
            assert(a@.subrange(i as int, n as int)[0] == x);
            assert(b@.subrange(i as int, m as int)[0] == y);
            assert(a@.subrange(i as int, n as int).drop_first() =~= a@.subrange(i + 1, n as int));
            assert(b@.subrange(i as int, m as int).drop_first() =~= b@.subrange(i + 1, m as int));
        }
        if x != y {
            return x < y;
        }
        i = i + 1;
    }
    i == n && i < m
}

/// `a.b.c.d:port` as text.
pub open spec fn address_text(a: nat, b: nat, c: nat, d: nat, port: nat) -> Seq<char> {
    decimal(a) + "."@ + decimal(b) + "."@ + decimal(c) + "."@ + decimal(d) + ":"@ + decimal(port)
}

fn address_string(a: u8, b: u8, c: u8, d: u8, port: u16) -> (s: String)
    ensures
        s@ == address_text(a as nat, b as nat, c as nat, d as nat, port as nat),
{
    let mut s = format_decimal(a as u64);
    s.append(".");
    let t = format_decimal(b as u64);
    s.append(t.as_str());
    s.append(".");
    let t = format_decimal(c as u64);
    s.append(t.as_str());
    s.append(".");
    let t = format_decimal(d as u64);
    s.append(t.as_str());
    s.append(":");
    let t = format_decimal(port as u64);
    s.append(t.as_str());
    s
}

/// The candidate broadcast addresses for a node at `address`: the global
/// broadcast, and when the address is IPv4 `a.b.c.d` also `a.b.c.255` and
/// `a.b.255.255`, all at `port`.
pub open spec fn broadcast_candidates(address: Seq<char>, port: u16) -> Seq<Seq<char>> {
    let global = address_text(255, 255, 255, 255, port as nat);
    match ipv4_octets(address) {
        Some((a, b, c, _)) => seq![
            global,
            address_text(a as nat, b as nat, c as nat, 255, port as nat),
            address_text(a as nat, b as nat, 255, 255, port as nat),
        ],
        None => seq![global],
    }
}

/// The texts are in strictly increasing character order.
pub open spec fn strictly_sorted(s: Seq<Seq<char>>) -> bool {
    forall|i: int| 0 <= i < s.len() - 1 ==> text_less(#[trigger] s[i], s[i + 1])
}

proof fn lemma_text_less_irreflexive(a: Seq<char>)
    ensures
        !text_less(a, a),
    decreases a.len(),
{
    if a.len() > 0 {
        lemma_text_less_irreflexive(a.drop_first());
    }
}

proof fn lemma_text_less_total(a: Seq<char>, b: Seq<char>)
    ensures
        a == b || text_less(a, b) || text_less(b, a),
    decreases a.len(),
{
    if a.len() > 0 && b.len() > 0 && a[0] == b[0] {
        lemma_text_less_total(a.drop_first(), b.drop_first());
        if a.drop_first() == b.drop_first() {
            assert(a =~= seq![a[0]] + a.drop_first());
            assert(b =~= seq![b[0]] + b.drop_first());
        }
    } else if a.len() == 0 && b.len() == 0 {
        assert(a =~= b);
    }
}

proof fn lemma_text_less_asymmetric(a: Seq<char>, b: Seq<char>)
    requires
        text_less(a, b),
    ensures
        !text_less(b, a),
    decreases a.len(),
{
    if a.len() > 0 && b.len() > 0 && a[0] == b[0] {
        lemma_text_less_asymmetric(a.drop_first(), b.drop_first());
    }
}

proof fn lemma_text_less_transitive(a: Seq<char>, b: Seq<char>, c: Seq<char>)
    requires
        text_less(a, b),
        text_less(b, c),
    ensures
        text_less(a, c),
    decreases a.len(),
{
    if a.len() > 0 && b.len() > 0 && c.len() > 0 && a[0] == b[0] && b[0] == c[0] {
        lemma_text_less_transitive(a.drop_first(), b.drop_first(), c.drop_first());
    }
}

/// Inserts `x` into strictly sorted `v`, unless it is already there.
fn insert_sorted(v: &mut Vec<String>, x: String)
    requires
        strictly_sorted(string_views(old(v)@)),
    ensures
        strictly_sorted(string_views(final(v)@)),
        forall|t: Seq<char>| #[trigger] string_views(final(v)@).contains(t)
            <==> (string_views(old(v)@).contains(t) || t == x@),
{
    let ghost s0 = string_views(v@);
    let mut i: usize = 0;
    while i < v.len() && text_lt(v[i].as_str(), x.as_str())
        invariant
            string_views(v@) == s0,
            strictly_sorted(s0),
            i <= s0.len(),
            forall|j: int| 0 <= j < i ==> text_less(#[trigger] s0[j], x@),
        decreases s0.len() - i,
    {
        proof {
            assert(s0[i as int] == v@[i as int]@);
        }
        i = i + 1;
    }
    proof {
        assert forall|a: int, b: int| 0 <= a < b < s0.len() implies text_less(s0[a], s0[b]) by {
            lemma_sorted_pair(s0, a, b);
        }
    }
    if i < v.len() && same_text(v[i].as_str(), x.as_str()) {
        proof {
            assert(s0[i as int] == x@);
        }
        return;
    }
    v.insert(i, x);
    proof {
        let t = string_views(v@);
        assert(t =~= s0.insert(i as int, x@));
        if i < s0.len() {
            assert(s0[i as int] == v@[i + 1]@);
            lemma_text_less_total(s0[i as int], x@);
        }
        assert forall|k: int| 0 <= k < t.len() - 1 implies text_less(#[trigger] t[k], t[k + 1]) by {
            if k + 1 < i {
                assert(t[k] == s0[k] && t[k + 1] == s0[k + 1]);
            } else if k + 1 == i {
                assert(t[k] == s0[k] && t[k + 1] == x@);
            } else if k == i {
                assert(t[k] == x@ && t[k + 1] == s0[k]);
            } else {
                assert(t[k] == s0[k - 1] && t[k + 1] == s0[k]);
            }
        }
        assert forall|w: Seq<char>| t.contains(w) <==> (s0.contains(w) || w == x@) by {
            if t.contains(w) {
                let k = choose|k: int| 0 <= k < t.len() && t[k] == w;
                if k < i {
                    assert(t[k] == s0[k]);
                } else if k > i {
                    assert(t[k] == s0[k - 1]);
                }
            }
            if s0.contains(w) {
                let k = choose|k: int| 0 <= k < s0.len() && s0[k] == w;
                if k < i {
                    assert(t[k] == s0[k]);
                } else {
                    assert(t[k + 1] == s0[k]);
                }
            }
            if w == x@ {
                assert(t[i as int] == x@);
            }
        }
    }
}

proof fn lemma_sorted_pair(s: Seq<Seq<char>>, a: int, b: int)
    requires
        strictly_sorted(s),
        0 <= a < b < s.len(),
    ensures
        text_less(s[a], s[b]),
    decreases b - a,
{
    if b == a + 1 {
        assert(text_less(s[a], s[a + 1]));
    } else {
        lemma_sorted_pair(s, a, b - 1);
        assert(text_less(s[b - 1], s[b]));
        lemma_text_less_transitive(s[a], s[b - 1], s[b]);
    }
}

/// The broadcast addresses for a node at `address`: the candidates of
/// [`broadcast_candidates`], sorted, each once.
pub fn broadcast_targets(address: &str, gossip_port: u16) -> (r: Vec<String>)
    ensures
        strictly_sorted(string_views(r@)),
        forall|t: Seq<char>| #[trigger] string_views(r@).contains(t)
            <==> broadcast_candidates(address@, gossip_port).contains(t),
        r@.len() >= 1,
{
    let global = address_string(255, 255, 255, 255, gossip_port);
    let mut targets: Vec<String> = Vec::new();
    proof {
        assert(string_views(targets@) =~= Seq::<Seq<char>>::empty());
    }
    let ghost g = global@;
    insert_sorted(&mut targets, global);
    let parsed = parse_ipv4(address);
    match parsed {
        Some((a, b, c, _)) => {
            let t1 = address_string(a, b, c, 255, gossip_port);
            let t2 = address_string(a, b, 255, 255, gossip_port);
            let ghost g1 = t1@;
            let ghost g2 = t2@;
            insert_sorted(&mut targets, t1);
            insert_sorted(&mut targets, t2);
            proof {
                let cands = broadcast_candidates(address@, gossip_port);
                assert(cands == seq![g, g1, g2]);
                assert forall|t: Seq<char>| string_views(targets@).contains(t) <==> cands.contains(t) by {
                    if t == g { assert(cands[0] == t); }
                    if t == g1 { assert(cands[1] == t); }
                    if t == g2 { assert(cands[2] == t); }
                }
            }
        },
        None => {
            proof {
                let cands = broadcast_candidates(address@, gossip_port);
                assert(cands == seq![g]);
                assert forall|t: Seq<char>| string_views(targets@).contains(t) <==> cands.contains(t) by {
                    if t == g { assert(cands[0] == t); }
                }
            }
        },
    }
    proof {
        let v = string_views(targets@);
        assert(v.contains(g));
    }
    targets
}

/// Shuffles `v` in place with a fresh `fastrand` generator.
///
/// Trusted: `Rng::shuffle` only swaps elements, so `v` keeps the same
/// elements, each as many times; the order they end in is chance.
#[verifier::external_body]
fn shuffle_in_place(v: &mut Vec<usize>)
    ensures
        final(v)@.to_multiset() == old(v)@.to_multiset(),
{
    let mut rng = fastrand::Rng::new();
    rng.shuffle(v.as_mut_slice());
}

/// A random order of the positions `0..n`: each position below `n` once.
fn shuffled_positions(n: usize) -> (r: Vec<usize>)
    ensures
        r@.len() == n,
        forall|k: int| 0 <= k < n ==> (#[trigger] r@[k]) < n,
        forall|a: int, b: int| 0 <= a < b < n ==> r@[a] != r@[b],
{
    let mut v: Vec<usize> = Vec::new();
    let mut i: usize = 0;
    while i < n
        invariant
            i <= n,
            v@.len() == i,
            forall|k: int| 0 <= k < i ==> v@[k] == k,
        decreases n - i,
    {
        v.push(i);
        i = i + 1;
    }
    let ghost s = v@;
    shuffle_in_place(&mut v);
    proof {
        broadcast use vstd::seq_lib::group_to_multiset_ensures;
        let r = v@;
        assert(r.len() == r.to_multiset().len());
        assert(r.len() == n);
        assert(s.no_duplicates());
        s.lemma_multiset_has_no_duplicates();
        assert forall|k: int| 0 <= k < r.len() implies (#[trigger] r[k]) < n by {
            assert(r.contains(r[k]));
            assert(s.to_multiset().count(r[k]) > 0);
            assert(s.contains(r[k]));
        }
        r.lemma_multiset_has_no_duplicates_conv();
        assert(forall|a: int, b: int| 0 <= a < b < n ==> r[a] != r[b]);
    }
    v
}

/// A member list merged twice into a registry (whose identifiers are
/// distinct, as the registry keeps them) changes nothing the second time.
pub proof fn lemma_merge_twice(reg: Seq<PeerInfo>, members: Seq<PeerInfo>, local_id: Seq<char>)
    requires
        ids_distinct(reg),
    ensures
        merged(merged(reg, members, local_id), members, local_id) == merged(reg, members, local_id),
{
    let t = merged(reg, members, local_id);
    lemma_merge_distinct(reg, members, local_id);
    lemma_merge_grows(reg, members, local_id);
    lemma_merge_latest(reg, members, local_id);
    lemma_merge_known(t, members, local_id);
    assert(overwritten(t, members, local_id) =~= t);
}

/// The last of `members` with identifier `x`, if any.
spec fn last_with(members: Seq<PeerInfo>, x: Seq<char>) -> Option<PeerInfo>
    decreases members.len(),
{
    if members.len() == 0 {
        None
    } else if members.last().id@ == x {
        Some(members.last())
    } else {
        last_with(members.drop_last(), x)
    }
}

/// `s` with each peer whose identifier occurs in `members` (and is not
/// `local_id`) replaced by the last member with that identifier.
spec fn overwritten(s: Seq<PeerInfo>, members: Seq<PeerInfo>, local_id: Seq<char>) -> Seq<PeerInfo> {
    Seq::new(s.len(), |i: int| {
        let x = s[i].id@;
        if x != local_id && last_with(members, x) is Some { last_with(members, x)->0 } else { s[i] }
    })
}

proof fn lemma_last_with_id(members: Seq<PeerInfo>, x: Seq<char>)
    ensures
        last_with(members, x) matches Some(p) ==> p.id@ == x,
    decreases members.len(),
{
    if members.len() > 0 && members.last().id@ != x {
        lemma_last_with_id(members.drop_last(), x);
    }
}

proof fn lemma_with_peer_ids(r: Seq<PeerInfo>, p: PeerInfo)
    ensures
        ids_distinct(r) ==> ids_distinct(with_peer(r, p)),
        has_peer(with_peer(r, p), p.id@),
        forall|x: Seq<char>| has_peer(r, x) ==> has_peer(with_peer(r, p), x),
{
    let t = with_peer(r, p);
    if has_peer(r, p.id@) {
        let j = index_of_peer(r, p.id@);
        assert(forall|i: int| 0 <= i < t.len() ==> #[trigger] t[i].id@ == r[i].id@);
        assert(t[j] == p);
        assert forall|x: Seq<char>| has_peer(r, x) implies has_peer(t, x) by {
            let a = choose|a: int| 0 <= a < r.len() && r[a].id@ == x;
            assert(t[a].id@ == x);
        }
    } else {
        assert(t[r.len() as int] == p);
        assert forall|x: Seq<char>| has_peer(r, x) implies has_peer(t, x) by {
            let a = choose|a: int| 0 <= a < r.len() && r[a].id@ == x;
            assert(t[a] == r[a]);
        }
        if ids_distinct(r) {
            assert forall|a: int, b: int| 0 <= a < b < t.len() implies t[a].id@ != t[b].id@ by {
                assert(t[a] == r[a]);
                if b < r.len() {
                    assert(t[b] == r[b]);
                }
            }
        }
    }
}

proof fn lemma_merge_distinct(reg: Seq<PeerInfo>, members: Seq<PeerInfo>, local_id: Seq<char>)
    requires
        ids_distinct(reg),
    ensures
        ids_distinct(merged(reg, members, local_id)),
    decreases members.len(),
{
    if members.len() > 0 {
        lemma_merge_distinct(reg, members.drop_last(), local_id);
        lemma_with_peer_ids(merged(reg, members.drop_last(), local_id), members.last());
    }
}

proof fn lemma_merge_grows(reg: Seq<PeerInfo>, members: Seq<PeerInfo>, local_id: Seq<char>)
    ensures
        forall|k: int| 0 <= k < members.len() && members[k].id@ != local_id
            ==> has_peer(merged(reg, members, local_id), #[trigger] members[k].id@),
    decreases members.len(),
{
    if members.len() > 0 {
        let r = merged(reg, members.drop_last(), local_id);
        lemma_merge_grows(reg, members.drop_last(), local_id);
        lemma_with_peer_ids(r, members.last());
        assert forall|k: int| 0 <= k < members.len() && members[k].id@ != local_id
            implies has_peer(merged(reg, members, local_id), #[trigger] members[k].id@) by {
            if k < members.len() - 1 {
                assert(members[k] == members.drop_last()[k]);
            }
        }
    }
}

/// After a merge, each peer named by a member holds the last member with
/// its identifier.
proof fn lemma_merge_latest(reg: Seq<PeerInfo>, members: Seq<PeerInfo>, local_id: Seq<char>)
    requires
        ids_distinct(reg),
    ensures
        overwritten(merged(reg, members, local_id), members, local_id) == merged(reg, members, local_id),
    decreases members.len(),
{
    let t = merged(reg, members, local_id);
    if members.len() == 0 {
        assert(overwritten(t, members, local_id) =~= t);
    } else {
        let ms = members.drop_last();
        let m = members.last();
        let r = merged(reg, ms, local_id);
        lemma_merge_latest(reg, ms, local_id);
        lemma_merge_distinct(reg, ms, local_id);
        assert forall|i: int| 0 <= i < t.len() implies #[trigger] overwritten(t, members, local_id)[i] == t[i] by {
            let x = t[i].id@;
            if m.id@ == local_id {
                assert(overwritten(r, ms, local_id)[i] == r[i]);
            } else if has_peer(r, m.id@) {
                let j = index_of_peer(r, m.id@);
                if i != j {
                    assert(r[i].id@ != r[j].id@);
                    assert(overwritten(r, ms, local_id)[i] == r[i]);
                }
            } else {
                if i < r.len() {
                    assert(t[i] == r[i]);
                    assert(overwritten(r, ms, local_id)[i] == r[i]);
                }
            }
        }
        assert(overwritten(t, members, local_id) =~= t);
    }
}

/// Merging members whose identifiers are all known only overwrites peers.
proof fn lemma_merge_known(s: Seq<PeerInfo>, members: Seq<PeerInfo>, local_id: Seq<char>)
    requires
        ids_distinct(s),
        forall|k: int| 0 <= k < members.len() && members[k].id@ != local_id ==> has_peer(s, #[trigger] members[k].id@),
    ensures
        merged(s, members, local_id) == overwritten(s, members, local_id),
    decreases members.len(),
{
    let o = overwritten(s, members, local_id);
    if members.len() == 0 {
        assert(o =~= s);
    } else {
        let ms = members.drop_last();
        let m = members.last();
        assert forall|k: int| 0 <= k < ms.len() && ms[k].id@ != local_id implies has_peer(s, #[trigger] ms[k].id@) by {
            assert(ms[k] == members[k]);
        }
        lemma_merge_known(s, ms, local_id);
        let o1 = overwritten(s, ms, local_id);
        assert forall|i: int| 0 <= i < s.len() implies #[trigger] o1[i].id@ == s[i].id@ by {
            lemma_last_with_id(ms, s[i].id@);
        }
        if m.id@ == local_id {
            assert(o =~= o1);
        } else {
            assert(members[members.len() - 1] == m);
            let a = choose|a: int| 0 <= a < s.len() && s[a].id@ == m.id@;
            assert(o1[a].id@ == m.id@);
            assert(has_peer(o1, m.id@));
            let j = index_of_peer(o1, m.id@);
            assert(s[j].id@ == m.id@);
            assert forall|i: int| 0 <= i < s.len() implies #[trigger] o1.update(j, m)[i] == o[i] by {
                if i != j {
                    assert(s[i].id@ != s[j].id@);
                }
            }
            assert(o1.update(j, m) =~= o);
        }
    }
}

/// The gossip settings a server runs with, from its configuration: the
/// defaults, with each configured value in place; the gossip port is the
/// cache port plus one (wrapping) unless configured.
pub fn gossip_config_from(cfg: &AppConfig) -> (g: GossipConfig)
    ensures
        g.gossip_port == match cfg.gossip.port { Some(p) => p, None => cfg.port.wrapping_add(1) },
        g.gossip_interval == duration_from_secs(match cfg.gossip.interval { Some(i) => i, None => 1 }),
        g.fanout == match cfg.gossip.fanout { Some(f) => f, None => 3 },
        g.suspicion_timeout == duration_from_secs(match cfg.gossip.suspicion_timeout { Some(t) => t, None => 15 }),
        g.failure_timeout == duration_from_secs(match cfg.gossip.failure_timeout { Some(t) => t, None => 30 }),
        g.failure_check_interval == duration_from_secs(match cfg.gossip.failure_check_interval { Some(t) => t, None => 5 }),
{
    let mut g = GossipConfig::default();
    g.gossip_port = match cfg.gossip.port {
        Some(p) => p,
        None => cfg.port.wrapping_add(1),
    };
    if let Some(interval) = cfg.gossip.interval {
        g.gossip_interval = Duration::from_secs(interval);
    }
    if let Some(fanout) = cfg.gossip.fanout {
        g.fanout = fanout;
    }
    if let Some(t) = cfg.gossip.suspicion_timeout {
        g.suspicion_timeout = Duration::from_secs(t);
    }
    if let Some(t) = cfg.gossip.failure_timeout {
        g.failure_timeout = Duration::from_secs(t);
    }
    if let Some(t) = cfg.gossip.failure_check_interval {
        g.failure_check_interval = Duration::from_secs(t);
    }
    g
}

/// The address a peer serves the cache on: `ADDRESS:PORT`.
pub open spec fn peer_address_of(p: PeerInfo) -> Seq<char> {
    p.address@ + ":"@ + decimal(p.port as nat)
}

/// The address a peer serves the cache on.
pub fn peer_address(p: &PeerInfo) -> (s: String)
    ensures
        s@ == peer_address_of(*p),
{
    let mut s = p.address.clone();
    s.append(":");
    let d = format_decimal(p.port as u64);
    s.append(d.as_str());
    s
}

/// The ring of cache servers a node builds from its discovered peers: this
/// node first, then each peer's address, 150 positions each, ordered by hash.
pub fn discovered_ring(local_id: &str, peers: &Vec<PeerInfo>) -> (ring: ConsistentHash<String>)
    ensures
        ring.wf(),
        ring.replica_count() == 150,
        ring.peer_list() == seq![local_id@] + peers@.map_values(|p: PeerInfo| peer_address_of(p)),
        sorted_by_hash(ring.positions()),
{
    let mut ring: ConsistentHash<String> = ConsistentHash::new(150);
    ring.add_peer(String::from_str(local_id), local_id);
    let ghost first = seq![local_id@];
    proof {
        assert(ring.peer_list() =~= first + peers@.subrange(0, 0).map_values(|p: PeerInfo| peer_address_of(p)));
    }
    let mut i: usize = 0;
    while i < peers.len()
        invariant
            i <= peers@.len(),
            ring.wf(),
            ring.replica_count() == 150,
            first == seq![local_id@],
            ring.peer_list() == first + peers@.subrange(0, i as int).map_values(|p: PeerInfo| peer_address_of(p)),
        decreases peers@.len() - i,
    {
        let addr = peer_address(&peers[i]);
        let ghost a = addr@;
        let id = addr.clone();
        ring.add_peer(addr, id.as_str());
        proof {
            assert(peers@.subrange(0, i + 1).map_values(|p: PeerInfo| peer_address_of(p))
                =~= peers@.subrange(0, i as int).map_values(|p: PeerInfo| peer_address_of(p)).push(a));
        }
        i = i + 1;
    }
    proof {
        assert(peers@.subrange(0, peers@.len() as int) =~= peers@);
    }
    ring.finalize();
    ring
}

/// A failure check keeps every peer's identity and address, never touches
/// this node's own entry, marks unreachable every other peer silent for
/// longer than the failure timeout, and marks active every other peer heard
/// from within the suspicion timeout. A peer silent for longer than the
/// suspicion timeout but not the failure timeout is suspected: an active one
/// becomes inactive, an inactive one stays inactive, and it is unreachable
/// only if it already was.
pub proof fn lemma_failure_check_shape(
    peers: Seq<PeerInfo>,
    seen: Seq<(String, u64)>,
    local_id: Seq<char>,
    now: u64,
    failure_secs: u64,
    suspicion_secs: u64,
)
    ensures
        ({
            let t = after_check(peers, seen, local_id, now, failure_secs, suspicion_secs);
            &&& t.len() == peers.len()
            &&& forall|i: int| 0 <= i < peers.len() ==> #[trigger] t[i].id == peers[i].id
                && t[i].address == peers[i].address && t[i].port == peers[i].port
            &&& forall|i: int| 0 <= i < peers.len() && peers[i].id@ == local_id ==> #[trigger] t[i] == peers[i]
            &&& forall|i: int| 0 <= i < peers.len() && peers[i].id@ != local_id
                && silence(seen, peers[i].id@, now) > failure_secs ==> #[trigger] t[i].status == PeerStatus::Unreachable
            &&& forall|i: int| 0 <= i < peers.len() && peers[i].id@ != local_id
                && silence(seen, peers[i].id@, now) <= suspicion_secs
                && silence(seen, peers[i].id@, now) <= failure_secs ==> #[trigger] t[i].status == PeerStatus::Active
            &&& forall|i: int| 0 <= i < peers.len() && peers[i].id@ != local_id
                && suspicion_secs < silence(seen, peers[i].id@, now) <= failure_secs ==> {
                    &&& (#[trigger] t[i].status == PeerStatus::Unreachable ==> peers[i].status == PeerStatus::Unreachable)
                    &&& (peers[i].status == PeerStatus::Inactive ==> t[i].status == PeerStatus::Inactive)
                    &&& (peers[i].status == PeerStatus::Active ==> t[i].status == PeerStatus::Inactive)
                }
        }),
{
}

} // verus!

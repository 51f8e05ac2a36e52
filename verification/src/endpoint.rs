//! The per-peer endpoint record and its path-selection state machine.
//!
//! For one remote peer the record holds the immutable identity (public
//! key and mapped address), the optional relay region, the current best
//! direct path, and the candidate direct paths learned from discovery,
//! each with its outstanding probe and round-trip estimate.  Times are
//! milliseconds on the embedding's monotonic clock, handed in by the
//! caller.

use vstd::prelude::*;

use crate::addr::{QuicMappedAddr, SockAddr};
use crate::disco::{Pong, TransactionId};
use crate::key::PublicKey;

verus! {

/// How long a verified direct path is trusted without a new pong, in
/// milliseconds: a few seconds, well under common UDP NAT timeouts.
pub const TRUST_BEST_ADDR_MS: u64 = 6500;

/// The heartbeat interval in milliseconds.
pub const HEARTBEAT_INTERVAL_MS: u64 = 5000;

/// The configured promotion margin, in milliseconds: a candidate path
/// displaces the current best path only when its measured round-trip
/// time beats the best path's by at least this much, so the best path
/// does not flap between near-equal routes.
pub const RTT_PROMOTION_MARGIN_MS: u64 = 10;

/// The round-trip time a pong arriving at `now` measures for a probe
/// sent at `sent_at`: zero when the send time is missing or lies in
/// the future.
pub open spec fn spec_rtt(sent_at: Option<u64>, now: u64) -> u64 {
    match sent_at {
        Some(t) => if now >= t {
            (now - t) as u64
        } else {
            0u64
        },
        None => 0u64,
    }
}

/// Whether a pong from `src` with measured round-trip time `rtt`
/// displaces the current best path: always when there is none; when
/// `src` is the best path already (re-validation); otherwise only when
/// `rtt` beats the best path's round-trip time by the configured
/// margin.
pub open spec fn spec_promotes(best: Option<SockAddr>, best_rtt: u64, src: SockAddr, rtt: u64) -> bool {
    match best {
        None => true,
        Some(b) => b == src || rtt + RTT_PROMOTION_MARGIN_MS <= best_rtt,
    }
}

/// One candidate direct path: the remote socket address, the
/// outstanding discovery ping on it (if any), and what discovery has
/// measured on it so far.
pub struct PathState {
    pub addr: SockAddr,
    /// The transaction id of the ping currently in flight to this
    /// path, if any: at most one per path.
    pub last_ping_tx: Option<TransactionId>,
    /// When that ping was sent.
    pub last_ping_at: Option<u64>,
    /// The transaction id of the last ping received from this path,
    /// used to drop duplicate pings.
    pub last_got_ping_tx: Option<TransactionId>,
    /// When a pong last validated this path.
    pub last_pong_at: Option<u64>,
    /// The last measured round-trip time, in milliseconds.
    pub rtt_ms: Option<u64>,
}

impl PathState {
    /// A fresh candidate with nothing measured yet.
    pub fn new(addr: SockAddr) -> (r: PathState)
        ensures
            r.addr == addr,
            r.last_ping_tx is None,
            r.last_got_ping_tx is None,
    {
        PathState {
            addr,
            last_ping_tx: None,
            last_ping_at: None,
            last_got_ping_tx: None,
            last_pong_at: None,
            rtt_ms: None,
        }
    }
}

/// The record for one remote peer.
pub struct Endpoint {
    /// The table-local id, assigned at creation, never reused.
    pub id: usize,
    /// The peer's public key, immutable.
    pub public_key: PublicKey,
    /// The stable synthetic address handed to the upper transport,
    /// assigned at creation, immutable.
    pub quic_mapped_addr: QuicMappedAddr,
    /// The synthetic relay address of the peer's home region, if known.
    pub derp_addr: Option<SockAddr>,
    /// The current best direct path, if one has been validated.
    pub best_addr: Option<SockAddr>,
    /// Round-trip time of the best path, meaningful while `best_addr`
    /// is set.
    pub best_rtt_ms: u64,
    /// When the best path was last validated by a pong, meaningful
    /// while `best_addr` is set.
    pub best_confirmed_at: u64,
    /// Candidate direct paths learned from discovery.
    pub candidates: Vec<PathState>,
    /// When keep-alive traffic was last emitted on the best path.
    pub last_keep_alive_at: Option<u64>,
}

impl Endpoint {
    /// The identity of the record — id, key and mapped address — which
    /// no mutation ever changes.
    pub open spec fn same_identity(self, other: Endpoint) -> bool {
        &&& self.id == other.id
        &&& self.public_key@ == other.public_key@
        &&& self.quic_mapped_addr == other.quic_mapped_addr
    }

    /// Well-formed path state: each candidate address appears once.
    pub open spec fn wf(self) -> bool {
        forall|i: int, j: int|
            0 <= i < j < self.candidates@.len() ==> (#[trigger] self.candidates@[i]).addr != (
            #[trigger] self.candidates@[j]).addr
    }

    /// Whether some candidate records `src` as a path.
    pub open spec fn spec_has_candidate(self, src: SockAddr) -> bool {
        exists|i: int| 0 <= i < self.candidates@.len() && (#[trigger] self.candidates@[i]).addr == src
    }

    /// Whether a ping with transaction id `tx` was already received
    /// from `src`.
    pub open spec fn spec_has_got_ping(self, src: SockAddr, tx: Seq<u8>) -> bool {
        exists|i: int|
            0 <= i < self.candidates@.len() && (#[trigger] self.candidates@[i]).addr == src
                && match self.candidates@[i].last_got_ping_tx {
                Some(t) => t@ == tx,
                None => false,
            }
    }

    /// Whether a ping with transaction id `tx` is outstanding on some
    /// path.
    pub open spec fn spec_has_pending(self, tx: Seq<u8>) -> bool {
        exists|i: int|
            0 <= i < self.candidates@.len() && match (#[trigger] self.candidates@[i]).last_ping_tx {
                Some(t) => t@ == tx,
                None => false,
            }
    }

    /// Whether a ping with transaction id `tx` is outstanding on the
    /// path whose address is `dst`.
    pub open spec fn spec_pending_at(self, dst: SockAddr, tx: Seq<u8>) -> bool {
        exists|i: int|
            0 <= i < self.candidates@.len() && (#[trigger] self.candidates@[i]).addr == dst
                && match self.candidates@[i].last_ping_tx {
                Some(t) => t@ == tx,
                None => false,
            }
    }

    /// Whether any probe is still outstanding on some path.
    pub open spec fn spec_has_any_pending(self) -> bool {
        exists|i: int|
            0 <= i < self.candidates@.len() && (#[trigger] self.candidates@[i]).last_ping_tx
                is Some
    }

    /// Whether any probe is still outstanding on some path.
    pub fn has_any_pending(&self) -> (r: bool)
        ensures
            r == self.spec_has_any_pending(),
    {
        let mut i: usize = 0;
        while i < self.candidates.len()
            invariant
                i <= self.candidates@.len(),
                forall|j: int|
                    0 <= j < i ==> (#[trigger] self.candidates@[j]).last_ping_tx is None,
            decreases self.candidates@.len() - i,
        {
            if self.candidates[i].last_ping_tx.is_some() {
                return true;
            }
            i += 1;
        }
        false
    }

    /// Whether the best path is recent enough to be used on its own.
    pub open spec fn spec_best_is_fresh(self, now: u64) -> bool {
        &&& self.best_addr is Some
        &&& self.best_confirmed_at <= now
        &&& now - self.best_confirmed_at <= TRUST_BEST_ADDR_MS
    }

    /// A new record for `public_key`, with the mapped address built
    /// from `id`.
    pub fn new(id: usize, public_key: PublicKey, derp_addr: Option<SockAddr>) -> (r: Endpoint)
        ensures
            r.id == id,
            r.public_key@ == public_key@,
            r.quic_mapped_addr == QuicMappedAddr::spec_generate(id as u64),
            r.derp_addr == derp_addr,
            r.best_addr is None,
            r.candidates@.len() == 0,
            r.wf(),
    {
        Endpoint {
            id,
            public_key,
            quic_mapped_addr: QuicMappedAddr::generate(id as u64),
            derp_addr,
            best_addr: None,
            best_rtt_ms: 0,
            best_confirmed_at: 0,
            candidates: Vec::new(),
            last_keep_alive_at: None,
        }
    }

    pub fn public_key(&self) -> (r: &PublicKey)
        ensures
            r@ == self.public_key@,
    {
        &self.public_key
    }

    /// Stops trusting the best path; called when connectivity changed
    /// enough that old routes are no longer trusted.
    pub fn note_connectivity_change(&mut self)
        ensures
            final(self).same_identity(*old(self)),
            final(self).best_addr is None,
            final(self).derp_addr == old(self).derp_addr,
            final(self).candidates@ == old(self).candidates@,
    {
        self.best_addr = None;
    }

    /// Clears all path state; called on shutdown and on removal.
    pub fn stop_and_reset(&mut self)
        ensures
            final(self).same_identity(*old(self)),
            final(self).best_addr is None,
            final(self).candidates@.len() == 0,
            final(self).wf(),
    {
        self.best_addr = None;
        self.candidates = Vec::new();
    }

    /// Applies a network-map entry: the peer's home relay address.
    pub fn update_from_node(&mut self, derp_addr: Option<SockAddr>)
        ensures
            final(self).same_identity(*old(self)),
            final(self).derp_addr == derp_addr,
            final(self).best_addr == old(self).best_addr,
            final(self).candidates@ == old(self).candidates@,
    {
        self.derp_addr = derp_addr;
    }

    /// Records a ping received from `src`.  Reports `true` — a
    /// duplicate to be dropped — when the same transaction id was
    /// already recorded from `src`; otherwise records it and reports
    /// `false`.
    #[verifier::loop_isolation(false)]
    pub fn add_candidate_endpoint(&mut self, src: SockAddr, tx: &TransactionId) -> (dup: bool)
        requires
            old(self).wf(),
        ensures
            final(self).wf(),
            final(self).same_identity(*old(self)),
            final(self).derp_addr == old(self).derp_addr,
            final(self).best_addr == old(self).best_addr,
            dup == old(self).spec_has_got_ping(src, tx@),
            dup ==> final(self).candidates@ == old(self).candidates@,
            !dup ==> final(self).spec_has_got_ping(src, tx@),
            !dup ==> final(self).spec_has_candidate(src),
    {
        let mut i: usize = 0;
        while i < self.candidates.len()
            invariant
                *self == *old(self),
                i <= self.candidates@.len(),
                forall|j: int| 0 <= j < i ==> (#[trigger] self.candidates@[j]).addr != src,
            decreases self.candidates@.len() - i,
        {
            if self.candidates[i].addr == src {
                let is_dup = match &self.candidates[i].last_got_ping_tx {
                    Some(t) => t == tx,
                    None => false,
                };
                if is_dup {
                    return true;
                }
                self.candidates[i].last_got_ping_tx = Some(tx.clone());
                proof {
                    assert(self.candidates@[i as int].addr == src);
                    assert forall|a: int|
                        0 <= a < self.candidates@.len() implies (#[trigger] self.candidates@[a]).addr
                        == old(self).candidates@[a].addr by {}
                }
                return false;
            }
            i += 1;
        }
        let mut c = PathState::new(src);
        c.last_got_ping_tx = Some(tx.clone());
        self.candidates.push(c);
        proof {
            let n = self.candidates@.len() - 1;
            assert(self.candidates@[n].addr == src);
            assert forall|a: int, b: int|
                0 <= a < b < self.candidates@.len() implies (#[trigger] self.candidates@[a]).addr
                != (#[trigger] self.candidates@[b]).addr by {
                if b < n {
                    assert(old(self).candidates@[a].addr != old(self).candidates@[b].addr);
                } else {
                    assert(old(self).candidates@[a].addr != src);
                }
            }
        }
        false
    }

    /// Records an outgoing discovery ping to `dst`: upserts the
    /// candidate and makes `tx` its one outstanding probe.
    #[verifier::loop_isolation(false)]
    pub fn start_ping(&mut self, dst: SockAddr, tx: &TransactionId, now: u64)
        requires
            old(self).wf(),
        ensures
            final(self).wf(),
            final(self).same_identity(*old(self)),
            final(self).derp_addr == old(self).derp_addr,
            final(self).best_addr == old(self).best_addr,
            final(self).spec_has_candidate(dst),
            final(self).spec_has_pending(tx@),
            final(self).spec_pending_at(dst, tx@),
            final(self).candidates@.len() >= old(self).candidates@.len(),
            forall|i: int|
                0 <= i < old(self).candidates@.len() ==> (#[trigger] final(self).candidates@[i]).addr
                    == old(self).candidates@[i].addr,
            forall|i: int|
                0 <= i < old(self).candidates@.len() && old(self).candidates@[i].addr != dst
                    ==> #[trigger] final(self).candidates@[i] == old(self).candidates@[i],
    {
        let mut i: usize = 0;
        while i < self.candidates.len()
            invariant
                *self == *old(self),
                i <= self.candidates@.len(),
                forall|j: int| 0 <= j < i ==> (#[trigger] self.candidates@[j]).addr != dst,
            decreases self.candidates@.len() - i,
        {
            if self.candidates[i].addr == dst {
                self.candidates[i].last_ping_tx = Some(tx.clone());
                self.candidates[i].last_ping_at = Some(now);
                proof {
                    assert(self.candidates@[i as int].addr == dst);
                    assert(match self.candidates@[i as int].last_ping_tx {
                        Some(t) => t@ == tx@,
                        None => false,
                    });
                    assert forall|a: int|
                        0 <= a < self.candidates@.len() implies (#[trigger] self.candidates@[a]).addr
                        == old(self).candidates@[a].addr by {}
                }
                return ;
            }
            i += 1;
        }
        let mut c = PathState::new(dst);
        c.last_ping_tx = Some(tx.clone());
        c.last_ping_at = Some(now);
        self.candidates.push(c);
        proof {
            let n = self.candidates@.len() - 1;
            assert(self.candidates@[n].addr == dst);
            assert(match self.candidates@[n].last_ping_tx {
                Some(t) => t@ == tx@,
                None => false,
            });
            assert forall|a: int, b: int|
                0 <= a < b < self.candidates@.len() implies (#[trigger] self.candidates@[a]).addr
                != (#[trigger] self.candidates@[b]).addr by {
                if b < n {
                    assert(old(self).candidates@[a].addr != old(self).candidates@[b].addr);
                } else {
                    assert(old(self).candidates@[a].addr != dst);
                }
            }
        }
    }

    /// Forgets the outstanding probe with transaction id `tx`; called
    /// when its timer expires.
    #[verifier::loop_isolation(false)]
    pub fn ping_timeout(&mut self, tx: &TransactionId)
        requires
            old(self).wf(),
        ensures
            final(self).wf(),
            final(self).same_identity(*old(self)),
            final(self).derp_addr == old(self).derp_addr,
            final(self).best_addr == old(self).best_addr,
            !final(self).spec_has_pending(tx@),
    {
        let mut i: usize = 0;
        while i < self.candidates.len()
            invariant
                i <= self.candidates@.len(),
                self.candidates@.len() == old(self).candidates@.len(),
                self.same_identity(*old(self)),
                self.derp_addr == old(self).derp_addr,
                self.best_addr == old(self).best_addr,
                forall|j: int|
                    0 <= j < self.candidates@.len() ==> (#[trigger] self.candidates@[j]).addr
                        == old(self).candidates@[j].addr,
                forall|j: int|
                    0 <= j < i ==> match (#[trigger] self.candidates@[j]).last_ping_tx {
                        Some(t) => t@ != tx@,
                        None => true,
                    },
            decreases self.candidates@.len() - i,
        {
            let clear = match &self.candidates[i].last_ping_tx {
                Some(t) => t == tx,
                None => false,
            };
            if clear {
                self.candidates[i].last_ping_tx = None;
            }
            i += 1;
        }
    }

    /// Applies a pong arriving from `src`.  Reports whether it matched
    /// an outstanding probe; a matched probe is cleared, so the same
    /// transaction id validates at most once; the matched path records
    /// the measured round-trip time and the validation time; and the
    /// path is promoted to best when there is no best path, when it is
    /// the best path already, or when it beats the current round-trip
    /// time by the configured margin.
    #[verifier::loop_isolation(false)]
    pub fn handle_pong(&mut self, pong: &Pong, src: SockAddr, now: u64) -> (matched: bool)
        requires
            old(self).wf(),
        ensures
            final(self).wf(),
            final(self).same_identity(*old(self)),
            final(self).derp_addr == old(self).derp_addr,
            matched == old(self).spec_has_pending(pong.tx_id@),
            !matched ==> *final(self) == *old(self),
            matched ==> !final(self).spec_has_pending(pong.tx_id@),
            matched ==> final(self).best_addr == Some(src) || final(self).best_addr == old(self).best_addr,
            matched ==> final(self).best_addr is Some,
            matched ==> exists|i: int|
                {
                    let rtt = spec_rtt(old(self).candidates@[i].last_ping_at, now);
                    &&& 0 <= i < old(self).candidates@.len()
                    &&& (match (#[trigger] old(self).candidates@[i]).last_ping_tx {
                        Some(t) => t@ == pong.tx_id@,
                        None => false,
                    })
                    &&& final(self).candidates@[i].addr == old(self).candidates@[i].addr
                    &&& final(self).candidates@[i].last_pong_at == Some(now)
                    &&& final(self).candidates@[i].rtt_ms == Some(rtt)
                    &&& (if spec_promotes(old(self).best_addr, old(self).best_rtt_ms, src, rtt) {
                        final(self).best_addr == Some(src) && final(self).best_rtt_ms == rtt
                            && final(self).best_confirmed_at == now
                    } else {
                        final(self).best_addr == old(self).best_addr && final(self).best_rtt_ms
                            == old(self).best_rtt_ms && final(self).best_confirmed_at == old(self).best_confirmed_at
                    })
                },
    {
        let mut i: usize = 0;
        let mut matched = false;
        let ghost mut widx: int = 0;
        while i < self.candidates.len()
            invariant
                i <= self.candidates@.len(),
                self.candidates@.len() == old(self).candidates@.len(),
                self.same_identity(*old(self)),
                self.derp_addr == old(self).derp_addr,
                self.last_keep_alive_at == old(self).last_keep_alive_at,
                forall|j: int|
                    0 <= j < self.candidates@.len() ==> (#[trigger] self.candidates@[j]).addr
                        == old(self).candidates@[j].addr,
                !matched ==> *self == *old(self),
                forall|j: int|
                    0 <= j < i ==> match (#[trigger] self.candidates@[j]).last_ping_tx {
                        Some(t) => t@ != pong.tx_id@,
                        None => true,
                    },
                forall|j: int|
                    i <= j < self.candidates@.len() ==> #[trigger] self.candidates@[j] == old(
                        self,
                    ).candidates@[j],
                matched ==> old(self).spec_has_pending(pong.tx_id@),
                matched ==> self.best_addr == Some(src) || self.best_addr == old(self).best_addr,
                matched ==> self.best_addr is Some,
                matched ==> ({
                    let rtt = spec_rtt(old(self).candidates@[widx].last_ping_at, now);
                    &&& 0 <= widx < i
                    &&& (match old(self).candidates@[widx].last_ping_tx {
                        Some(t) => t@ == pong.tx_id@,
                        None => false,
                    })
                    &&& self.candidates@[widx].addr == old(self).candidates@[widx].addr
                    &&& self.candidates@[widx].last_pong_at == Some(now)
                    &&& self.candidates@[widx].rtt_ms == Some(rtt)
                    &&& (if spec_promotes(old(self).best_addr, old(self).best_rtt_ms, src, rtt) {
                        self.best_addr == Some(src) && self.best_rtt_ms == rtt
                            && self.best_confirmed_at == now
                    } else {
                        self.best_addr == old(self).best_addr && self.best_rtt_ms == old(self).best_rtt_ms
                            && self.best_confirmed_at == old(self).best_confirmed_at
                    })
                }),
            decreases self.candidates@.len() - i,
        {
            let hit = match &self.candidates[i].last_ping_tx {
                Some(t) => t == &pong.tx_id,
                None => false,
            };
            if hit {
                proof {
                    assert(match old(self).candidates@[i as int].last_ping_tx {
                        Some(t) => t@ == pong.tx_id@,
                        None => false,
                    });
                }
                let sent_at_opt = self.candidates[i].last_ping_at;
                let rtt = match sent_at_opt {
                    Some(t) => if now >= t {
                        now - t
                    } else {
                        0
                    },
                    None => 0,
                };
                self.candidates[i].last_ping_tx = None;
                if !matched {
                    self.candidates[i].last_pong_at = Some(now);
                    self.candidates[i].rtt_ms = Some(rtt);
                    proof {
                        assert(rtt == spec_rtt(old(self).candidates@[i as int].last_ping_at, now));
                    }
                    let promote = match self.best_addr {
                        None => true,
                        Some(b) => b == src || (rtt < self.best_rtt_ms && self.best_rtt_ms - rtt
                            >= RTT_PROMOTION_MARGIN_MS),
                    };
                    proof {
                        assert(promote == spec_promotes(old(self).best_addr, old(self).best_rtt_ms, src, rtt));
                    }
                    if promote {
                        self.best_addr = Some(src);
                        self.best_rtt_ms = rtt;
                        self.best_confirmed_at = now;
                    }
                    matched = true;
                    proof {
                        widx = i as int;
                    }
                }
            }
            i += 1;
        }
        matched
    }

    /// The paths an outgoing batch should use: the best direct path
    /// alone while it is fresh; the best path and the relay while it is
    /// stale; the relay alone (if known) otherwise.
    pub fn get_send_addrs(&self, now: u64) -> (r: (Option<SockAddr>, Option<SockAddr>))
        ensures
            self.spec_best_is_fresh(now) ==> r == (self.best_addr, None::<SockAddr>),
            !self.spec_best_is_fresh(now) && self.best_addr is Some ==> r == (
                self.best_addr,
                self.derp_addr,
            ),
            self.best_addr is None ==> r == (None::<SockAddr>, self.derp_addr),
    {
        match self.best_addr {
            None => (None, self.derp_addr),
            Some(b) => {
                if self.best_confirmed_at <= now && now - self.best_confirmed_at
                    <= TRUST_BEST_ADDR_MS {
                    (Some(b), None)
                } else {
                    (Some(b), self.derp_addr)
                }
            },
        }
    }

    /// Whether heartbeat traffic is due: a direct path is current and
    /// no keep-alive went out within the heartbeat interval.
    pub open spec fn spec_needs_keep_alive(self, now: u64) -> bool {
        &&& self.best_addr is Some
        &&& match self.last_keep_alive_at {
            None => true,
            Some(t) => t > now || now - t >= HEARTBEAT_INTERVAL_MS,
        }
    }

    pub fn needs_keep_alive(&self, now: u64) -> (r: bool)
        ensures
            r == self.spec_needs_keep_alive(now),
    {
        match self.best_addr {
            None => false,
            Some(_) => match self.last_keep_alive_at {
                None => true,
                Some(t) => t > now || now - t >= HEARTBEAT_INTERVAL_MS,
            },
        }
    }

    /// Records that keep-alive traffic went out now.
    pub fn note_keep_alive(&mut self, now: u64)
        ensures
            final(self).same_identity(*old(self)),
            final(self).derp_addr == old(self).derp_addr,
            final(self).best_addr == old(self).best_addr,
            final(self).best_rtt_ms == old(self).best_rtt_ms,
            final(self).best_confirmed_at == old(self).best_confirmed_at,
            final(self).candidates@ == old(self).candidates@,
            final(self).last_keep_alive_at == Some(now),
            *final(self) == (Endpoint { last_keep_alive_at: Some(now), ..*old(self) }),
    {
        self.last_keep_alive_at = Some(now);
    }
}

} // verus!

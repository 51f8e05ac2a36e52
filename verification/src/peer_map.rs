//! The peer table.
//!
//! A collection of endpoint records indexed three ways: by public key,
//! by concrete UDP socket address (many per endpoint), and by mapped
//! address.  All three views are kept consistent under the
//! coordinator's exclusive mutation.  Ids — and with them mapped
//! addresses — are allocated from a counter that only grows, so a
//! mapped address is never reused within the table's lifetime, even
//! after its peer is removed.

use vstd::prelude::*;

use crate::addr::{lemma_mapped_addr_injective, QuicMappedAddr, SockAddr};
use crate::disco::{Pong, TransactionId};
use crate::endpoint::Endpoint;
use crate::key::PublicKey;

verus! {

/// One entry of the socket-address index.
pub struct IpPortEntry {
    pub addr: SockAddr,
    pub id: usize,
}

/// The peer table.
pub struct PeerMap {
    /// The endpoint records, one per tracked peer.
    pub endpoints: Vec<Endpoint>,
    /// The socket-address index: which endpoint id a concrete remote
    /// address currently belongs to.
    pub by_ip_port: Vec<IpPortEntry>,
    /// The next endpoint id; never decreases, never reused.
    pub next_id: usize,
    /// Every id ever allocated, kept to state that mapped addresses
    /// are never reused across the table's lifetime.
    pub allocated: Ghost<Set<int>>,
}

impl PeerMap {
    /// Whether the table holds an endpoint with id `id`.
    pub open spec fn spec_has_id(self, id: usize) -> bool {
        exists|i: int| 0 <= i < self.endpoints@.len() && (#[trigger] self.endpoints@[i]).id == id
    }

    /// Whether the table holds an endpoint for public key `k`.
    pub open spec fn spec_has_key(self, k: Seq<u8>) -> bool {
        exists|i: int|
            0 <= i < self.endpoints@.len() && (#[trigger] self.endpoints@[i]).public_key@ == k
    }

    /// Whether the table holds an endpoint with mapped address `m`.
    pub open spec fn spec_has_mapped(self, m: QuicMappedAddr) -> bool {
        exists|i: int|
            0 <= i < self.endpoints@.len() && (#[trigger] self.endpoints@[i]).quic_mapped_addr == m
    }

    /// Whether the socket-address index maps `a` to endpoint id `id`.
    pub open spec fn spec_ip_maps_to(self, a: SockAddr, id: usize) -> bool {
        exists|k: int|
            0 <= k < self.by_ip_port@.len() && (#[trigger] self.by_ip_port@[k]).addr == a
                && self.by_ip_port@[k].id == id
    }

    /// Whether the socket-address index has an entry for `a`.
    pub open spec fn spec_has_ip(self, a: SockAddr) -> bool {
        exists|k: int| 0 <= k < self.by_ip_port@.len() && (#[trigger] self.by_ip_port@[k]).addr == a
    }

    /// The table invariant: ids are unique, below the allocation
    /// counter and drawn from the ever-allocated set; public keys are
    /// unique; every mapped address is the one built from its
    /// endpoint's id; each endpoint's own path state is well formed;
    /// the socket-address index has one entry per address, each
    /// pointing at an endpoint that exists.
    pub open spec fn wf(self) -> bool {
        &&& forall|i: int|
            0 <= i < self.endpoints@.len() ==> (#[trigger] self.endpoints@[i]).id < self.next_id
        &&& forall|i: int|
            0 <= i < self.endpoints@.len() ==> self.allocated@.contains(
                (#[trigger] self.endpoints@[i]).id as int,
            )
        &&& forall|i: int| 0 <= i < self.endpoints@.len() ==> (#[trigger] self.endpoints@[i]).wf()
        &&& forall|i: int|
            0 <= i < self.endpoints@.len() ==> (#[trigger] self.endpoints@[i]).quic_mapped_addr
                == QuicMappedAddr::spec_generate(self.endpoints@[i].id as u64)
        &&& forall|i: int, j: int|
            0 <= i < j < self.endpoints@.len() ==> (#[trigger] self.endpoints@[i]).id != (
            #[trigger] self.endpoints@[j]).id
        &&& forall|i: int, j: int|
            0 <= i < j < self.endpoints@.len() ==> (#[trigger] self.endpoints@[i]).public_key@ != (
            #[trigger] self.endpoints@[j]).public_key@
        &&& forall|a: int| self.allocated@.contains(a) ==> 0 <= a < self.next_id
        &&& forall|k: int, l: int|
            0 <= k < l < self.by_ip_port@.len() ==> (#[trigger] self.by_ip_port@[k]).addr != (
            #[trigger] self.by_ip_port@[l]).addr
        &&& forall|k: int|
            0 <= k < self.by_ip_port@.len() ==> self.spec_has_id(
                (#[trigger] self.by_ip_port@[k]).id,
            )
    }

    /// An empty table.
    pub fn new() -> (r: PeerMap)
        ensures
            r.wf(),
            r.endpoints@.len() == 0,
            r.by_ip_port@.len() == 0,
            r.next_id == 0,
            r.allocated@ == Set::<int>::empty(),
    {
        PeerMap {
            endpoints: Vec::new(),
            by_ip_port: Vec::new(),
            next_id: 0,
            allocated: Ghost(Set::empty()),
        }
    }

    /// The number of tracked peers.
    pub fn node_count(&self) -> (r: usize)
        ensures
            r == self.endpoints@.len(),
    {
        self.endpoints.len()
    }

    /// The position of the endpoint for key `k`, if any.
    pub fn index_of_key(&self, k: &PublicKey) -> (r: Option<usize>)
        ensures
            match r {
                Some(i) => i < self.endpoints@.len() && self.endpoints@[i as int].public_key@
                    == k@,
                None => !self.spec_has_key(k@),
            },
    {
        let mut i: usize = 0;
        while i < self.endpoints.len()
            invariant
                i <= self.endpoints@.len(),
                forall|j: int|
                    0 <= j < i ==> (#[trigger] self.endpoints@[j]).public_key@ != k@,
            decreases self.endpoints@.len() - i,
        {
            if self.endpoints[i].public_key.eq_bytes(k) {
                return Some(i);
            }
            i += 1;
        }
        None
    }

    /// The position of the endpoint with id `id`, if any.
    pub fn index_of_id(&self, id: usize) -> (r: Option<usize>)
        ensures
            match r {
                Some(i) => i < self.endpoints@.len() && self.endpoints@[i as int].id == id,
                None => !self.spec_has_id(id),
            },
    {
        let mut i: usize = 0;
        while i < self.endpoints.len()
            invariant
                i <= self.endpoints@.len(),
                forall|j: int| 0 <= j < i ==> (#[trigger] self.endpoints@[j]).id != id,
            decreases self.endpoints@.len() - i,
        {
            if self.endpoints[i].id == id {
                return Some(i);
            }
            i += 1;
        }
        None
    }

    /// The endpoint for public key `k`, if tracked.
    pub fn endpoint_for_node_key(&self, k: &PublicKey) -> (r: Option<&Endpoint>)
        ensures
            match r {
                Some(ep) => {
                    &&& ep.public_key@ == k@
                    &&& exists|i: int|
                        0 <= i < self.endpoints@.len() && (#[trigger] self.endpoints@[i]) == *ep
                },
                None => !self.spec_has_key(k@),
            },
    {
        match self.index_of_key(k) {
            Some(i) => Some(&self.endpoints[i]),
            None => None,
        }
    }

    /// The endpoint the socket-address index maps `a` to, if any.
    pub fn endpoint_for_ip_port(&self, a: &SockAddr) -> (r: Option<&Endpoint>)
        requires
            self.wf(),
        ensures
            match r {
                Some(ep) => {
                    &&& self.spec_ip_maps_to(*a, ep.id)
                    &&& exists|i: int|
                        0 <= i < self.endpoints@.len() && (#[trigger] self.endpoints@[i]) == *ep
                },
                None => !self.spec_has_ip(*a),
            },
    {
        let mut k: usize = 0;
        while k < self.by_ip_port.len()
            invariant
                self.wf(),
                k <= self.by_ip_port@.len(),
                forall|j: int| 0 <= j < k ==> (#[trigger] self.by_ip_port@[j]).addr != *a,
            decreases self.by_ip_port@.len() - k,
        {
            if self.by_ip_port[k].addr == *a {
                let id = self.by_ip_port[k].id;
                proof {
                    assert(self.spec_has_id(id));
                }
                match self.index_of_id(id) {
                    Some(i) => {
                        return Some(&self.endpoints[i]);
                    },
                    None => {
                        proof {
                            assert(false);
                        }
                    },
                }
            }
            k += 1;
        }
        None
    }

    /// The endpoint whose mapped address is `m`, if any.
    pub fn endpoint_for_quic_mapped_addr(&self, m: &QuicMappedAddr) -> (r: Option<&Endpoint>)
        ensures
            match r {
                Some(ep) => {
                    &&& ep.quic_mapped_addr == *m
                    &&& exists|i: int|
                        0 <= i < self.endpoints@.len() && (#[trigger] self.endpoints@[i]) == *ep
                },
                None => !self.spec_has_mapped(*m),
            },
    {
        let mut i: usize = 0;
        while i < self.endpoints.len()
            invariant
                i <= self.endpoints@.len(),
                forall|j: int|
                    0 <= j < i ==> (#[trigger] self.endpoints@[j]).quic_mapped_addr != *m,
            decreases self.endpoints@.len() - i,
        {
            if self.endpoints[i].quic_mapped_addr == *m {
                return Some(&self.endpoints[i]);
            }
            i += 1;
        }
        None
    }

    /// Inserts a record for a peer not yet tracked, allocating its
    /// mapped address from an id never used before.
    pub fn insert_endpoint(&mut self, public_key: PublicKey, derp_addr: Option<SockAddr>) -> (id:
        usize)
        requires
            old(self).wf(),
            !old(self).spec_has_key(public_key@),
            old(self).next_id < usize::MAX,
        ensures
            final(self).wf(),
            id == old(self).next_id,
            final(self).next_id == old(self).next_id + 1,
            !old(self).allocated@.contains(id as int),
            final(self).allocated@ == old(self).allocated@.insert(id as int),
            final(self).by_ip_port@ == old(self).by_ip_port@,
            final(self).endpoints@.len() == old(self).endpoints@.len() + 1,
            final(self).endpoints@.subrange(0, old(self).endpoints@.len() as int) == old(self).endpoints@,
            final(self).endpoints@.last().id == id,
            final(self).endpoints@.last().public_key@ == public_key@,
            final(self).endpoints@.last().quic_mapped_addr == QuicMappedAddr::spec_generate(
                id as u64,
            ),
            final(self).endpoints@.last().derp_addr == derp_addr,
            final(self).endpoints@.last().best_addr is None,
            final(self).endpoints@.last().candidates@.len() == 0,
            final(self).spec_has_id(id),
            final(self).spec_has_key(public_key@),
    {
        let id = self.next_id;
        let ep = Endpoint::new(id, public_key, derp_addr);
        self.endpoints.push(ep);
        self.next_id = self.next_id + 1;
        proof {
            self.allocated@ = self.allocated@.insert(id as int);
        }
        proof {
            assert(self.endpoints@.subrange(0, old(self).endpoints@.len() as int) =~= old(self).endpoints@);
            let n = self.endpoints@.len() - 1;
            assert(self.endpoints@[n].id == id);
            assert(self.spec_has_id(id));
            assert(self.spec_has_key(self.endpoints@[n].public_key@));
        }
        id
    }

    /// Points the socket-address index entry for `addr` at endpoint
    /// `id`, adding the entry if the address is new.  Entries for
    /// other addresses are untouched.
    #[verifier::loop_isolation(false)]
    pub fn set_endpoint_for_ip_port(&mut self, addr: SockAddr, id: usize)
        requires
            old(self).wf(),
            old(self).spec_has_id(id),
        ensures
            final(self).wf(),
            final(self).endpoints@ == old(self).endpoints@,
            final(self).next_id == old(self).next_id,
            final(self).allocated@ == old(self).allocated@,
            final(self).spec_ip_maps_to(addr, id),
            forall|a2: SockAddr, id2: usize|
                a2 != addr ==> (#[trigger] final(self).spec_ip_maps_to(a2, id2) <==> old(self).spec_ip_maps_to(a2, id2)),
    {
        let mut k: usize = 0;
        while k < self.by_ip_port.len()
            invariant
                *self == *old(self),
                k <= self.by_ip_port@.len(),
                forall|j: int| 0 <= j < k ==> (#[trigger] self.by_ip_port@[j]).addr != addr,
            decreases self.by_ip_port@.len() - k,
        {
            if self.by_ip_port[k].addr == addr {
                self.by_ip_port[k].id = id;
                proof {
                    assert(self.by_ip_port@[k as int].addr == addr);
                    assert(self.spec_ip_maps_to(addr, id));
                    assert forall|a2: SockAddr, id2: usize|
                        a2 != addr implies (#[trigger] self.spec_ip_maps_to(a2, id2) <==> old(self).spec_ip_maps_to(a2, id2)) by {
                        if self.spec_ip_maps_to(a2, id2) {
                            let w = choose|w: int|
                                0 <= w < self.by_ip_port@.len() && (#[trigger] self.by_ip_port@[w]).addr
                                    == a2 && self.by_ip_port@[w].id == id2;
                            assert(w != k);
                            assert(old(self).by_ip_port@[w].addr == a2);
                        }
                        if old(self).spec_ip_maps_to(a2, id2) {
                            let w = choose|w: int|
                                0 <= w < old(self).by_ip_port@.len() && (#[trigger] old(self).by_ip_port@[w]).addr == a2 && old(self).by_ip_port@[w].id == id2;
                            assert(w != k);
                            assert(self.by_ip_port@[w].addr == a2);
                        }
                    }
                }
                return ;
            }
            k += 1;
        }
        self.by_ip_port.push(IpPortEntry { addr, id });
        proof {
            let n = self.by_ip_port@.len() - 1;
            assert(self.by_ip_port@[n].addr == addr);
            assert(self.spec_ip_maps_to(addr, id));
            assert forall|a2: SockAddr, id2: usize|
                a2 != addr implies (#[trigger] self.spec_ip_maps_to(a2, id2) <==> old(self).spec_ip_maps_to(a2, id2)) by {
                if self.spec_ip_maps_to(a2, id2) {
                    let w = choose|w: int|
                        0 <= w < self.by_ip_port@.len() && (#[trigger] self.by_ip_port@[w]).addr
                            == a2 && self.by_ip_port@[w].id == id2;
                    assert(w != n);
                    assert(old(self).by_ip_port@[w].addr == a2);
                }
                if old(self).spec_ip_maps_to(a2, id2) {
                    let w = choose|w: int|
                        0 <= w < old(self).by_ip_port@.len() && (#[trigger] old(self).by_ip_port@[w]).addr == a2 && old(self).by_ip_port@[w].id == id2;
                    assert(self.by_ip_port@[w].addr == a2);
                }
            }
        }
    }

    /// Points the socket-address index entry for `addr` at the
    /// endpoint tracked for key `k`, which must be present.
    pub fn set_node_key_for_ip_port(&mut self, addr: SockAddr, k: &PublicKey)
        requires
            old(self).wf(),
            old(self).spec_has_key(k@),
        ensures
            final(self).wf(),
            final(self).endpoints@ == old(self).endpoints@,
            final(self).next_id == old(self).next_id,
            final(self).allocated@ == old(self).allocated@,
            exists|i: int|
                0 <= i < final(self).endpoints@.len() && (#[trigger] final(self).endpoints@[i]).public_key@ == k@ && final(self).spec_ip_maps_to(
                    addr,
                    final(self).endpoints@[i].id,
                ),
    {
        match self.index_of_key(k) {
            Some(i) => {
                let id = self.endpoints[i].id;
                proof {
                    assert(self.spec_has_id(id));
                }
                self.set_endpoint_for_ip_port(addr, id);
                proof {
                    assert(self.endpoints@[i as int].public_key@ == k@);
                }
            },
            None => {
                proof {
                    assert(false);
                }
            },
        }
    }

    /// The id of the endpoint tracked for key `k`, if any.
    pub fn id_for_key(&self, k: &PublicKey) -> (r: Option<usize>)
        ensures
            match r {
                Some(id) => self.spec_has_id(id) && exists|i: int|
                    0 <= i < self.endpoints@.len() && (#[trigger] self.endpoints@[i]).id == id
                        && self.endpoints@[i].public_key@ == k@,
                None => !self.spec_has_key(k@),
            },
    {
        match self.index_of_key(k) {
            Some(i) => {
                let id = self.endpoints[i].id;
                Some(id)
            },
            None => None,
        }
    }

    /// The endpoint at position `i`.
    pub fn endpoint_at(&self, i: usize) -> (r: &Endpoint)
        requires
            i < self.endpoints@.len(),
        ensures
            *r == self.endpoints@[i as int],
    {
        &self.endpoints[i]
    }

    /// Records that keep-alive traffic went out now for the endpoint
    /// at position `i`.
    pub fn note_keep_alive_at(&mut self, i: usize, now: u64)
        requires
            old(self).wf(),
            i < old(self).endpoints@.len(),
        ensures
            final(self).wf(),
            final(self).by_ip_port@ == old(self).by_ip_port@,
            final(self).next_id == old(self).next_id,
            final(self).allocated@ == old(self).allocated@,
            final(self).endpoints@.len() == old(self).endpoints@.len(),
            forall|j: int|
                0 <= j < old(self).endpoints@.len() ==> (#[trigger] final(self).endpoints@[j]).same_identity(
                    old(self).endpoints@[j],
                ),
            final(self).endpoints@[i as int].last_keep_alive_at == Some(now),
            final(self).endpoints@[i as int] == (Endpoint {
                last_keep_alive_at: Some(now),
                ..old(self).endpoints@[i as int]
            }),
            forall|j: int|
                0 <= j < old(self).endpoints@.len() && j != i ==> #[trigger] final(self).endpoints@[j]
                    == old(self).endpoints@[j],
    {
        let ghost pre_pm = *self;
        self.endpoints[i].note_keep_alive(now);
        proof {
            assert forall|j: int|
                0 <= j < self.endpoints@.len() implies (#[trigger] self.endpoints@[j]).same_identity(
                old(self).endpoints@[j],
            ) by {
                if j != i {
                    assert(self.endpoints@[j] == old(self).endpoints@[j]);
                }
            }
            assert forall|j: int|
                0 <= j < self.endpoints@.len() implies (#[trigger] self.endpoints@[j]).wf() by {
                if j != i {
                    assert(self.endpoints@[j] == pre_pm.endpoints@[j]);
                } else {
                    assert(self.endpoints@[j].candidates@ == pre_pm.endpoints@[j].candidates@);
                }
            }
            lemma_wf_after_update(pre_pm, *self);
        }
    }

    /// The public keys of all tracked peers, in table order.
    pub fn tracked_endpoints(&self) -> (r: Vec<PublicKey>)
        ensures
            r@.len() == self.endpoints@.len(),
            forall|i: int|
                0 <= i < r@.len() ==> (#[trigger] r@[i])@ == self.endpoints@[i].public_key@,
    {
        let mut out: Vec<PublicKey> = Vec::new();
        let mut i: usize = 0;
        while i < self.endpoints.len()
            invariant
                i <= self.endpoints@.len(),
                out@.len() == i,
                forall|j: int|
                    0 <= j < i ==> (#[trigger] out@[j])@ == self.endpoints@[j].public_key@,
            decreases self.endpoints@.len() - i,
        {
            out.push(self.endpoints[i].public_key.clone());
            i += 1;
        }
        out
    }

    /// Stops trusting every best path; called when connectivity
    /// changed enough that old routes are no longer trusted.
    #[verifier::loop_isolation(false)]
    pub fn reset_endpoint_states(&mut self)
        requires
            old(self).wf(),
        ensures
            final(self).wf(),
            final(self).by_ip_port@ == old(self).by_ip_port@,
            final(self).next_id == old(self).next_id,
            final(self).allocated@ == old(self).allocated@,
            final(self).endpoints@.len() == old(self).endpoints@.len(),
            forall|j: int|
                0 <= j < old(self).endpoints@.len() ==> (#[trigger] final(self).endpoints@[j]).same_identity(
                    old(self).endpoints@[j],
                ),
            forall|j: int|
                0 <= j < final(self).endpoints@.len() ==> (#[trigger] final(self).endpoints@[j]).best_addr
                    is None,
    {
        let mut i: usize = 0;
        while i < self.endpoints.len()
            invariant
                self.wf(),
                i <= self.endpoints@.len(),
                self.by_ip_port@ == old(self).by_ip_port@,
                self.next_id == old(self).next_id,
                self.allocated@ == old(self).allocated@,
                self.endpoints@.len() == old(self).endpoints@.len(),
                forall|j: int|
                    0 <= j < old(self).endpoints@.len() ==> (#[trigger] self.endpoints@[j]).same_identity(
                        old(self).endpoints@[j],
                    ),
                forall|j: int|
                    0 <= j < i ==> (#[trigger] self.endpoints@[j]).best_addr is None,
            decreases self.endpoints@.len() - i,
        {
            let ghost pre_pm = *self;
            self.endpoints[i].note_connectivity_change();
            proof {
                assert forall|j: int|
                    0 <= j < self.endpoints@.len() implies (#[trigger] self.endpoints@[j]).same_identity(
                    pre_pm.endpoints@[j],
                ) by {
                    if j != i {
                        assert(self.endpoints@[j] == pre_pm.endpoints@[j]);
                    }
                }
                assert forall|j: int|
                    0 <= j < self.endpoints@.len() implies (#[trigger] self.endpoints@[j]).wf() by {
                    if j != i {
                        assert(self.endpoints@[j] == pre_pm.endpoints@[j]);
                    } else {
                        assert(self.endpoints@[j].candidates@ == pre_pm.endpoints@[j].candidates@);
                    }
                }
                lemma_wf_after_update(pre_pm, *self);
            }
            i += 1;
        }
    }

    /// Clears all path state everywhere; called on shutdown.
    #[verifier::loop_isolation(false)]
    pub fn stop_all(&mut self)
        requires
            old(self).wf(),
        ensures
            final(self).wf(),
            final(self).endpoints@.len() == old(self).endpoints@.len(),
            forall|j: int|
                0 <= j < old(self).endpoints@.len() ==> (#[trigger] final(self).endpoints@[j]).same_identity(
                    old(self).endpoints@[j],
                ),
            forall|j: int|
                0 <= j < final(self).endpoints@.len() ==> (#[trigger] final(self).endpoints@[j]).best_addr
                    is None && final(self).endpoints@[j].candidates@.len() == 0,
    {
        let mut i: usize = 0;
        while i < self.endpoints.len()
            invariant
                self.wf(),
                i <= self.endpoints@.len(),
                self.by_ip_port@ == old(self).by_ip_port@,
                self.next_id == old(self).next_id,
                self.allocated@ == old(self).allocated@,
                self.endpoints@.len() == old(self).endpoints@.len(),
                forall|j: int|
                    0 <= j < old(self).endpoints@.len() ==> (#[trigger] self.endpoints@[j]).same_identity(
                        old(self).endpoints@[j],
                    ),
                forall|j: int|
                    0 <= j < i ==> (#[trigger] self.endpoints@[j]).best_addr is None
                        && self.endpoints@[j].candidates@.len() == 0,
            decreases self.endpoints@.len() - i,
        {
            let ghost pre_pm = *self;
            self.endpoints[i].stop_and_reset();
            proof {
                assert forall|j: int|
                    0 <= j < self.endpoints@.len() implies (#[trigger] self.endpoints@[j]).same_identity(
                    pre_pm.endpoints@[j],
                ) by {
                    if j != i {
                        assert(self.endpoints@[j] == pre_pm.endpoints@[j]);
                    }
                }
                assert forall|j: int|
                    0 <= j < self.endpoints@.len() implies (#[trigger] self.endpoints@[j]).wf() by {
                    if j != i {
                        assert(self.endpoints@[j] == pre_pm.endpoints@[j]);
                    }
                }
                lemma_wf_after_update(pre_pm, *self);
            }
            i += 1;
        }
    }

    /// Sets the home relay address of the endpoint tracked for `k`;
    /// reports whether the key is tracked.
    pub fn update_node_by_key(&mut self, k: &PublicKey, derp_addr: Option<SockAddr>) -> (found:
        bool)
        requires
            old(self).wf(),
        ensures
            final(self).wf(),
            final(self).by_ip_port@ == old(self).by_ip_port@,
            final(self).next_id == old(self).next_id,
            final(self).allocated@ == old(self).allocated@,
            final(self).endpoints@.len() == old(self).endpoints@.len(),
            forall|j: int|
                0 <= j < old(self).endpoints@.len() ==> (#[trigger] final(self).endpoints@[j]).same_identity(
                    old(self).endpoints@[j],
                ),
            found == old(self).spec_has_key(k@),
            !found ==> final(self).endpoints@ == old(self).endpoints@,
            forall|j: int|
                0 <= j < old(self).endpoints@.len() ==> (#[trigger] final(self).endpoints@[j]).candidates@
                    == old(self).endpoints@[j].candidates@ && final(self).endpoints@[j].best_addr
                    == old(self).endpoints@[j].best_addr,
    {
        match self.index_of_key(k) {
            Some(i) => {
                let ghost pre_pm = *self;
                self.endpoints[i].update_from_node(derp_addr);
                proof {
                    assert forall|j: int|
                        0 <= j < self.endpoints@.len() implies (#[trigger] self.endpoints@[j]).same_identity(
                        old(self).endpoints@[j],
                    ) by {
                        if j != i {
                            assert(self.endpoints@[j] == pre_pm.endpoints@[j]);
                        }
                    }
                    assert forall|j: int|
                        0 <= j < self.endpoints@.len() implies (#[trigger] self.endpoints@[j]).wf() by {
                        if j != i {
                            assert(self.endpoints@[j] == pre_pm.endpoints@[j]);
                        } else {
                            assert(self.endpoints@[j].candidates@ == pre_pm.endpoints@[j].candidates@);
                        }
                    }
                    lemma_wf_after_update(pre_pm, *self);
                }
                true
            },
            None => false,
        }
    }

    /// Records a ping received from `src` against the endpoint tracked
    /// for `k`: reports `None` when the key is unknown, otherwise
    /// whether the ping was a duplicate to be dropped.
    pub fn add_candidate_by_key(&mut self, k: &PublicKey, src: SockAddr, tx: &TransactionId) -> (r:
        Option<bool>)
        requires
            old(self).wf(),
        ensures
            final(self).wf(),
            final(self).by_ip_port@ == old(self).by_ip_port@,
            final(self).next_id == old(self).next_id,
            final(self).allocated@ == old(self).allocated@,
            final(self).endpoints@.len() == old(self).endpoints@.len(),
            forall|j: int|
                0 <= j < old(self).endpoints@.len() ==> (#[trigger] final(self).endpoints@[j]).same_identity(
                    old(self).endpoints@[j],
                ),
            forall|j: int|
                0 <= j < old(self).endpoints@.len() ==> (#[trigger] final(self).endpoints@[j]).derp_addr
                    == old(self).endpoints@[j].derp_addr && final(self).endpoints@[j].best_addr
                    == old(self).endpoints@[j].best_addr,
            match r {
                None => !old(self).spec_has_key(k@) && final(self).endpoints@ == old(
                    self,
                ).endpoints@,
                Some(dup) => exists|i: int|
                    0 <= i < old(self).endpoints@.len() && (#[trigger] old(self).endpoints@[i]).public_key@
                        == k@ && dup == old(self).endpoints@[i].spec_has_got_ping(src, tx@),
            },
    {
        match self.index_of_key(k) {
            Some(i) => {
                let ghost pre_pm = *self;
                let dup = self.endpoints[i].add_candidate_endpoint(src, tx);
                proof {
                    assert forall|j: int|
                        0 <= j < self.endpoints@.len() implies (#[trigger] self.endpoints@[j]).same_identity(
                        old(self).endpoints@[j],
                    ) by {
                        if j != i {
                            assert(self.endpoints@[j] == pre_pm.endpoints@[j]);
                        }
                    }
                    assert forall|j: int|
                        0 <= j < self.endpoints@.len() implies (#[trigger] self.endpoints@[j]).wf() by {
                        if j != i {
                            assert(self.endpoints@[j] == pre_pm.endpoints@[j]);
                        }
                    }
                    lemma_wf_after_update(pre_pm, *self);
                }
                Some(dup)
            },
            None => None,
        }
    }

    /// Forgets the outstanding probe with transaction id `tx` on the
    /// endpoint with id `id`, if tracked.
    pub fn ping_timeout_by_id(&mut self, id: usize, tx: &TransactionId)
        requires
            old(self).wf(),
        ensures
            final(self).wf(),
            final(self).by_ip_port@ == old(self).by_ip_port@,
            final(self).next_id == old(self).next_id,
            final(self).allocated@ == old(self).allocated@,
            final(self).endpoints@.len() == old(self).endpoints@.len(),
            forall|j: int|
                0 <= j < old(self).endpoints@.len() ==> (#[trigger] final(self).endpoints@[j]).same_identity(
                    old(self).endpoints@[j],
                ),
            forall|j: int|
                0 <= j < final(self).endpoints@.len() && (#[trigger] final(self).endpoints@[j]).id
                    == id ==> !final(self).endpoints@[j].spec_has_pending(tx@),
    {
        match self.index_of_id(id) {
            Some(i) => {
                let ghost pre_pm = *self;
                self.endpoints[i].ping_timeout(tx);
                proof {
                    assert forall|j: int|
                        0 <= j < self.endpoints@.len() implies (#[trigger] self.endpoints@[j]).same_identity(
                        old(self).endpoints@[j],
                    ) by {
                        if j != i {
                            assert(self.endpoints@[j] == pre_pm.endpoints@[j]);
                        }
                    }
                    assert forall|j: int|
                        0 <= j < self.endpoints@.len() implies (#[trigger] self.endpoints@[j]).wf() by {
                        if j != i {
                            assert(self.endpoints@[j] == pre_pm.endpoints@[j]);
                        }
                    }
                    lemma_wf_after_update(pre_pm, *self);
                    assert forall|j: int|
                        0 <= j < self.endpoints@.len() && (#[trigger] self.endpoints@[j]).id == id
                            implies !self.endpoints@[j].spec_has_pending(tx@) by {
                        if j != i {
                            assert(self.endpoints@[j] == pre_pm.endpoints@[j]);
                            assert(pre_pm.endpoints@[j].id != pre_pm.endpoints@[i as int].id);
                        }
                    }
                }
            },
            None => {
            },
        }
    }

    /// Records outgoing discovery pings from the endpoint tracked for
    /// `k` to each listed address; reports whether the key is tracked.
    pub fn start_pings_by_key(
        &mut self,
        k: &PublicKey,
        addrs: &Vec<SockAddr>,
        txs: &Vec<TransactionId>,
        now: u64,
    ) -> (found: bool)
        requires
            old(self).wf(),
            addrs@.len() == txs@.len(),
        ensures
            final(self).wf(),
            final(self).by_ip_port@ == old(self).by_ip_port@,
            final(self).next_id == old(self).next_id,
            final(self).allocated@ == old(self).allocated@,
            final(self).endpoints@.len() == old(self).endpoints@.len(),
            forall|j: int|
                0 <= j < old(self).endpoints@.len() ==> (#[trigger] final(self).endpoints@[j]).same_identity(
                    old(self).endpoints@[j],
                ),
            found == old(self).spec_has_key(k@),
            found ==> exists|i: int|
                0 <= i < final(self).endpoints@.len() && (#[trigger] final(self).endpoints@[i]).public_key@
                    == k@ && forall|m: int|
                    0 <= m < addrs@.len() && (forall|j2: int|
                        m < j2 < addrs@.len() ==> addrs@[j2] != addrs@[m]) ==> final(self).endpoints@[i].spec_pending_at(
                        #[trigger] addrs@[m],
                        txs@[m]@,
                    ),
    {
        match self.index_of_key(k) {
            Some(i) => {
                let mut n: usize = 0;
                while n < addrs.len()
                    invariant
                        old(self).wf(),
                        i < self.endpoints@.len(),
                        n <= addrs@.len(),
                        addrs@.len() == txs@.len(),
                        self.wf(),
                        self.by_ip_port@ == old(self).by_ip_port@,
                        self.next_id == old(self).next_id,
                        self.allocated@ == old(self).allocated@,
                        self.endpoints@.len() == old(self).endpoints@.len(),
                        forall|j: int|
                            0 <= j < old(self).endpoints@.len() ==> (#[trigger] self.endpoints@[j]).same_identity(
                                old(self).endpoints@[j],
                            ),
                        self.endpoints@[i as int].public_key@ == k@,
                        forall|m: int|
                            0 <= m < n && (forall|j2: int|
                                m < j2 < n ==> addrs@[j2] != addrs@[m]) ==> self.endpoints@[i as int].spec_pending_at(
                                #[trigger] addrs@[m],
                                txs@[m]@,
                            ),
                    decreases addrs@.len() - n,
                {
                    let ghost pre_pm = *self;
                    self.endpoints[i].start_ping(addrs[n], &txs[n], now);
                    proof {
                        assert forall|m: int|
                            0 <= m < n + 1 && (forall|j2: int|
                                m < j2 < n + 1 ==> addrs@[j2] != addrs@[m]) implies self.endpoints@[i as int].spec_pending_at(
                            #[trigger] addrs@[m],
                            txs@[m]@,
                        ) by {
                            if m < n {
                                assert(addrs@[n as int] != addrs@[m]);
                                assert(pre_pm.endpoints@[i as int].spec_pending_at(
                                    addrs@[m],
                                    txs@[m]@,
                                ));
                                let w = choose|w: int|
                                    0 <= w < pre_pm.endpoints@[i as int].candidates@.len() && (
                                    #[trigger] pre_pm.endpoints@[i as int].candidates@[w]).addr
                                        == addrs@[m] && match pre_pm.endpoints@[i as int].candidates@[w].last_ping_tx {
                                        Some(t) => t@ == txs@[m]@,
                                        None => false,
                                    };
                                assert(self.endpoints@[i as int].candidates@[w]
                                    == pre_pm.endpoints@[i as int].candidates@[w]);
                            }
                        }
                    }
                    proof {
                        assert forall|j: int|
                            0 <= j < self.endpoints@.len() implies (#[trigger] self.endpoints@[j]).same_identity(
                            old(self).endpoints@[j],
                        ) by {
                            if j != i {
                                assert(self.endpoints@[j] == pre_pm.endpoints@[j]);
                            } else {
                                assert(self.endpoints@[j].same_identity(pre_pm.endpoints@[j]));
                            }
                        }
                        assert forall|j: int|
                            0 <= j < self.endpoints@.len() implies (#[trigger] self.endpoints@[j]).wf() by {
                            if j != i {
                                assert(self.endpoints@[j] == pre_pm.endpoints@[j]);
                            }
                        }
                        lemma_wf_after_update(pre_pm, *self);
                    }
                    n += 1;
                }
                true
            },
            None => false,
        }
    }

    /// Applies a pong from `sender` arriving at `src`.  Reports
    /// whether it matched an outstanding probe; on a match the
    /// socket-address index afterwards resolves `src` to the sender's
    /// endpoint.
    pub fn handle_pong(
        &mut self,
        sender: &PublicKey,
        pong: &Pong,
        src: SockAddr,
        now: u64,
    ) -> (matched: bool)
        requires
            old(self).wf(),
        ensures
            final(self).wf(),
            final(self).next_id == old(self).next_id,
            final(self).allocated@ == old(self).allocated@,
            final(self).endpoints@.len() == old(self).endpoints@.len(),
            forall|j: int|
                0 <= j < old(self).endpoints@.len() ==> (#[trigger] final(self).endpoints@[j]).same_identity(
                    old(self).endpoints@[j],
                ),
            !old(self).spec_has_key(sender@) ==> !matched && final(self).endpoints@ == old(
                self,
            ).endpoints@ && final(self).by_ip_port@ == old(self).by_ip_port@,
            matched == exists|i: int|
                0 <= i < old(self).endpoints@.len() && (#[trigger] old(self).endpoints@[i]).public_key@
                    == sender@ && old(self).endpoints@[i].spec_has_pending(pong.tx_id@),
            matched ==> exists|i: int|
                0 <= i < final(self).endpoints@.len() && (#[trigger] final(self).endpoints@[i]).public_key@
                    == sender@ && final(self).spec_ip_maps_to(src, final(self).endpoints@[i].id),
            !matched ==> final(self).by_ip_port@ == old(self).by_ip_port@,
            matched ==> exists|i: int|
                0 <= i < old(self).endpoints@.len() && (#[trigger] old(self).endpoints@[i]).public_key@
                    == sender@ && exists|c: int|
                    {
                        let rtt = crate::endpoint::spec_rtt(
                            old(self).endpoints@[i].candidates@[c].last_ping_at,
                            now,
                        );
                        &&& 0 <= c < old(self).endpoints@[i].candidates@.len()
                        &&& (match (#[trigger] old(self).endpoints@[i].candidates@[c]).last_ping_tx {
                            Some(t) => t@ == pong.tx_id@,
                            None => false,
                        })
                        &&& final(self).endpoints@[i].candidates@[c].addr == old(self).endpoints@[i].candidates@[c].addr
                        &&& final(self).endpoints@[i].candidates@[c].last_pong_at == Some(now)
                        &&& final(self).endpoints@[i].candidates@[c].rtt_ms == Some(rtt)
                        &&& (crate::endpoint::spec_promotes(
                            old(self).endpoints@[i].best_addr,
                            old(self).endpoints@[i].best_rtt_ms,
                            src,
                            rtt,
                        ) ==> final(self).endpoints@[i].best_addr == Some(src)
                            && final(self).endpoints@[i].best_rtt_ms == rtt
                            && final(self).endpoints@[i].best_confirmed_at == now)
                    },
    {
        match self.index_of_key(sender) {
            Some(i) => {
                let ghost pre_pm = *self;
                let matched = self.endpoints[i].handle_pong(pong, src, now);
                proof {
                    assert forall|i2: int|
                        0 <= i2 < pre_pm.endpoints@.len() && (#[trigger] pre_pm.endpoints@[i2]).public_key@
                            == sender@ implies pre_pm.endpoints@[i2].spec_has_pending(pong.tx_id@)
                        == matched by {
                        if i2 != i {
                            assert(pre_pm.endpoints@[i2].public_key@
                                != pre_pm.endpoints@[i as int].public_key@);
                        }
                    }
                }
                proof {
                    assert forall|j: int|
                        0 <= j < self.endpoints@.len() implies (#[trigger] self.endpoints@[j]).same_identity(
                        old(self).endpoints@[j],
                    ) by {
                        if j != i {
                            assert(self.endpoints@[j] == pre_pm.endpoints@[j]);
                        }
                    }
                    assert forall|j: int|
                        0 <= j < self.endpoints@.len() implies (#[trigger] self.endpoints@[j]).wf() by {
                        if j != i {
                            assert(self.endpoints@[j] == pre_pm.endpoints@[j]);
                        }
                    }
                    lemma_wf_after_update(pre_pm, *self);
                }
                if matched {
                    let id = self.endpoints[i].id;
                    proof {
                        assert(self.spec_has_id(id));
                    }
                    self.set_endpoint_for_ip_port(src, id);
                    proof {
                        assert(final(self).endpoints@[i as int].public_key@ == sender@);
                        assert(final(self).endpoints@[i as int].id == id);
                    }
                }
                matched
            },
            None => false,
        }
    }

    /// Removes the endpoint with id `id`, if tracked, together with
    /// every socket-address index entry that points at it.  The mapped
    /// address of the removed peer is not reused: the id stays in the
    /// allocated set and the counter does not move back.
    #[verifier::loop_isolation(false)]
    pub fn delete_endpoint(&mut self, id: usize)
        requires
            old(self).wf(),
        ensures
            final(self).wf(),
            !final(self).spec_has_id(id),
            final(self).next_id == old(self).next_id,
            final(self).allocated@ == old(self).allocated@,
            forall|i: int|
                0 <= i < final(self).endpoints@.len() ==> old(self).endpoints@.contains(
                    #[trigger] final(self).endpoints@[i],
                ),
            forall|i: int|
                0 <= i < old(self).endpoints@.len() && (#[trigger] old(self).endpoints@[i]).id
                    != id ==> final(self).endpoints@.contains(old(self).endpoints@[i]),
            forall|a: SockAddr, id2: usize|
                id2 != id ==> (#[trigger] final(self).spec_ip_maps_to(a, id2) <==> old(self).spec_ip_maps_to(a, id2)),
    {
        let mut k: usize = 0;
        while k < self.by_ip_port.len()
            invariant
                self.endpoints@ == old(self).endpoints@,
                self.next_id == old(self).next_id,
                self.allocated@ == old(self).allocated@,
                k <= self.by_ip_port@.len(),
                forall|j: int| 0 <= j < k ==> (#[trigger] self.by_ip_port@[j]).id != id,
                forall|j: int|
                    0 <= j < self.by_ip_port@.len() ==> old(self).by_ip_port@.contains(
                        #[trigger] self.by_ip_port@[j],
                    ),
                forall|e: IpPortEntry|
                    old(self).by_ip_port@.contains(e) && e.id != id ==> self.by_ip_port@.contains(
                        e,
                    ),
                forall|a: int, b: int|
                    0 <= a < b < self.by_ip_port@.len() ==> (#[trigger] self.by_ip_port@[a]).addr
                        != (#[trigger] self.by_ip_port@[b]).addr,
            decreases self.by_ip_port@.len() - k,
        {
            if self.by_ip_port[k].id == id {
                let ghost pre = self.by_ip_port@;
                self.by_ip_port.remove(k);
                proof {
                    assert forall|j: int|
                        0 <= j < self.by_ip_port@.len() implies old(self).by_ip_port@.contains(
                        #[trigger] self.by_ip_port@[j],
                    ) by {
                        if j < k {
                            assert(self.by_ip_port@[j] == pre[j]);
                            assert(old(self).by_ip_port@.contains(pre[j]));
                        } else {
                            assert(self.by_ip_port@[j] == pre[j + 1]);
                            assert(old(self).by_ip_port@.contains(pre[j + 1]));
                        }
                    }
                    assert forall|e: IpPortEntry|
                        old(self).by_ip_port@.contains(e) && e.id != id implies self.by_ip_port@.contains(
                        e,
                    ) by {
                        assert(pre.contains(e));
                        let w = choose|w: int| 0 <= w < pre.len() && pre[w] == e;
                        assert(w != k);
                        if w < k {
                            assert(self.by_ip_port@[w] == e);
                        } else {
                            assert(self.by_ip_port@[w - 1] == e);
                        }
                    }
                    assert forall|a: int, b: int|
                        0 <= a < b < self.by_ip_port@.len() implies (#[trigger] self.by_ip_port@[a]).addr
                        != (#[trigger] self.by_ip_port@[b]).addr by {
                        let a0 = if a < k { a } else { a + 1 };
                        let b0 = if b < k { b } else { b + 1 };
                        assert(self.by_ip_port@[a] == pre[a0]);
                        assert(self.by_ip_port@[b] == pre[b0]);
                    }
                }
            } else {
                k += 1;
            }
        }
        match self.index_of_id(id) {
            Some(i) => {
                let ghost pre = self.endpoints@;
                self.endpoints.remove(i);
                proof {
                    assert forall|j: int|
                        0 <= j < self.endpoints@.len() implies old(self).endpoints@.contains(
                        #[trigger] self.endpoints@[j],
                    ) by {
                        let j0 = if j < i { j } else { j + 1 };
                        assert(self.endpoints@[j] == pre[j0]);
                    }
                    assert forall|j: int|
                        0 <= j < old(self).endpoints@.len() && (#[trigger] old(self).endpoints@[j]).id
                            != id implies self.endpoints@.contains(old(self).endpoints@[j]) by {
                        if j < i {
                            assert(self.endpoints@[j] == pre[j]);
                        } else {
                            assert(j != i);
                            assert(self.endpoints@[j - 1] == pre[j]);
                        }
                    }
                    assert forall|j: int|
                        0 <= j < self.endpoints@.len() implies (#[trigger] self.endpoints@[j]).id
                        != id by {
                        let j0 = if j < i { j } else { j + 1 };
                        assert(self.endpoints@[j] == pre[j0]);
                        assert(j0 != i ==> pre[j0].id != pre[i as int].id);
                    }
                    assert forall|m: int|
                        0 <= m < self.by_ip_port@.len() implies self.spec_has_id(
                        (#[trigger] self.by_ip_port@[m]).id,
                    ) by {
                        assert(self.by_ip_port@[m].id != id);
                        assert(old(self).spec_has_id(self.by_ip_port@[m].id));
                        let w = choose|w: int|
                            0 <= w < old(self).endpoints@.len() && (#[trigger] old(self).endpoints@[w]).id
                                == self.by_ip_port@[m].id;
                        if w < i {
                            assert(self.endpoints@[w].id == self.by_ip_port@[m].id);
                        } else {
                            assert(w != i);
                            assert(self.endpoints@[w - 1].id == self.by_ip_port@[m].id);
                        }
                    }
                }
            },
            None => {
            },
        }
        proof {
            assert forall|a: SockAddr, id2: usize|
                id2 != id implies (#[trigger] self.spec_ip_maps_to(a, id2) <==> old(self).spec_ip_maps_to(a, id2)) by {
                if self.spec_ip_maps_to(a, id2) {
                    let w = choose|w: int|
                        0 <= w < self.by_ip_port@.len() && (#[trigger] self.by_ip_port@[w]).addr
                            == a && self.by_ip_port@[w].id == id2;
                    assert(old(self).by_ip_port@.contains(self.by_ip_port@[w]));
                    let v = choose|v: int|
                        0 <= v < old(self).by_ip_port@.len() && old(self).by_ip_port@[v]
                            == self.by_ip_port@[w];
                    assert(old(self).by_ip_port@[v].addr == a);
                }
                if old(self).spec_ip_maps_to(a, id2) {
                    let w = choose|w: int|
                        0 <= w < old(self).by_ip_port@.len() && (#[trigger] old(self).by_ip_port@[w]).addr == a && old(self).by_ip_port@[w].id == id2;
                    assert(old(self).by_ip_port@.contains(old(self).by_ip_port@[w]));
                    assert(self.by_ip_port@.contains(old(self).by_ip_port@[w]));
                    let v = choose|v: int|
                        0 <= v < self.by_ip_port@.len() && self.by_ip_port@[v] == old(self).by_ip_port@[w];
                    assert(self.by_ip_port@[v].addr == a);
                }
            }
        }
    }
}

/// Re-establishes the table invariant after one endpoint record was
/// mutated in place: identities and the indices are unchanged and every
/// record's own path state is still well formed.
pub proof fn lemma_wf_after_update(pre: PeerMap, post: PeerMap)
    requires
        pre.wf(),
        post.by_ip_port@ == pre.by_ip_port@,
        post.next_id == pre.next_id,
        post.allocated@ == pre.allocated@,
        post.endpoints@.len() == pre.endpoints@.len(),
        forall|j: int|
            0 <= j < pre.endpoints@.len() ==> (#[trigger] post.endpoints@[j]).same_identity(
                pre.endpoints@[j],
            ),
        forall|j: int| 0 <= j < post.endpoints@.len() ==> (#[trigger] post.endpoints@[j]).wf(),
    ensures
        post.wf(),
{
    assert forall|i: int|
        0 <= i < post.endpoints@.len() implies (#[trigger] post.endpoints@[i]).id < post.next_id
        && post.allocated@.contains(post.endpoints@[i].id as int)
        && post.endpoints@[i].quic_mapped_addr == QuicMappedAddr::spec_generate(
        post.endpoints@[i].id as u64,
    ) by {
        assert(post.endpoints@[i].same_identity(pre.endpoints@[i]));
    }
    assert forall|i: int, j: int|
        0 <= i < j < post.endpoints@.len() implies (#[trigger] post.endpoints@[i]).id != (
    #[trigger] post.endpoints@[j]).id && post.endpoints@[i].public_key@
        != post.endpoints@[j].public_key@ by {
        assert(post.endpoints@[i].same_identity(pre.endpoints@[i]));
        assert(post.endpoints@[j].same_identity(pre.endpoints@[j]));
    }
    assert forall|k: int|
        0 <= k < post.by_ip_port@.len() implies post.spec_has_id(
        (#[trigger] post.by_ip_port@[k]).id,
    ) by {
        assert(pre.spec_has_id(pre.by_ip_port@[k].id));
        let w = choose|w: int|
            0 <= w < pre.endpoints@.len() && (#[trigger] pre.endpoints@[w]).id
                == pre.by_ip_port@[k].id;
        assert(post.endpoints@[w].same_identity(pre.endpoints@[w]));
        assert(post.endpoints@[w].id == post.by_ip_port@[k].id);
    }
}

/// Any two endpoints in a well-formed table have distinct mapped
/// addresses: the map from mapped address to endpoint is injective.
pub proof fn lemma_mapped_addrs_distinct(pm: PeerMap, i: int, j: int)
    requires
        pm.wf(),
        0 <= i < pm.endpoints@.len(),
        0 <= j < pm.endpoints@.len(),
        i != j,
    ensures
        pm.endpoints@[i].quic_mapped_addr != pm.endpoints@[j].quic_mapped_addr,
{
    lemma_mapped_addr_injective(pm.endpoints@[i].id as u64, pm.endpoints@[j].id as u64);
}

/// Mapped addresses are pairwise distinct across the table's
/// lifetime: an id about to be allocated lies outside the
/// ever-allocated set, so its mapped address differs from the address
/// of every endpoint the table ever held — removal does not return an
/// id to the pool.
pub proof fn lemma_fresh_addr_never_reused(pm: PeerMap, fresh: usize, prior: usize)
    requires
        pm.wf(),
        !pm.allocated@.contains(fresh as int),
        pm.allocated@.contains(prior as int),
    ensures
        QuicMappedAddr::spec_generate(fresh as u64) != QuicMappedAddr::spec_generate(
            prior as u64,
        ),
{
    lemma_mapped_addr_injective(fresh as u64, prior as u64);
}

/// A mapped address, once handed out, stays with its peer: in any two
/// well-formed table states that track the peer `id`, its endpoint
/// carries the same mapped address — the one built from `id`, which no
/// later allocation (ids only grow) and no other endpoint (by
/// injectivity) can carry.
pub proof fn lemma_mapped_addr_stable(pre: PeerMap, post: PeerMap, id: usize)
    requires
        pre.wf(),
        post.wf(),
        pre.spec_has_id(id),
        post.spec_has_id(id),
    ensures
        exists|i: int|
            0 <= i < pre.endpoints@.len() && (#[trigger] pre.endpoints@[i]).id == id
                && pre.endpoints@[i].quic_mapped_addr == QuicMappedAddr::spec_generate(id as u64),
        exists|i: int|
            0 <= i < post.endpoints@.len() && (#[trigger] post.endpoints@[i]).id == id
                && post.endpoints@[i].quic_mapped_addr == QuicMappedAddr::spec_generate(id as u64),
{
    let i = choose|i: int|
        0 <= i < pre.endpoints@.len() && (#[trigger] pre.endpoints@[i]).id == id;
    assert(pre.endpoints@[i].quic_mapped_addr == QuicMappedAddr::spec_generate(id as u64));
    let j = choose|j: int|
        0 <= j < post.endpoints@.len() && (#[trigger] post.endpoints@[j]).id == id;
    assert(post.endpoints@[j].quic_mapped_addr == QuicMappedAddr::spec_generate(id as u64));
}

} // verus!

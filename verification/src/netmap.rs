//! The network map: the externally supplied snapshot of the peers this
//! node should know about, each with its public key, optional home
//! relay address and known candidate socket addresses.

use vstd::prelude::*;

use crate::addr::SockAddr;
use crate::key::PublicKey;

verus! {

/// One peer in the network map.
pub struct Node {
    pub key: PublicKey,
    /// The synthetic relay address of the peer's home region, if any.
    pub derp: Option<SockAddr>,
    /// Known candidate socket addresses for the peer.
    pub endpoints: Vec<SockAddr>,
}

/// The snapshot of peers this node should track.
pub struct NetworkMap {
    pub peers: Vec<Node>,
}

/// Whether two nodes carry the same peer data.
pub open spec fn node_eq(a: Node, b: Node) -> bool {
    &&& a.key@ == b.key@
    &&& a.derp == b.derp
    &&& a.endpoints@ == b.endpoints@
}

/// Whether some peer of the list carries public key `k`.
pub open spec fn peers_list_key(peers: Seq<Node>, k: Seq<u8>) -> bool {
    exists|q: int| 0 <= q < peers.len() && (#[trigger] peers[q]).key@ == k
}

/// Whether two peer lists are equal entry by entry.
pub open spec fn peers_eq(a: Seq<Node>, b: Seq<Node>) -> bool {
    &&& a.len() == b.len()
    &&& forall|i: int| 0 <= i < a.len() ==> node_eq(#[trigger] a[i], #[trigger] b[i])
}

/// Whether two address lists are equal entry by entry.
fn addrs_equal(a: &Vec<SockAddr>, b: &Vec<SockAddr>) -> (r: bool)
    ensures
        r == (a@ == b@),
{
    if a.len() != b.len() {
        return false;
    }
    let mut i: usize = 0;
    while i < a.len()
        invariant
            i <= a@.len(),
            a@.len() == b@.len(),
            forall|j: int| 0 <= j < i ==> a@[j] == b@[j],
        decreases a@.len() - i,
    {
        if a[i] != b[i] {
            return false;
        }
        i += 1;
    }
    proof {
        assert(a@ =~= b@);
    }
    true
}

/// Whether two nodes carry the same peer data.
pub fn node_equal(a: &Node, b: &Node) -> (r: bool)
    ensures
        r == node_eq(*a, *b),
{
    if !a.key.eq_bytes(&b.key) {
        return false;
    }
    let derp_same = match (&a.derp, &b.derp) {
        (None, None) => true,
        (Some(x), Some(y)) => *x == *y,
        _ => false,
    };
    if !derp_same {
        return false;
    }
    addrs_equal(&a.endpoints, &b.endpoints)
}

/// Whether two peer lists are equal entry by entry: same peers with
/// the same data in the same order.
pub fn peers_equal(a: &Vec<Node>, b: &Vec<Node>) -> (r: bool)
    ensures
        r == peers_eq(a@, b@),
{
    if a.len() != b.len() {
        return false;
    }
    let mut i: usize = 0;
    while i < a.len()
        invariant
            i <= a@.len(),
            a@.len() == b@.len(),
            forall|j: int| 0 <= j < i ==> node_eq(#[trigger] a@[j], #[trigger] b@[j]),
        decreases a@.len() - i,
    {
        if !node_equal(&a[i], &b[i]) {
            return false;
        }
        i += 1;
    }
    true
}

impl Clone for Node {
    fn clone(&self) -> (r: Self)
        ensures
            node_eq(r, *self),
    {
        let mut endpoints: Vec<SockAddr> = Vec::new();
        let mut i: usize = 0;
        while i < self.endpoints.len()
            invariant
                i <= self.endpoints@.len(),
                endpoints@ == self.endpoints@.subrange(0, i as int),
            decreases self.endpoints@.len() - i,
        {
            endpoints.push(self.endpoints[i]);
            i += 1;
            proof {
                assert(endpoints@ =~= self.endpoints@.subrange(0, i as int));
            }
        }
        proof {
            assert(endpoints@ =~= self.endpoints@);
        }
        Node { key: self.key.clone(), derp: self.derp, endpoints }
    }
}

impl Clone for NetworkMap {
    fn clone(&self) -> (r: Self)
        ensures
            peers_eq(r.peers@, self.peers@),
    {
        let mut peers: Vec<Node> = Vec::new();
        let mut i: usize = 0;
        while i < self.peers.len()
            invariant
                i <= self.peers@.len(),
                peers@.len() == i,
                forall|j: int| 0 <= j < i ==> node_eq(#[trigger] peers@[j], self.peers@[j]),
            decreases self.peers@.len() - i,
        {
            peers.push(self.peers[i].clone());
            i += 1;
        }
        NetworkMap { peers }
    }
}

} // verus!

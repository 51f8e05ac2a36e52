//! Locally visible endpoints and how sets of them are compared.
//!
//! An endpoint here is one of the socket addresses this node currently
//! advertises to its peers, tagged with how it was found.  The
//! coordinator rebuilds this set on every refresh and must decide
//! whether it changed; that comparison ignores order and duplicates.

use vstd::prelude::*;

use crate::addr::SockAddr;

verus! {

/// How a local endpoint was discovered.
#[derive(Clone, Copy, PartialEq, Eq, Structural, Debug)]
pub enum EndpointType {
    /// Reached through a router port mapping.
    Portmapped,
    /// A STUN-derived global address.
    Stun,
    /// The STUN-derived global IP with the preferred local port.
    Stun4LocalPort,
    /// A bound local interface address.
    Local,
}

/// One locally visible socket address, tagged with how it was found.
#[derive(Clone, Copy, PartialEq, Eq, Structural, Debug)]
pub struct Endpoint {
    pub addr: SockAddr,
    pub typ: EndpointType,
}

/// Whether `v` holds `e`.
pub fn contains_endpoint(v: &Vec<Endpoint>, e: &Endpoint) -> (r: bool)
    ensures
        r == v@.contains(*e),
{
    let mut i: usize = 0;
    while i < v.len()
        invariant
            i <= v@.len(),
            forall|j: int| 0 <= j < i ==> v@[j] != *e,
        decreases v@.len() - i,
    {
        if v[i] == *e {
            return true;
        }
        i += 1;
    }
    false
}

/// Reports whether `xs` and `ys` represent the same set of endpoints.
/// The order does not matter, and neither does multiplicity.
pub fn endpoint_sets_equal(xs: &Vec<Endpoint>, ys: &Vec<Endpoint>) -> (r: bool)
    ensures
        r == (xs@.to_set() == ys@.to_set()),
{
    if xs.len() == 0 && ys.len() == 0 {
        proof {
            assert(xs@.to_set() =~= ys@.to_set());
        }
        return true;
    }
    if xs.len() == ys.len() {
        let mut order_matches = true;
        let mut i: usize = 0;
        while i < xs.len() && order_matches
            invariant
                i <= xs@.len(),
                xs@.len() == ys@.len(),
                order_matches ==> forall|j: int| 0 <= j < i ==> xs@[j] == ys@[j],
            decreases xs@.len() - i, if order_matches { 1int } else { 0int },
        {
            if xs[i] != ys[i] {
                order_matches = false;
            } else {
                i += 1;
            }
        }
        if order_matches {
            proof {
                assert(xs@ =~= ys@);
            }
            return true;
        }
    }
    let mut i: usize = 0;
    while i < xs.len()
        invariant
            i <= xs@.len(),
            forall|j: int| 0 <= j < i ==> #[trigger] ys@.contains(xs@[j]),
        decreases xs@.len() - i,
    {
        if !contains_endpoint(ys, &xs[i]) {
            proof {
                assert(xs@.to_set().contains(xs@[i as int]));
                assert(!ys@.to_set().contains(xs@[i as int]));
            }
            return false;
        }
        i += 1;
    }
    let mut k: usize = 0;
    while k < ys.len()
        invariant
            k <= ys@.len(),
            forall|j: int| 0 <= j < xs@.len() ==> #[trigger] ys@.contains(xs@[j]),
            forall|j: int| 0 <= j < k ==> #[trigger] xs@.contains(ys@[j]),
        decreases ys@.len() - k,
    {
        if !contains_endpoint(xs, &ys[k]) {
            proof {
                assert(ys@.to_set().contains(ys@[k as int]));
                assert(!xs@.to_set().contains(ys@[k as int]));
            }
            return false;
        }
        k += 1;
    }
    proof {
        assert forall|e: Endpoint| xs@.to_set().contains(e) implies ys@.to_set().contains(e) by {
            let j = choose|j: int| 0 <= j < xs@.len() && xs@[j] == e;
            assert(ys@.contains(xs@[j]));
        }
        assert forall|e: Endpoint| ys@.to_set().contains(e) implies xs@.to_set().contains(e) by {
            let j = choose|j: int| 0 <= j < ys@.len() && ys@[j] == e;
            assert(xs@.contains(ys@[j]));
        }
        assert(xs@.to_set() =~= ys@.to_set());
    }
    true
}

/// Two endpoint lists with the same multiset of entries represent the
/// same set, so [`endpoint_sets_equal`] reports them equal: the
/// comparison ignores ordering.
pub proof fn lemma_endpoint_sets_equal_ignores_order(xs: Seq<Endpoint>, ys: Seq<Endpoint>)
    requires
        xs.to_multiset() == ys.to_multiset(),
    ensures
        xs.to_set() == ys.to_set(),
{
    xs.to_multiset_ensures();
    ys.to_multiset_ensures();
    assert forall|e: Endpoint| xs.to_set().contains(e) implies ys.to_set().contains(e) by {
        assert(xs.to_multiset().count(e) > 0);
    }
    assert forall|e: Endpoint| ys.to_set().contains(e) implies xs.to_set().contains(e) by {
        assert(ys.to_multiset().count(e) > 0);
    }
    assert(xs.to_set() =~= ys.to_set());
}

} // verus!

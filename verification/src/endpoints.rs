//! Building the local endpoint set.
//!
//! On every refresh the coordinator rebuilds the ordered list of
//! socket addresses this node advertises: port-mapped public addresses
//! first, then STUN-derived globals (optionally with the preferred
//! local port appended, to exploit symmetric-NAT hairpinning), then
//! bound local addresses — with loopback only when nothing else
//! exists.  The list is deduplicated by address, keeping the first,
//! highest-priority occurrence.

use vstd::prelude::*;

use crate::addr::{IpAddr, SockAddr};
use crate::cfg::{Endpoint, EndpointType};

verus! {

/// Everything the endpoint set is computed from: the port mapper's
/// external address, the STUN findings, the bound local addresses and
/// the interface addresses.
pub struct EndpointInputs {
    /// The router mapping's external address, if the port mapper has
    /// one.
    pub portmap_ext: Option<SockAddr>,
    /// The STUN-derived global IPv4 address, if any.
    pub global_v4: Option<SockAddr>,
    /// The STUN-derived global IPv6 address, if any.
    pub global_v6: Option<SockAddr>,
    /// Whether the NAT maps to different addresses per destination.
    pub mapping_varies_by_dest_ip: Option<bool>,
    /// The preferred local port; 0 means auto.
    pub preferred_port: u16,
    /// The bound IPv4 socket address, if bound.
    pub local_v4: Option<SockAddr>,
    /// The bound IPv6 socket address, if bound.
    pub local_v6: Option<SockAddr>,
    /// The addresses of the local interfaces.
    pub interface_ips: Vec<IpAddr>,
    /// The loopback addresses, used only when nothing else exists.
    pub loopback_ips: Vec<IpAddr>,
}

/// Whether some entry of `s` carries address `a`.
pub open spec fn has_addr(s: Seq<Endpoint>, a: SockAddr) -> bool {
    exists|i: int| 0 <= i < s.len() && (#[trigger] s[i]).addr == a
}

/// One local-interface candidate per listed address, using the port
/// its family is bound to (when that family is bound to the
/// unspecified address).
pub open spec fn spec_local_candidates(
    ips: Seq<IpAddr>,
    v4_port: Option<u16>,
    v6_port: Option<u16>,
) -> Seq<Endpoint>
    decreases ips.len(),
{
    if ips.len() == 0 {
        Seq::empty()
    } else {
        let head = match ips[0] {
            IpAddr::V4(_) => match v4_port {
                Some(p) => seq![
                    Endpoint { addr: SockAddr { ip: ips[0], port: p }, typ: EndpointType::Local },
                ],
                None => Seq::empty(),
            },
            IpAddr::V6(_) => match v6_port {
                Some(p) => seq![
                    Endpoint { addr: SockAddr { ip: ips[0], port: p }, typ: EndpointType::Local },
                ],
                None => Seq::empty(),
            },
        };
        head + spec_local_candidates(ips.drop_first(), v4_port, v6_port)
    }
}

/// The port-mapped candidate, when the port mapper has an external
/// address.
pub open spec fn cand_portmap(inp: EndpointInputs) -> Seq<Endpoint> {
    match inp.portmap_ext {
        Some(pe) => seq![Endpoint { addr: pe, typ: EndpointType::Portmapped }],
        None => Seq::empty(),
    }
}

/// The STUN-derived IPv4 candidates: the global address and, when the
/// NAT varies by destination and a local port is preferred, the
/// hairpin variant with that port.
pub open spec fn cand_stun4(inp: EndpointInputs) -> Seq<Endpoint> {
    match inp.global_v4 {
        Some(g4) => seq![Endpoint { addr: g4, typ: EndpointType::Stun }] + (
        if inp.mapping_varies_by_dest_ip == Some(true) && inp.preferred_port != 0 {
            seq![
                Endpoint {
                    addr: SockAddr { ip: g4.ip, port: inp.preferred_port },
                    typ: EndpointType::Stun4LocalPort,
                },
            ]
        } else {
            Seq::empty()
        }),
        None => Seq::empty(),
    }
}

/// The STUN-derived IPv6 candidate.
pub open spec fn cand_stun6(inp: EndpointInputs) -> Seq<Endpoint> {
    match inp.global_v6 {
        Some(g6) => seq![Endpoint { addr: g6, typ: EndpointType::Stun }],
        None => Seq::empty(),
    }
}

/// The port a family contributes to interface candidates: the bound
/// port, when that family is bound to the unspecified address.
pub open spec fn unspec_port(local: Option<SockAddr>) -> Option<u16> {
    match local {
        Some(a) => if a.ip.spec_is_unspecified() {
            Some(a.port)
        } else {
            None
        },
        None => None,
    }
}

/// The interface candidates: only when a socket is bound to the
/// unspecified address; loopback addresses only when there are no
/// interface addresses and nothing was found so far.
pub open spec fn cand_ifaces(inp: EndpointInputs) -> Seq<Endpoint> {
    if unspec_port(inp.local_v4) is Some || unspec_port(inp.local_v6) is Some {
        let ips = if inp.interface_ips@.len() == 0 && (cand_portmap(inp) + cand_stun4(inp)
            + cand_stun6(inp)).len() == 0 {
            inp.loopback_ips@
        } else {
            inp.interface_ips@
        };
        spec_local_candidates(ips, unspec_port(inp.local_v4), unspec_port(inp.local_v6))
    } else {
        Seq::empty()
    }
}

/// The concretely bound local address of one family, when it is not
/// the unspecified address.
pub open spec fn cand_bound(local: Option<SockAddr>) -> Seq<Endpoint> {
    match local {
        Some(a) => if !a.ip.spec_is_unspecified() {
            seq![Endpoint { addr: a, typ: EndpointType::Local }]
        } else {
            Seq::empty()
        },
        None => Seq::empty(),
    }
}

/// The candidate list before deduplication, in priority order:
/// port-mapped, STUN-derived, interface addresses, then each
/// concretely bound address.
pub open spec fn spec_candidates(inp: EndpointInputs) -> Seq<Endpoint> {
    cand_portmap(inp) + cand_stun4(inp) + cand_stun6(inp) + cand_ifaces(inp) + cand_bound(
        inp.local_v4,
    ) + cand_bound(inp.local_v6)
}

/// `cands` deduplicated by address onto the end of `out`: each
/// candidate is kept when no earlier entry already carries its
/// address.
pub open spec fn spec_dedup(cands: Seq<Endpoint>, out: Seq<Endpoint>) -> Seq<Endpoint>
    decreases cands.len(),
{
    if cands.len() == 0 {
        out
    } else if has_addr(out, cands[0].addr) {
        spec_dedup(cands.drop_first(), out)
    } else {
        spec_dedup(cands.drop_first(), out.push(cands[0]))
    }
}

/// The endpoint set computed from `inp`: the prioritised candidates,
/// deduplicated by address.
pub open spec fn spec_determine_endpoints(inp: EndpointInputs) -> Seq<Endpoint> {
    spec_dedup(spec_candidates(inp), Seq::empty())
}

/// Deduplication never introduces a duplicate address: if `out` is
/// duplicate-free, so is the result.
pub proof fn lemma_dedup_unique(cands: Seq<Endpoint>, out: Seq<Endpoint>)
    requires
        forall|i: int, j: int|
            0 <= i < j < out.len() ==> (#[trigger] out[i]).addr != (#[trigger] out[j]).addr,
    ensures
        forall|i: int, j: int|
            0 <= i < j < spec_dedup(cands, out).len() ==> (#[trigger] spec_dedup(cands, out)[i]).addr
                != (#[trigger] spec_dedup(cands, out)[j]).addr,
    decreases cands.len(),
{
    if cands.len() == 0 {
    } else if has_addr(out, cands[0].addr) {
        lemma_dedup_unique(cands.drop_first(), out);
    } else {
        let out2 = out.push(cands[0]);
        assert forall|i: int, j: int|
            0 <= i < j < out2.len() implies (#[trigger] out2[i]).addr != (#[trigger] out2[j]).addr by {
            if j == out2.len() - 1 {
                assert(out2[j] == cands[0]);
                assert(out2[i] == out[i]);
                assert(!has_addr(out, cands[0].addr));
            }
        }
        lemma_dedup_unique(cands.drop_first(), out2);
    }
}

/// Whether `v` already carries address `a`.
fn contains_addr(v: &Vec<Endpoint>, a: SockAddr) -> (r: bool)
    ensures
        r == has_addr(v@, a),
{
    let mut i: usize = 0;
    while i < v.len()
        invariant
            i <= v@.len(),
            forall|j: int| 0 <= j < i ==> (#[trigger] v@[j]).addr != a,
        decreases v@.len() - i,
    {
        if v[i].addr == a {
            return true;
        }
        i += 1;
    }
    false
}

/// Appends `cands[i..]`, deduplicated by address, to `out`.
fn dedup_into(cands: &Vec<Endpoint>, i: usize, out: &mut Vec<Endpoint>)
    requires
        i <= cands@.len(),
    ensures
        final(out)@ == spec_dedup(cands@.skip(i as int), old(out)@),
    decreases cands@.len() - i,
{
    if i == cands.len() {
        proof {
            assert(cands@.skip(i as int) =~= Seq::<Endpoint>::empty());
        }
        return ;
    }
    proof {
        assert(cands@.skip(i as int).drop_first() =~= cands@.skip(i + 1));
        assert(cands@.skip(i as int)[0] == cands@[i as int]);
    }
    let e = cands[i];
    if !contains_addr(out, e.addr) {
        out.push(e);
    }
    dedup_into(cands, i + 1, out);
}

/// Appends the local-interface candidates for `ips[i..]` to `out`.
fn push_local_candidates(
    ips: &Vec<IpAddr>,
    i: usize,
    v4_port: Option<u16>,
    v6_port: Option<u16>,
    out: &mut Vec<Endpoint>,
)
    requires
        i <= ips@.len(),
    ensures
        final(out)@ == old(out)@ + spec_local_candidates(ips@.skip(i as int), v4_port, v6_port),
    decreases ips@.len() - i,
{
    if i == ips.len() {
        proof {
            assert(ips@.skip(i as int) =~= Seq::<IpAddr>::empty());
            assert(old(out)@ + spec_local_candidates(ips@.skip(i as int), v4_port, v6_port) =~= old(
                out,
            )@);
        }
        return ;
    }
    proof {
        assert(ips@.skip(i as int).drop_first() =~= ips@.skip(i + 1));
        assert(ips@.skip(i as int)[0] == ips@[i as int]);
    }
    let ip = ips[i];
    let port = match ip {
        IpAddr::V4(_) => v4_port,
        IpAddr::V6(_) => v6_port,
    };
    match port {
        Some(p) => {
            out.push(Endpoint { addr: SockAddr { ip, port: p }, typ: EndpointType::Local });
        },
        None => {
        },
    }
    push_local_candidates(ips, i + 1, v4_port, v6_port, out);
    proof {
        assert(final(out)@ =~= old(out)@ + spec_local_candidates(
            ips@.skip(i as int),
            v4_port,
            v6_port,
        ));
    }
}

/// Computes the node's current endpoint set: the prioritised
/// candidates of `inp`, deduplicated by address, so no two entries
/// share an address and the first, highest-priority type wins.
#[verifier::rlimit(100)]
#[verifier::spinoff_prover]
pub fn determine_endpoints(inp: &EndpointInputs) -> (r: Vec<Endpoint>)
    ensures
        r@ == spec_determine_endpoints(*inp),
        forall|i: int, j: int|
            0 <= i < j < r@.len() ==> (#[trigger] r@[i]).addr != (#[trigger] r@[j]).addr,
{
    let mut cands: Vec<Endpoint> = Vec::new();
    match inp.portmap_ext {
        Some(pe) => {
            cands.push(Endpoint { addr: pe, typ: EndpointType::Portmapped });
        },
        None => {
        },
    }
    proof {
        assert(cands@ =~= cand_portmap(*inp));
    }
    match inp.global_v4 {
        Some(g4) => {
            cands.push(Endpoint { addr: g4, typ: EndpointType::Stun });
            let varies = match inp.mapping_varies_by_dest_ip {
                Some(v) => v,
                None => false,
            };
            if varies && inp.preferred_port != 0 {
                cands.push(
                    Endpoint {
                        addr: SockAddr { ip: g4.ip, port: inp.preferred_port },
                        typ: EndpointType::Stun4LocalPort,
                    },
                );
            }
        },
        None => {
        },
    }
    proof {
        assert(cands@ =~= cand_portmap(*inp) + cand_stun4(*inp));
    }
    match inp.global_v6 {
        Some(g6) => {
            cands.push(Endpoint { addr: g6, typ: EndpointType::Stun });
        },
        None => {
        },
    }
    proof {
        assert(cands@ =~= cand_portmap(*inp) + cand_stun4(*inp) + cand_stun6(*inp));
    }
    let v4_port = match inp.local_v4 {
        Some(a4) => if a4.ip.is_unspecified() {
            Some(a4.port)
        } else {
            None
        },
        None => None,
    };
    let v6_port = match inp.local_v6 {
        Some(a6) => if a6.ip.is_unspecified() {
            Some(a6.port)
        } else {
            None
        },
        None => None,
    };
    proof {
        assert(v4_port == unspec_port(inp.local_v4));
        assert(v6_port == unspec_port(inp.local_v6));
    }
    if v4_port.is_some() || v6_port.is_some() {
        if inp.interface_ips.len() == 0 && cands.len() == 0 {
            push_local_candidates(&inp.loopback_ips, 0, v4_port, v6_port, &mut cands);
            proof {
                assert(inp.loopback_ips@.skip(0) =~= inp.loopback_ips@);
            }
        } else {
            push_local_candidates(&inp.interface_ips, 0, v4_port, v6_port, &mut cands);
            proof {
                assert(inp.interface_ips@.skip(0) =~= inp.interface_ips@);
            }
        }
    }
    proof {
        assert(cands@ =~= cand_portmap(*inp) + cand_stun4(*inp) + cand_stun6(*inp) + cand_ifaces(
            *inp,
        ));
    }
    match inp.local_v4 {
        Some(a4) => {
            if !a4.ip.is_unspecified() {
                cands.push(Endpoint { addr: a4, typ: EndpointType::Local });
            }
        },
        None => {
        },
    }
    proof {
        assert(cands@ =~= cand_portmap(*inp) + cand_stun4(*inp) + cand_stun6(*inp) + cand_ifaces(
            *inp,
        ) + cand_bound(inp.local_v4));
    }
    match inp.local_v6 {
        Some(a6) => {
            if !a6.ip.is_unspecified() {
                cands.push(Endpoint { addr: a6, typ: EndpointType::Local });
            }
        },
        None => {
        },
    }
    proof {
        assert(cands@ =~= spec_candidates(*inp));
    }
    let mut out: Vec<Endpoint> = Vec::new();
    dedup_into(&cands, 0, &mut out);
    proof {
        assert(cands@.skip(0) =~= cands@);
        lemma_dedup_unique(cands@, Seq::empty());
    }
    out
}

} // verus!

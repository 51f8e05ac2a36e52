//! The relay map, the netcheck report, and the network-info summary
//! published to the embedding when conditions change substantially.

use vstd::prelude::*;

use crate::addr::SockAddr;

verus! {

/// The relay map: the region ids of the relay servers available to
/// this node.  An empty map disables relaying.
pub struct DerpMap {
    pub region_ids: Vec<u16>,
}

impl DerpMap {
    pub fn new(region_ids: Vec<u16>) -> (r: DerpMap)
        ensures
            r.region_ids@ == region_ids@,
    {
        DerpMap { region_ids }
    }

    /// Whether the map knows region `region`.
    pub fn contains(&self, region: u16) -> (r: bool)
        ensures
            r == self.region_ids@.contains(region),
    {
        let mut i: usize = 0;
        while i < self.region_ids.len()
            invariant
                i <= self.region_ids@.len(),
                forall|j: int| 0 <= j < i ==> self.region_ids@[j] != region,
            decreases self.region_ids@.len() - i,
        {
            if self.region_ids[i] == region {
                return true;
            }
            i += 1;
        }
        false
    }
}

impl Clone for DerpMap {
    fn clone(&self) -> (r: Self)
        ensures
            r.region_ids@ == self.region_ids@,
    {
        let mut region_ids: Vec<u16> = Vec::new();
        let mut i: usize = 0;
        while i < self.region_ids.len()
            invariant
                i <= self.region_ids@.len(),
                region_ids@ == self.region_ids@.subrange(0, i as int),
            decreases self.region_ids@.len() - i,
        {
            region_ids.push(self.region_ids[i]);
            i += 1;
            proof {
                assert(region_ids@ =~= self.region_ids@.subrange(0, i as int));
            }
        }
        proof {
            assert(region_ids@ =~= self.region_ids@);
        }
        DerpMap { region_ids }
    }
}

/// What a netcheck round reports about the local network.  Latencies
/// are in milliseconds.
pub struct Report {
    /// The STUN-derived global IPv4 address, if any.
    pub global_v4: Option<SockAddr>,
    /// The STUN-derived global IPv6 address, if any.
    pub global_v6: Option<SockAddr>,
    /// Whether the NAT maps to different addresses per destination.
    pub mapping_varies_by_dest_ip: Option<bool>,
    pub hair_pinning: Option<bool>,
    pub upnp: Option<bool>,
    pub pmp: Option<bool>,
    pub pcp: Option<bool>,
    /// Whether IPv6 works.
    pub ipv6: bool,
    pub os_has_ipv6: bool,
    /// Whether UDP works at all.
    pub udp: bool,
    pub icmpv4: bool,
    /// Whether IPv4 UDP sends are known to work.
    pub ipv4_can_send: bool,
    /// The nearest relay region, or 0 when unknown.
    pub preferred_derp: u16,
    /// Measured latency per relay region, in milliseconds.
    pub region_latency: Vec<(u16, u64)>,
}

/// The summary of network conditions published to the embedding.
pub struct NetInfo {
    pub mapping_varies_by_dest_ip: Option<bool>,
    pub hair_pinning: Option<bool>,
    pub upnp: Option<bool>,
    pub pmp: Option<bool>,
    pub pcp: Option<bool>,
    pub have_port_map: bool,
    pub working_ipv6: Option<bool>,
    pub os_has_ipv6: Option<bool>,
    pub working_udp: Option<bool>,
    pub working_icmp_v4: Option<bool>,
    /// The preferred relay region, or 0 when none could be chosen.
    pub preferred_derp: u16,
    /// Measured latency per relay region, in milliseconds.
    pub derp_latency: Vec<(u16, u64)>,
}

/// Whether two summaries agree on everything but the measured
/// latencies, which change constantly and are not worth a callback.
pub open spec fn spec_basically_equal(a: NetInfo, b: NetInfo) -> bool {
    &&& a.mapping_varies_by_dest_ip == b.mapping_varies_by_dest_ip
    &&& a.hair_pinning == b.hair_pinning
    &&& a.upnp == b.upnp
    &&& a.pmp == b.pmp
    &&& a.pcp == b.pcp
    &&& a.have_port_map == b.have_port_map
    &&& a.working_ipv6 == b.working_ipv6
    &&& a.os_has_ipv6 == b.os_has_ipv6
    &&& a.working_udp == b.working_udp
    &&& a.working_icmp_v4 == b.working_icmp_v4
    &&& a.preferred_derp == b.preferred_derp
}

/// Whether `ni` is the network summary derived from the report `rep`,
/// the port-mapper state and the chosen relay region.
pub open spec fn spec_summary_matches(
    ni: NetInfo,
    rep: Report,
    have_port_map: bool,
    preferred: u16,
) -> bool {
    &&& ni.mapping_varies_by_dest_ip == rep.mapping_varies_by_dest_ip
    &&& ni.hair_pinning == rep.hair_pinning
    &&& ni.upnp == rep.upnp
    &&& ni.pmp == rep.pmp
    &&& ni.pcp == rep.pcp
    &&& ni.have_port_map == have_port_map
    &&& ni.working_ipv6 == Some(rep.ipv6)
    &&& ni.os_has_ipv6 == Some(rep.os_has_ipv6)
    &&& ni.working_udp == Some(rep.udp)
    &&& ni.working_icmp_v4 == Some(rep.icmpv4)
    &&& ni.preferred_derp == preferred
    &&& ni.derp_latency@ == rep.region_latency@
}

/// Whether the summary derived from `rep` agrees with `last` on
/// everything but the measured latencies: such a summary is not worth
/// publishing again.
pub open spec fn spec_summary_basically_equal(
    rep: Report,
    have_port_map: bool,
    preferred: u16,
    last: NetInfo,
) -> bool {
    &&& last.mapping_varies_by_dest_ip == rep.mapping_varies_by_dest_ip
    &&& last.hair_pinning == rep.hair_pinning
    &&& last.upnp == rep.upnp
    &&& last.pmp == rep.pmp
    &&& last.pcp == rep.pcp
    &&& last.have_port_map == have_port_map
    &&& last.working_ipv6 == Some(rep.ipv6)
    &&& last.os_has_ipv6 == Some(rep.os_has_ipv6)
    &&& last.working_udp == Some(rep.udp)
    &&& last.working_icmp_v4 == Some(rep.icmpv4)
    &&& last.preferred_derp == preferred
}

impl NetInfo {
    /// Whether `self` and `other` agree on everything but latencies.
    pub fn basically_equal(&self, other: &NetInfo) -> (r: bool)
        ensures
            r == spec_basically_equal(*self, *other),
    {
        self.mapping_varies_by_dest_ip == other.mapping_varies_by_dest_ip
            && self.hair_pinning == other.hair_pinning && self.upnp == other.upnp && self.pmp
            == other.pmp && self.pcp == other.pcp && self.have_port_map == other.have_port_map
            && self.working_ipv6 == other.working_ipv6 && self.os_has_ipv6 == other.os_has_ipv6
            && self.working_udp == other.working_udp && self.working_icmp_v4
            == other.working_icmp_v4 && self.preferred_derp == other.preferred_derp
    }
}

impl Clone for NetInfo {
    fn clone(&self) -> (r: Self)
        ensures
            spec_basically_equal(r, *self),
            r.derp_latency@ == self.derp_latency@,
    {
        let mut derp_latency: Vec<(u16, u64)> = Vec::new();
        let mut i: usize = 0;
        while i < self.derp_latency.len()
            invariant
                i <= self.derp_latency@.len(),
                derp_latency@ == self.derp_latency@.subrange(0, i as int),
            decreases self.derp_latency@.len() - i,
        {
            derp_latency.push(self.derp_latency[i]);
            i += 1;
            proof {
                assert(derp_latency@ =~= self.derp_latency@.subrange(0, i as int));
            }
        }
        proof {
            assert(derp_latency@ =~= self.derp_latency@);
        }
        NetInfo {
            mapping_varies_by_dest_ip: self.mapping_varies_by_dest_ip,
            hair_pinning: self.hair_pinning,
            upnp: self.upnp,
            pmp: self.pmp,
            pcp: self.pcp,
            have_port_map: self.have_port_map,
            working_ipv6: self.working_ipv6,
            os_has_ipv6: self.os_has_ipv6,
            working_udp: self.working_udp,
            working_icmp_v4: self.working_icmp_v4,
            preferred_derp: self.preferred_derp,
            derp_latency,
        }
    }
}

} // verus!

//! The coordinator.
//!
//! A single owner of all mutable state: the peer table, the discovery
//! sessions, the network map, the last local endpoint set and the
//! endpoint-update latch.  Every mutation goes through one of the
//! state-transition functions here.  I/O is not performed here: each
//! transition returns the list of actions — datagrams to send, relay
//! commands, callbacks to invoke — that the embedding carries out, and
//! events come back in as further calls.  Times are milliseconds on
//! the embedding's monotonic clock.

use vstd::prelude::*;

use crate::addr::{QuicMappedAddr, SockAddr};
use crate::cfg::{endpoint_sets_equal, Endpoint as LocalEndpoint};
use crate::conn::{NetworkReadResult, NetworkSource, RecvMeta};
use crate::disco::{CallMeMaybe, Message, Ping, Pong, TransactionId};
use crate::key::PublicKey;
use crate::latch::{EndpointUpdateState, UpdateReason};
use crate::endpoints::{determine_endpoints, spec_determine_endpoints, EndpointInputs};
use crate::netinfo::{DerpMap, NetInfo, Report};
use crate::netmap::{peers_eq, peers_equal, peers_list_key, NetworkMap};
use crate::peer_map::PeerMap;
use crate::rng::{fallback_pick, seeded_region_choice};
use crate::transmit::Transmit;

verus! {

/// Whether a rebind keeps the current local port or draws a fresh one.
#[derive(Clone, Copy, PartialEq, Eq, Structural, Debug)]
pub enum CurrentPortFate {
    Keep,
    Drop,
}

/// How long the last computed endpoint set is considered fresh enough
/// to answer a call-me-maybe without a new STUN round, in
/// milliseconds: a few seconds shy of common UDP NAT expiry.
pub const ENDPOINTS_FRESH_ENOUGH_MS: u64 = 27000;

/// Event counters.
#[derive(Clone, Copy, PartialEq, Eq, Structural, Debug)]
pub struct Metrics {
    pub re_stun_calls: u64,
    pub recv_disco_bad_key: u64,
    pub recv_disco_bad_parse: u64,
    pub recv_disco_ping: u64,
    pub recv_disco_pong: u64,
    pub recv_disco_call_me_maybe: u64,
    pub recv_disco_call_me_maybe_bad_disco: u64,
    pub rebind_calls: u64,
    pub derp_home_change: u64,
}

impl Metrics {
    pub fn new() -> (r: Metrics)
        ensures
            r == (Metrics {
                re_stun_calls: 0u64,
                recv_disco_bad_key: 0u64,
                recv_disco_bad_parse: 0u64,
                recv_disco_ping: 0u64,
                recv_disco_pong: 0u64,
                recv_disco_call_me_maybe: 0u64,
                recv_disco_call_me_maybe_bad_disco: 0u64,
                rebind_calls: 0u64,
                derp_home_change: 0u64,
            }),
    {
        Metrics {
            re_stun_calls: 0,
            recv_disco_bad_key: 0,
            recv_disco_bad_parse: 0,
            recv_disco_ping: 0,
            recv_disco_pong: 0,
            recv_disco_call_me_maybe: 0,
            recv_disco_call_me_maybe_bad_disco: 0,
            rebind_calls: 0,
            derp_home_change: 0,
        }
    }
}

/// A counter bump that cannot overflow.
pub open spec fn spec_bump(c: u64) -> u64 {
    if c < u64::MAX {
        (c + 1) as u64
    } else {
        c
    }
}

/// A counter bump that cannot overflow.
pub fn bump(c: u64) -> (r: u64)
    ensures
        r == spec_bump(c),
{
    if c < u64::MAX {
        c + 1
    } else {
        c
    }
}

/// What the embedding found when it opened a sealed discovery box.
pub enum DiscoPayload {
    /// The box did not open: wrong or stale key.
    BadSeal,
    /// The box opened but the message did not parse.
    BadParse,
    /// The decoded message.
    Msg(Message),
}

/// One discovery session: the peer's key and when and from where its
/// last ping arrived.  The embedding derives the shared secret for a
/// key exactly once: when the entry for that key is first created.
pub struct DiscoInfo {
    pub node_key: PublicKey,
    pub last_ping_from: Option<SockAddr>,
    pub last_ping_time: Option<u64>,
}

/// An instruction to the embedding.  The coordinator decides; the
/// embedding performs.
pub enum Action {
    /// Send these datagrams over UDP to `dst`.
    SendUdp { dst: SockAddr, transmits: Vec<Transmit> },
    /// Send these payloads to the peer over the relay in `region`.
    SendDerp { region: u16, dst_key: PublicKey, contents: Vec<bytes::Bytes> },
    /// Seal `msg` for `dst_key`, frame it, and send it to `dst` (over
    /// the relay when `dst` is a relay address, over UDP otherwise).
    SendDisco { dst: SockAddr, dst_key: PublicKey, msg: Message },
    /// Open this sealed discovery box from `sender` and hand the
    /// outcome back to the disco handler.
    OpenDisco {
        sender: PublicKey,
        src: SockAddr,
        sealed: Vec<u8>,
        derp_node_src: Option<PublicKey>,
    },
    /// Deliver this datagram (or error sentinel) to the receive queue.
    Deliver { result: NetworkReadResult },
    /// Tell the relay worker to close or reconnect this region.
    DerpCloseOrReconnect { region: u16 },
    /// Tell the relay worker which region is home now.
    DerpNotePreferred { region: u16 },
    /// Tell the relay worker to connect to this region.
    DerpConnect { region: u16 },
    /// Hand the relay worker the new relay map.
    DerpSetMap { map: Option<DerpMap> },
    /// Tell the relay worker that the sockets rebound.
    DerpMaybeCloseOnRebind,
    /// Rebind the UDP sockets.
    Rebind { fate: CurrentPortFate },
    /// Run an endpoint refresh: query the port mapper, run netcheck,
    /// and hand the results to the update-completion handler.
    BeginEndpointUpdate { why: UpdateReason },
    /// Ask the disco handler to probe these candidate addresses for
    /// the peer, with fresh transaction ids.
    ProbeCandidates { dst_key: PublicKey, addrs: Vec<SockAddr> },
    /// Re-enqueue a deferred call-me-maybe now that endpoints are
    /// fresh.
    RequeueCallMeMaybe { derp_addr: SockAddr, endpoint_id: usize },
    /// Invoke the on-endpoints callback with the new endpoint set.
    CallOnEndpoints { endpoints: Vec<LocalEndpoint> },
    /// Invoke the network-info callback.
    CallNetInfo { info: NetInfo },
    /// Stop the workers, close the port mapper and the sockets.
    Teardown,
}

/// A command or event posted to the coordinator.  Queries that only
/// read state — the tracked peers, the local endpoints, a peer's
/// mapped address — are direct method calls and reply in place of a
/// one-shot channel.
pub enum ActorMessage {
    SetDerpMap(Option<DerpMap>),
    ReStun(UpdateReason),
    EnqueueCallMeMaybe { derp_addr: SockAddr, endpoint_id: usize },
    RebindAll,
    SetPreferredPort(u16),
    SendDiscoMessage { dst: SockAddr, dst_key: PublicKey, msg: Message },
    SetNetworkMap(NetworkMap),
    EndpointPingExpired(usize, TransactionId),
    CloseOrReconnect(u16),
    Shutdown,
}

/// The coordinator state.
pub struct Actor {
    /// This node's public key.
    pub public_key: PublicKey,
    /// The peer table.
    pub peer_map: PeerMap,
    /// One discovery session per peer key ever heard from.
    pub disco_info: Vec<DiscoInfo>,
    /// The current network map, if one was set.
    pub net_map: Option<NetworkMap>,
    /// The endpoint-update latch.
    pub endpoints_update_state: EndpointUpdateState,
    /// The endpoint set found by the previous refresh.
    pub last_endpoints: Vec<LocalEndpoint>,
    /// When the endpoints were last computed, even without change.
    pub last_endpoints_time: Option<u64>,
    /// Deferred call-me-maybes, one per endpoint id, served when the
    /// running refresh completes.
    pub on_endpoint_refreshed: Vec<(usize, SockAddr)>,
    /// The last network info published to the embedding.
    pub net_info_last: Option<NetInfo>,
    /// The home relay region; 0 means none.
    pub my_derp: u16,
    /// The current relay map, if any.
    pub derp_map: Option<DerpMap>,
    /// The preferred local port; 0 means auto.
    pub port: u16,
    /// Whether the last netcheck reported IPv4 sends broken.
    pub no_v4_send: bool,
    /// Set by the first close; later closes do nothing.
    pub closed: bool,
    /// Event counters.
    pub metrics: Metrics,
}

impl Actor {
    /// The coordinator invariant: the peer table is well formed and
    /// there is at most one discovery session per key.
    pub open spec fn wf(self) -> bool {
        &&& self.peer_map.wf()
        &&& forall|i: int, j: int|
            0 <= i < j < self.disco_info@.len() ==> (#[trigger] self.disco_info@[i]).node_key@ != (
            #[trigger] self.disco_info@[j]).node_key@
    }

    /// A fresh coordinator for the node with `public_key`.
    pub fn new(public_key: PublicKey, port: u16) -> (r: Actor)
        ensures
            r.wf(),
            r.public_key@ == public_key@,
            r.port == port,
            !r.closed,
            r.peer_map.endpoints@.len() == 0,
            r.disco_info@.len() == 0,
            r.net_map is None,
            r.my_derp == 0,
            r.endpoints_update_state.running is None,
            r.endpoints_update_state.want_update is None,
    {
        Actor {
            public_key,
            peer_map: PeerMap::new(),
            disco_info: Vec::new(),
            net_map: None,
            endpoints_update_state: EndpointUpdateState::new(),
            last_endpoints: Vec::new(),
            last_endpoints_time: None,
            on_endpoint_refreshed: Vec::new(),
            net_info_last: None,
            my_derp: 0,
            derp_map: None,
            no_v4_send: false,
            closed: false,
            metrics: Metrics::new(),
            port,
        }
    }

    /// Whether a session exists for `k`.
    pub open spec fn spec_has_disco(self, k: Seq<u8>) -> bool {
        exists|i: int|
            0 <= i < self.disco_info@.len() && (#[trigger] self.disco_info@[i]).node_key@ == k
    }

    /// Records a received ping in the session for `sender`, creating
    /// the session on first contact — the one moment the embedding
    /// derives the shared secret for this key.  Reports whether the
    /// ping looks like a heartbeat: same source as the last one and
    /// within the heartbeat interval.
    #[verifier::loop_isolation(false)]
    pub fn note_ping_received(&mut self, sender: &PublicKey, src: SockAddr, now: u64) -> (r: bool)
        requires
            old(self).wf(),
            sender.wf(),
        ensures
            final(self).wf(),
            final(self).peer_map == old(self).peer_map,
            final(self).metrics == old(self).metrics,
            final(self).closed == old(self).closed,
            final(self).spec_has_disco(sender@),
            !old(self).spec_has_disco(sender@) ==> !r,
            final(self).disco_info@.len() >= old(self).disco_info@.len(),
            forall|j: int|
                0 <= j < old(self).disco_info@.len() ==> (#[trigger] final(self).disco_info@[j]).node_key@
                    == old(self).disco_info@[j].node_key@,
            forall|j: int|
                0 <= j < old(self).disco_info@.len() && old(self).disco_info@[j].node_key@
                    != sender@ ==> #[trigger] final(self).disco_info@[j] == old(self).disco_info@[j],
            exists|i: int|
                0 <= i < final(self).disco_info@.len() && (#[trigger] final(self).disco_info@[i]).node_key@
                    == sender@ && final(self).disco_info@[i].last_ping_from == Some(src)
                    && final(self).disco_info@[i].last_ping_time == Some(now),
    {
        let mut i: usize = 0;
        while i < self.disco_info.len()
            invariant
                *self == *old(self),
                i <= self.disco_info@.len(),
                forall|j: int|
                    0 <= j < i ==> (#[trigger] self.disco_info@[j]).node_key@ != sender@,
            decreases self.disco_info@.len() - i,
        {
            if self.disco_info[i].node_key.eq_bytes(sender) {
                let likely_heartbeat = match (self.disco_info[i].last_ping_from,
                    self.disco_info[i].last_ping_time) {
                    (Some(from), Some(t)) => from == src && t <= now && now - t < 5000,
                    _ => false,
                };
                self.disco_info[i].last_ping_from = Some(src);
                self.disco_info[i].last_ping_time = Some(now);
                proof {
                    assert(self.disco_info@[i as int].node_key@ == sender@);
                    assert forall|a: int, b: int|
                        0 <= a < b < self.disco_info@.len() implies (#[trigger] self.disco_info@[a]).node_key@
                        != (#[trigger] self.disco_info@[b]).node_key@ by {
                        assert(self.disco_info@[a].node_key@ == old(self).disco_info@[a].node_key@);
                        assert(self.disco_info@[b].node_key@ == old(self).disco_info@[b].node_key@);
                    }
                }
                return likely_heartbeat;
            }
            i += 1;
        }
        self.disco_info.push(
            DiscoInfo {
                node_key: sender.clone(),
                last_ping_from: Some(src),
                last_ping_time: Some(now),
            },
        );
        proof {
            let n = self.disco_info@.len() - 1;
            assert(self.disco_info@[n].node_key@ == sender@);
            assert forall|a: int, b: int|
                0 <= a < b < self.disco_info@.len() implies (#[trigger] self.disco_info@[a]).node_key@
                != (#[trigger] self.disco_info@[b]).node_key@ by {
                if b < n {
                    assert(old(self).disco_info@[a].node_key@ != old(self).disco_info@[b].node_key@);
                } else {
                    assert(old(self).disco_info@[a].node_key@ != sender@);
                }
            }
        }
        false
    }

    /// The mapped address the QUIC layer can dial `node_key` at, if
    /// the peer is tracked.
    pub fn get_mapping_addr(&self, node_key: &PublicKey) -> (r: Option<QuicMappedAddr>)
        ensures
            match r {
                Some(m) => exists|i: int|
                    0 <= i < self.peer_map.endpoints@.len() && (#[trigger] self.peer_map.endpoints@[i]).public_key@
                        == node_key@ && self.peer_map.endpoints@[i].quic_mapped_addr == m,
                None => !self.peer_map.spec_has_key(node_key@),
            },
    {
        match self.peer_map.endpoint_for_node_key(node_key) {
            Some(ep) => Some(ep.quic_mapped_addr),
            None => None,
        }
    }

    /// The public keys of all tracked peers.
    pub fn tracked_endpoints(&self) -> (r: Vec<PublicKey>)
        ensures
            r@.len() == self.peer_map.endpoints@.len(),
            forall|i: int|
                0 <= i < r@.len() ==> (#[trigger] r@[i])@
                    == self.peer_map.endpoints@[i].public_key@,
    {
        self.peer_map.tracked_endpoints()
    }

    /// The endpoint set found by the previous refresh.
    pub fn local_endpoints(&self) -> (r: Vec<LocalEndpoint>)
        ensures
            r@ == self.last_endpoints@,
    {
        let mut out: Vec<LocalEndpoint> = Vec::new();
        let mut i: usize = 0;
        while i < self.last_endpoints.len()
            invariant
                i <= self.last_endpoints@.len(),
                out@ == self.last_endpoints@.subrange(0, i as int),
            decreases self.last_endpoints@.len() - i,
        {
            out.push(self.last_endpoints[i]);
            i += 1;
            proof {
                assert(out@ =~= self.last_endpoints@.subrange(0, i as int));
            }
        }
        proof {
            assert(out@ =~= self.last_endpoints@);
        }
        out
    }

    /// Requests an endpoint refresh.  While one is running only the
    /// most recent reason is remembered; otherwise the refresh begins
    /// at once.
    pub fn re_stun(&mut self, why: UpdateReason) -> (r: Vec<Action>)
        ensures
            final(self).wf() == old(self).wf(),
            final(self).peer_map == old(self).peer_map,
            final(self).closed == old(self).closed,
            final(self).on_endpoint_refreshed@ == old(self).on_endpoint_refreshed@,
            final(self).last_endpoints@ == old(self).last_endpoints@,
            final(self).last_endpoints_time == old(self).last_endpoints_time,
            final(self).net_info_last == old(self).net_info_last,
            final(self).endpoints_update_state == old(self).endpoints_update_state.spec_request(
                why,
            ),
            old(self).endpoints_update_state.running is Some ==> r@.len() == 0,
            old(self).endpoints_update_state.running is None ==> r@.len() == 1 && (r@[0] matches
                Action::BeginEndpointUpdate { why: w } && w == why),
    {
        self.metrics.re_stun_calls = bump(self.metrics.re_stun_calls);
        let started = self.endpoints_update_state.request(why);
        let mut actions: Vec<Action> = Vec::new();
        if started {
            actions.push(Action::BeginEndpointUpdate { why });
        }
        actions
    }

    /// Stores the relay map and hands it to the relay worker.  A map
    /// with no regions disables relaying.
    pub fn set_derp_map(&mut self, dm: Option<DerpMap>) -> (r: Vec<Action>)
        ensures
            final(self).wf() == old(self).wf(),
            final(self).peer_map == old(self).peer_map,
            match dm {
                Some(m) => final(self).derp_map matches Some(m2) && m2.region_ids@ == m.region_ids@,
                None => final(self).derp_map is None,
            },
            r@.len() == 1 && (r@[0] matches Action::DerpSetMap { .. }),
    {
        let forwarded = match &dm {
            Some(m) => Some(m.clone()),
            None => None,
        };
        self.derp_map = dm;
        let mut actions: Vec<Action> = Vec::new();
        actions.push(Action::DerpSetMap { map: forwarded });
        actions
    }

    /// Closes the connection.  Only the first close does any work:
    /// it clears all path state and tears the workers down.  Any
    /// later close changes nothing and returns no work.
    pub fn close(&mut self) -> (r: Vec<Action>)
        requires
            old(self).wf(),
        ensures
            final(self).wf(),
            final(self).closed,
            old(self).closed ==> *final(self) == *old(self) && r@.len() == 0,
            !old(self).closed ==> r@.len() == 1 && (r@[0] matches Action::Teardown) && forall|
                j: int,
            |
                0 <= j < final(self).peer_map.endpoints@.len() ==> (#[trigger] final(self).peer_map.endpoints@[j]).best_addr
                    is None && final(self).peer_map.endpoints@[j].candidates@.len() == 0,
            final(self).peer_map.endpoints@.len() == old(self).peer_map.endpoints@.len(),
            forall|j: int|
                0 <= j < old(self).peer_map.endpoints@.len() ==> (#[trigger] final(self).peer_map.endpoints@[j]).same_identity(old(self).peer_map.endpoints@[j]),
    {
        if self.closed {
            return Vec::new();
        }
        self.peer_map.stop_all();
        self.closed = true;
        let mut actions: Vec<Action> = Vec::new();
        actions.push(Action::Teardown);
        actions
    }

    /// Applies a new network map: tracks every listed peer (allocating
    /// mapped addresses only for peers not yet tracked), refreshes
    /// relay hints and address index entries, and drops peers that the
    /// map no longer names once their pending probes have drained.  A
    /// map with an unchanged peer list changes nothing: no allocation
    /// moves and no callback fires.
    #[verifier::loop_isolation(false)]
    #[verifier::rlimit(100)]
    pub fn set_network_map(&mut self, nm: NetworkMap) -> (r: Vec<Action>)
        requires
            old(self).wf(),
            old(self).peer_map.next_id + nm.peers@.len() <= usize::MAX,
            forall|i: int, j: int|
                0 <= i < j < nm.peers@.len() ==> (#[trigger] nm.peers@[i]).key@ != (
                #[trigger] nm.peers@[j]).key@,
        ensures
            final(self).wf(),
            old(self).closed ==> *final(self) == *old(self),
            r@.len() == 0,
            !old(self).closed ==> (final(self).net_map matches Some(m) && m.peers@ == nm.peers@),
            !old(self).closed && (match old(self).net_map {
                Some(prior) => peers_eq(prior.peers@, nm.peers@),
                None => false,
            }) ==> final(self).peer_map == old(self).peer_map,
            !old(self).closed && !(match old(self).net_map {
                Some(prior) => peers_eq(prior.peers@, nm.peers@),
                None => false,
            }) ==> {
                &&& forall|i: int|
                    0 <= i < nm.peers@.len() ==> final(self).peer_map.spec_has_key(
                        (#[trigger] nm.peers@[i]).key@,
                    )
                &&& forall|j: int|
                    0 <= j < old(self).peer_map.endpoints@.len() && peers_list_key(
                        nm.peers@,
                        (#[trigger] old(self).peer_map.endpoints@[j]).public_key@,
                    ) ==> exists|j2: int|
                        0 <= j2 < final(self).peer_map.endpoints@.len() && (#[trigger] final(self).peer_map.endpoints@[j2]).same_identity(old(self).peer_map.endpoints@[j])
                &&& forall|i: int, e: int|
                    0 <= i < nm.peers@.len() && 0 <= e < nm.peers@[i].endpoints@.len()
                        ==> spec_addr_indexed(
                        final(self).peer_map,
                        nm.peers@,
                        #[trigger] nm.peers@[i].endpoints@[e],
                    )
                &&& forall|j2: int|
                    0 <= j2 < final(self).peer_map.endpoints@.len() ==> peers_list_key(
                        nm.peers@,
                        (#[trigger] final(self).peer_map.endpoints@[j2]).public_key@,
                    ) || exists|j0: int|
                        0 <= j0 < old(self).peer_map.endpoints@.len() && (#[trigger] old(self).peer_map.endpoints@[j0]).public_key@ == final(self).peer_map.endpoints@[j2].public_key@ && old(self).peer_map.endpoints@[j0].spec_has_any_pending()
            },
    {
        if self.closed {
            return Vec::new();
        }
        let unchanged = match &self.net_map {
            Some(prior) => peers_equal(&prior.peers, &nm.peers),
            None => false,
        };
        if unchanged {
            self.net_map = Some(nm);
            return Vec::new();
        }
        let ghost oldeps = old(self).peer_map.endpoints@;
        let mut i: usize = 0;
        while i < nm.peers.len()
            invariant
                self.wf(),
                i <= nm.peers@.len(),
                self.peer_map.next_id + nm.peers@.len() - i <= usize::MAX,
                self.peer_map.endpoints@.len() >= oldeps.len(),
                forall|j: int|
                    0 <= j < oldeps.len() ==> (#[trigger] self.peer_map.endpoints@[j]).same_identity(
                        oldeps[j],
                    ) && self.peer_map.endpoints@[j].candidates@ == oldeps[j].candidates@,
                forall|j: int|
                    oldeps.len() <= j < self.peer_map.endpoints@.len() ==> peers_list_key(
                        nm.peers@,
                        (#[trigger] self.peer_map.endpoints@[j]).public_key@,
                    ),
                forall|j: int|
                    0 <= j < i ==> self.peer_map.spec_has_key((#[trigger] nm.peers@[j]).key@),
                forall|i2: int, e: int|
                    0 <= i2 < i && 0 <= e < nm.peers@[i2].endpoints@.len() ==> spec_addr_indexed(
                        self.peer_map,
                        nm.peers@,
                        #[trigger] nm.peers@[i2].endpoints@[e],
                    ),
            decreases nm.peers@.len() - i,
        {
            let node = &nm.peers[i];
            let ghost pm0 = self.peer_map;
            let known = self.peer_map.index_of_key(&node.key).is_some();
            if !known {
                self.peer_map.insert_endpoint(node.key.clone(), node.derp);
            }
            proof {
                if !known {
                    assert forall|j: int|
                        0 <= j < pm0.endpoints@.len() implies #[trigger] self.peer_map.endpoints@[j]
                        == pm0.endpoints@[j] by {
                        assert(self.peer_map.endpoints@.subrange(
                            0,
                            pm0.endpoints@.len() as int,
                        )[j] == self.peer_map.endpoints@[j]);
                    }
                    assert(peers_list_key(nm.peers@, self.peer_map.endpoints@.last().public_key@));
                }
                assert forall|j: int|
                    0 <= j <= i implies self.peer_map.spec_has_key(
                    (#[trigger] nm.peers@[j]).key@,
                ) by {
                    if j < i {
                        let w = choose|w: int|
                            0 <= w < pm0.endpoints@.len() && (#[trigger] pm0.endpoints@[w]).public_key@
                                == nm.peers@[j].key@;
                        assert(self.peer_map.endpoints@[w].public_key@ == nm.peers@[j].key@);
                    } else {
                        if known {
                            assert(pm0.spec_has_key(node.key@));
                        }
                    }
                }
                assert forall|i2: int, e: int|
                    0 <= i2 < i && 0 <= e < nm.peers@[i2].endpoints@.len() implies
                    spec_addr_indexed(
                    self.peer_map,
                    nm.peers@,
                    #[trigger] nm.peers@[i2].endpoints@[e],
                ) by {
                    let a = nm.peers@[i2].endpoints@[e];
                    let w = choose|w: int|
                        0 <= w < pm0.endpoints@.len() && pm0.spec_ip_maps_to(
                            a,
                            (#[trigger] pm0.endpoints@[w]).id,
                        ) && peers_list_key(nm.peers@, pm0.endpoints@[w].public_key@);
                    assert(self.peer_map.endpoints@[w] == pm0.endpoints@[w]);
                    assert(self.peer_map.by_ip_port@ == pm0.by_ip_port@);
                    assert(self.peer_map.spec_ip_maps_to(a, self.peer_map.endpoints@[w].id));
                }
            }
            let ghost pm1 = self.peer_map;
            self.peer_map.update_node_by_key(&node.key, node.derp);
            proof {
                assert forall|j: int|
                    0 <= j <= i implies self.peer_map.spec_has_key(
                    (#[trigger] nm.peers@[j]).key@,
                ) by {
                    let w = choose|w: int|
                        0 <= w < pm1.endpoints@.len() && (#[trigger] pm1.endpoints@[w]).public_key@
                            == nm.peers@[j].key@;
                    assert(self.peer_map.endpoints@[w].same_identity(pm1.endpoints@[w]));
                }
                assert forall|i2: int, e: int|
                    0 <= i2 < i && 0 <= e < nm.peers@[i2].endpoints@.len() implies
                    spec_addr_indexed(
                    self.peer_map,
                    nm.peers@,
                    #[trigger] nm.peers@[i2].endpoints@[e],
                ) by {
                    let a = nm.peers@[i2].endpoints@[e];
                    let w = choose|w: int|
                        0 <= w < pm1.endpoints@.len() && pm1.spec_ip_maps_to(
                            a,
                            (#[trigger] pm1.endpoints@[w]).id,
                        ) && peers_list_key(nm.peers@, pm1.endpoints@[w].public_key@);
                    assert(self.peer_map.endpoints@[w].same_identity(pm1.endpoints@[w]));
                    assert(self.peer_map.by_ip_port@ == pm1.by_ip_port@);
                    assert(self.peer_map.spec_ip_maps_to(a, self.peer_map.endpoints@[w].id));
                }
            }
            match self.peer_map.id_for_key(&node.key) {
                Some(id) => {
                    let mut e: usize = 0;
                    while e < node.endpoints.len()
                        invariant
                            self.wf(),
                            e <= node.endpoints@.len(),
                            i < nm.peers@.len(),
                            *node == nm.peers@[i as int],
                            self.peer_map.spec_has_id(id),
                            exists|w: int|
                                0 <= w < self.peer_map.endpoints@.len() && (#[trigger] self.peer_map.endpoints@[w]).id == id && self.peer_map.endpoints@[w].public_key@ == node.key@,
                            self.peer_map.next_id + nm.peers@.len() - i - 1 <= usize::MAX,
                            self.peer_map.endpoints@.len() >= oldeps.len(),
                            forall|j: int|
                                0 <= j < oldeps.len() ==> (#[trigger] self.peer_map.endpoints@[j]).same_identity(
                                    oldeps[j],
                                ) && self.peer_map.endpoints@[j].candidates@
                                    == oldeps[j].candidates@,
                            forall|j: int|
                                oldeps.len() <= j < self.peer_map.endpoints@.len()
                                    ==> peers_list_key(
                                    nm.peers@,
                                    (#[trigger] self.peer_map.endpoints@[j]).public_key@,
                                ),
                            forall|j: int|
                                0 <= j <= i ==> self.peer_map.spec_has_key(
                                    (#[trigger] nm.peers@[j]).key@,
                                ),
                            forall|i2: int, e2: int|
                                0 <= i2 < i && 0 <= e2 < nm.peers@[i2].endpoints@.len()
                                    ==> spec_addr_indexed(
                                    self.peer_map,
                                    nm.peers@,
                                    #[trigger] nm.peers@[i2].endpoints@[e2],
                                ),
                            forall|e2: int|
                                0 <= e2 < e ==> spec_addr_indexed(
                                    self.peer_map,
                                    nm.peers@,
                                    #[trigger] node.endpoints@[e2],
                                ),
                        decreases node.endpoints@.len() - e,
                    {
                        let ghost pm2 = self.peer_map;
                        self.peer_map.set_endpoint_for_ip_port(node.endpoints[e], id);
                        proof {
                            let a_new = node.endpoints@[e as int];
                            let wid = choose|w: int|
                                0 <= w < self.peer_map.endpoints@.len() && (#[trigger] self.peer_map.endpoints@[w]).id == id && self.peer_map.endpoints@[w].public_key@
                                    == node.key@;
                            assert(nm.peers@[i as int].key@ == node.key@);
                            assert(peers_list_key(nm.peers@, node.key@));
                            assert(spec_addr_indexed(self.peer_map, nm.peers@, a_new));
                            assert forall|i2: int, e2: int|
                                0 <= i2 < i && 0 <= e2 < nm.peers@[i2].endpoints@.len() implies
                                spec_addr_indexed(
                                self.peer_map,
                                nm.peers@,
                                #[trigger] nm.peers@[i2].endpoints@[e2],
                            ) by {
                                let a = nm.peers@[i2].endpoints@[e2];
                                if a == a_new {
                                    assert(spec_addr_indexed(self.peer_map, nm.peers@, a));
                                } else {
                                    let w = choose|w: int|
                                        0 <= w < pm2.endpoints@.len() && pm2.spec_ip_maps_to(
                                            a,
                                            (#[trigger] pm2.endpoints@[w]).id,
                                        ) && peers_list_key(
                                            nm.peers@,
                                            pm2.endpoints@[w].public_key@,
                                        );
                                    assert(self.peer_map.spec_ip_maps_to(
                                        a,
                                        pm2.endpoints@[w].id,
                                    ));
                                    assert(self.peer_map.endpoints@[w] == pm2.endpoints@[w]);
                                }
                            }
                            assert forall|e2: int|
                                0 <= e2 <= e implies spec_addr_indexed(
                                self.peer_map,
                                nm.peers@,
                                #[trigger] node.endpoints@[e2],
                            ) by {
                                let a = node.endpoints@[e2];
                                if a == a_new {
                                    assert(spec_addr_indexed(self.peer_map, nm.peers@, a));
                                } else {
                                    let w = choose|w: int|
                                        0 <= w < pm2.endpoints@.len() && pm2.spec_ip_maps_to(
                                            a,
                                            (#[trigger] pm2.endpoints@[w]).id,
                                        ) && peers_list_key(
                                            nm.peers@,
                                            pm2.endpoints@[w].public_key@,
                                        );
                                    assert(self.peer_map.spec_ip_maps_to(
                                        a,
                                        pm2.endpoints@[w].id,
                                    ));
                                    assert(self.peer_map.endpoints@[w] == pm2.endpoints@[w]);
                                }
                            }
                        }
                        e += 1;
                    }
                },
                None => {
                    proof {
                        assert(false);
                    }
                },
            }
            i += 1;
        }
        self.prune_peers(&nm, Ghost(oldeps));
        self.net_map = Some(nm);
        Vec::new()
    }

    /// Removes every tracked peer that the new peer list no longer
    /// names and that has no probe still outstanding, together with
    /// its socket-address index entries.  Listed peers, and unlisted
    /// peers still draining probes, survive with their identity and
    /// their index entries intact.
    #[verifier::loop_isolation(false)]
    #[verifier::rlimit(100)]
    fn prune_peers(&mut self, nm: &NetworkMap, Ghost(oldeps): Ghost<Seq<crate::endpoint::Endpoint>>)
        requires
            old(self).wf(),
            forall|j: int|
                0 <= j < nm.peers@.len() ==> old(self).peer_map.spec_has_key(
                    (#[trigger] nm.peers@[j]).key@,
                ),
            old(self).peer_map.endpoints@.len() >= oldeps.len(),
            forall|j: int|
                0 <= j < oldeps.len() ==> (#[trigger] old(self).peer_map.endpoints@[j]).same_identity(
                    oldeps[j],
                ) && old(self).peer_map.endpoints@[j].candidates@ == oldeps[j].candidates@,
            forall|j: int|
                oldeps.len() <= j < old(self).peer_map.endpoints@.len() ==> peers_list_key(
                    nm.peers@,
                    (#[trigger] old(self).peer_map.endpoints@[j]).public_key@,
                ),
            forall|i2: int, e2: int|
                0 <= i2 < nm.peers@.len() && 0 <= e2 < nm.peers@[i2].endpoints@.len()
                    ==> spec_addr_indexed(
                    old(self).peer_map,
                    nm.peers@,
                    #[trigger] nm.peers@[i2].endpoints@[e2],
                ),
        ensures
            final(self).wf(),
            *final(self) == (Actor { peer_map: final(self).peer_map, ..*old(self) }),
            forall|j: int|
                0 <= j < nm.peers@.len() ==> final(self).peer_map.spec_has_key(
                    (#[trigger] nm.peers@[j]).key@,
                ),
            forall|j: int|
                0 <= j < oldeps.len() && peers_list_key(
                    nm.peers@,
                    (#[trigger] oldeps[j]).public_key@,
                ) ==> exists|j2: int|
                    0 <= j2 < final(self).peer_map.endpoints@.len() && (#[trigger] final(self).peer_map.endpoints@[j2]).same_identity(oldeps[j]),
            forall|i2: int, e2: int|
                0 <= i2 < nm.peers@.len() && 0 <= e2 < nm.peers@[i2].endpoints@.len()
                    ==> spec_addr_indexed(
                    final(self).peer_map,
                    nm.peers@,
                    #[trigger] nm.peers@[i2].endpoints@[e2],
                ),
            forall|j2: int|
                0 <= j2 < final(self).peer_map.endpoints@.len() ==> peers_list_key(
                    nm.peers@,
                    (#[trigger] final(self).peer_map.endpoints@[j2]).public_key@,
                ) || exists|j0: int|
                    0 <= j0 < oldeps.len() && (#[trigger] oldeps[j0]).public_key@
                        == final(self).peer_map.endpoints@[j2].public_key@ && oldeps[j0].spec_has_any_pending(),
    {
        let keep = &nm.peers;
        let ghost pm_ins = self.peer_map;
        let mut to_delete: Vec<usize> = Vec::new();
        let mut p: usize = 0;
        while p < self.peer_map.node_count()
            invariant
                self.wf(),
                self.peer_map == pm_ins,
                *self == (Actor { peer_map: self.peer_map, ..*old(self) }),
                p <= self.peer_map.endpoints@.len(),
                forall|j: int|
                    0 <= j < nm.peers@.len() ==> self.peer_map.spec_has_key(
                        (#[trigger] nm.peers@[j]).key@,
                    ),
                forall|x: int, i: int|
                    #![trigger self.peer_map.endpoints@[i], to_delete@[x]]
                    0 <= x < to_delete@.len() && 0 <= i < self.peer_map.endpoints@.len()
                        && self.peer_map.endpoints@[i].id == to_delete@[x] ==> forall|j: int|
                        0 <= j < nm.peers@.len() ==> (#[trigger] nm.peers@[j]).key@
                            != self.peer_map.endpoints@[i].public_key@,
                forall|p2: int|
                    0 <= p2 < p ==> peers_list_key(
                        nm.peers@,
                        (#[trigger] self.peer_map.endpoints@[p2]).public_key@,
                    ) || (exists|j0: int|
                        0 <= j0 < oldeps.len() && (#[trigger] oldeps[j0]).public_key@
                            == self.peer_map.endpoints@[p2].public_key@ && oldeps[j0].spec_has_any_pending())
                        || (exists|x: int|
                        0 <= x < to_delete@.len() && #[trigger] to_delete@[x]
                            == self.peer_map.endpoints@[p2].id),
            decreases self.peer_map.endpoints@.len() - p,
        {
            let ghost td0 = to_delete@;
            let mut found = false;
            let mut q: usize = 0;
            while q < keep.len()
                invariant
                    q <= keep@.len(),
                    p < self.peer_map.endpoints@.len(),
                    !found ==> forall|j: int|
                        0 <= j < q ==> (#[trigger] keep@[j]).key@
                            != self.peer_map.endpoints@[p as int].public_key@,
                    found ==> peers_list_key(
                        nm.peers@,
                        self.peer_map.endpoints@[p as int].public_key@,
                    ),
                decreases keep@.len() - q,
            {
                if keep[q].key.eq_bytes(&self.peer_map.endpoint_at(p).public_key) {
                    found = true;
                }
                q += 1;
            }
            let draining = self.peer_map.endpoint_at(p).has_any_pending();
            proof {
                if p < oldeps.len() {
                    assert(self.peer_map.endpoints@[p as int].candidates@
                        == oldeps[p as int].candidates@);
                    if draining {
                        assert(oldeps[p as int].spec_has_any_pending());
                        assert(oldeps[p as int].public_key@
                            == self.peer_map.endpoints@[p as int].public_key@);
                    }
                } else {
                    assert(peers_list_key(
                        nm.peers@,
                        self.peer_map.endpoints@[p as int].public_key@,
                    ));
                }
            }
            if !found && !draining {
                let ghost pre_del = to_delete@;
                to_delete.push(self.peer_map.endpoint_at(p).id);
                proof {
                    assert forall|x: int, i: int|
                        #![trigger self.peer_map.endpoints@[i], to_delete@[x]]
                        0 <= x < to_delete@.len() && 0 <= i < self.peer_map.endpoints@.len()
                            && self.peer_map.endpoints@[i].id == to_delete@[x] implies forall|
                            j: int,
                        |
                            0 <= j < nm.peers@.len() ==> (#[trigger] nm.peers@[j]).key@
                                != self.peer_map.endpoints@[i].public_key@ by {
                        if x < pre_del.len() {
                            assert(to_delete@[x] == pre_del[x]);
                        } else {
                            assert(to_delete@[x] == self.peer_map.endpoints@[p as int].id);
                            if i != p {
                                assert(self.peer_map.endpoints@[i].id
                                    != self.peer_map.endpoints@[p as int].id);
                            }
                            assert(i == p);
                            assert forall|j: int|
                                0 <= j < nm.peers@.len() implies (#[trigger] nm.peers@[j]).key@
                                != self.peer_map.endpoints@[i].public_key@ by {
                                assert(keep@[j].key@
                                    != self.peer_map.endpoints@[p as int].public_key@);
                            }
                        }
                    }
                    assert(to_delete@[to_delete@.len() - 1]
                        == self.peer_map.endpoints@[p as int].id);
                }
            }
            proof {
                let ghost td = to_delete@;
                assert forall|p2: int|
                    0 <= p2 < p + 1 implies peers_list_key(
                    nm.peers@,
                    (#[trigger] self.peer_map.endpoints@[p2]).public_key@,
                ) || (exists|j0: int|
                    0 <= j0 < oldeps.len() && (#[trigger] oldeps[j0]).public_key@
                        == self.peer_map.endpoints@[p2].public_key@ && oldeps[j0].spec_has_any_pending())
                    || (exists|x: int|
                    0 <= x < td.len() && #[trigger] td[x]
                        == self.peer_map.endpoints@[p2].id) by {
                    if p2 < p {
                        if exists|x: int|
                            0 <= x < td0.len() && #[trigger] td0[x]
                                == self.peer_map.endpoints@[p2].id {
                            let x = choose|x: int|
                                0 <= x < td0.len() && #[trigger] td0[x]
                                    == self.peer_map.endpoints@[p2].id;
                            assert(td[x] == td0[x]);
                        }
                    }
                    if p2 == p {
                        if !found && !draining {
                            assert(td[td.len() - 1] == self.peer_map.endpoints@[p2].id);
                        } else if found {
                            assert(peers_list_key(
                                nm.peers@,
                                self.peer_map.endpoints@[p2].public_key@,
                            ));
                        } else {
                            if p < oldeps.len() {
                                assert(oldeps[p as int].public_key@
                                    == self.peer_map.endpoints@[p2].public_key@
                                    && oldeps[p as int].spec_has_any_pending());
                            }
                        }
                    }
                }
            }
            p += 1;
        }
        let ghost pre_del_pm = self.peer_map;
        proof {
            assert forall|j: int|
                0 <= j < oldeps.len() && peers_list_key(
                    nm.peers@,
                    (#[trigger] oldeps[j]).public_key@,
                ) implies exists|j2: int|
                0 <= j2 < self.peer_map.endpoints@.len() && (#[trigger] self.peer_map.endpoints@[j2]).same_identity(oldeps[j]) by {
                assert(self.peer_map.endpoints@[j].same_identity(oldeps[j]));
            }
        }
        let mut d: usize = 0;
        while d < to_delete.len()
            invariant
                self.wf(),
                d <= to_delete@.len(),
                *self == (Actor { peer_map: self.peer_map, ..*old(self) }),
                forall|j: int|
                    0 <= j < nm.peers@.len() ==> self.peer_map.spec_has_key(
                        (#[trigger] nm.peers@[j]).key@,
                    ),
                forall|x: int, i: int|
                    #![trigger self.peer_map.endpoints@[i], to_delete@[x]]
                    0 <= x < to_delete@.len() && 0 <= i < self.peer_map.endpoints@.len()
                        && self.peer_map.endpoints@[i].id == to_delete@[x] ==> forall|j: int|
                        0 <= j < nm.peers@.len() ==> (#[trigger] nm.peers@[j]).key@
                            != self.peer_map.endpoints@[i].public_key@,
                forall|j: int|
                    0 <= j < self.peer_map.endpoints@.len() ==> pre_del_pm.endpoints@.contains(
                        #[trigger] self.peer_map.endpoints@[j],
                    ),
                forall|x: int| 0 <= x < d ==> !self.peer_map.spec_has_id(#[trigger] to_delete@[x]),
                forall|j: int|
                    0 <= j < oldeps.len() && peers_list_key(
                        nm.peers@,
                        (#[trigger] oldeps[j]).public_key@,
                    ) ==> exists|j2: int|
                        0 <= j2 < self.peer_map.endpoints@.len() && (#[trigger] self.peer_map.endpoints@[j2]).same_identity(oldeps[j]),
                forall|i2: int, e2: int|
                    0 <= i2 < nm.peers@.len() && 0 <= e2 < nm.peers@[i2].endpoints@.len()
                        ==> spec_addr_indexed(
                        self.peer_map,
                        nm.peers@,
                        #[trigger] nm.peers@[i2].endpoints@[e2],
                    ),
            decreases to_delete@.len() - d,
        {
            let ghost pre_pm = self.peer_map;
            self.peer_map.delete_endpoint(to_delete[d]);
            proof {
                assert forall|j: int|
                    0 <= j < nm.peers@.len() implies self.peer_map.spec_has_key(
                    (#[trigger] nm.peers@[j]).key@,
                ) by {
                    let w = choose|w: int|
                        0 <= w < pre_pm.endpoints@.len() && (#[trigger] pre_pm.endpoints@[w]).public_key@
                            == nm.peers@[j].key@;
                    assert(pre_pm.endpoints@[w].id != to_delete@[d as int]);
                    assert(self.peer_map.endpoints@.contains(pre_pm.endpoints@[w]));
                    let v = choose|v: int|
                        0 <= v < self.peer_map.endpoints@.len() && self.peer_map.endpoints@[v]
                            == pre_pm.endpoints@[w];
                    assert(self.peer_map.endpoints@[v].public_key@ == nm.peers@[j].key@);
                }
                assert forall|x: int, i: int|
                    #![trigger self.peer_map.endpoints@[i], to_delete@[x]]
                    0 <= x < to_delete@.len() && 0 <= i < self.peer_map.endpoints@.len()
                        && self.peer_map.endpoints@[i].id == to_delete@[x] implies forall|j: int|
                        0 <= j < nm.peers@.len() ==> (#[trigger] nm.peers@[j]).key@
                            != self.peer_map.endpoints@[i].public_key@ by {
                    assert(pre_pm.endpoints@.contains(self.peer_map.endpoints@[i]));
                    let v = choose|v: int|
                        0 <= v < pre_pm.endpoints@.len() && pre_pm.endpoints@[v]
                            == self.peer_map.endpoints@[i];
                    assert(pre_pm.endpoints@[v].id == to_delete@[x]);
                }
                assert forall|j: int|
                    0 <= j < self.peer_map.endpoints@.len() implies pre_del_pm.endpoints@.contains(
                    #[trigger] self.peer_map.endpoints@[j],
                ) by {
                    assert(pre_pm.endpoints@.contains(self.peer_map.endpoints@[j]));
                    let v = choose|v: int|
                        0 <= v < pre_pm.endpoints@.len() && pre_pm.endpoints@[v]
                            == self.peer_map.endpoints@[j];
                    assert(pre_del_pm.endpoints@.contains(pre_pm.endpoints@[v]));
                }
                assert forall|x: int|
                    0 <= x < d + 1 implies !self.peer_map.spec_has_id(
                    #[trigger] to_delete@[x],
                ) by {
                    if x < d {
                        if self.peer_map.spec_has_id(to_delete@[x]) {
                            let w = choose|w: int|
                                0 <= w < self.peer_map.endpoints@.len() && (
                                #[trigger] self.peer_map.endpoints@[w]).id == to_delete@[x];
                            assert(pre_pm.endpoints@.contains(self.peer_map.endpoints@[w]));
                            let v = choose|v: int|
                                0 <= v < pre_pm.endpoints@.len() && pre_pm.endpoints@[v]
                                    == self.peer_map.endpoints@[w];
                            assert(pre_pm.spec_has_id(to_delete@[x]));
                        }
                    }
                }
                assert forall|j: int|
                    0 <= j < oldeps.len() && peers_list_key(
                        nm.peers@,
                        (#[trigger] oldeps[j]).public_key@,
                    ) implies exists|j2: int|
                    0 <= j2 < self.peer_map.endpoints@.len() && (#[trigger] self.peer_map.endpoints@[j2]).same_identity(oldeps[j]) by {
                    let w = choose|w: int|
                        0 <= w < pre_pm.endpoints@.len() && (#[trigger] pre_pm.endpoints@[w]).same_identity(
                            oldeps[j],
                        );
                    assert(pre_pm.endpoints@[w].id != to_delete@[d as int]);
                    assert(self.peer_map.endpoints@.contains(pre_pm.endpoints@[w]));
                    let v = choose|v: int|
                        0 <= v < self.peer_map.endpoints@.len() && self.peer_map.endpoints@[v]
                            == pre_pm.endpoints@[w];
                    assert(self.peer_map.endpoints@[v].same_identity(oldeps[j]));
                }
                assert forall|i2: int, e2: int|
                    0 <= i2 < nm.peers@.len() && 0 <= e2 < nm.peers@[i2].endpoints@.len() implies
                    spec_addr_indexed(
                    self.peer_map,
                    nm.peers@,
                    #[trigger] nm.peers@[i2].endpoints@[e2],
                ) by {
                    let a = nm.peers@[i2].endpoints@[e2];
                    let w = choose|w: int|
                        0 <= w < pre_pm.endpoints@.len() && pre_pm.spec_ip_maps_to(
                            a,
                            (#[trigger] pre_pm.endpoints@[w]).id,
                        ) && peers_list_key(nm.peers@, pre_pm.endpoints@[w].public_key@);
                    assert(pre_pm.endpoints@[w].id != to_delete@[d as int]);
                    assert(self.peer_map.spec_ip_maps_to(a, pre_pm.endpoints@[w].id));
                    assert(self.peer_map.endpoints@.contains(pre_pm.endpoints@[w]));
                    let v = choose|v: int|
                        0 <= v < self.peer_map.endpoints@.len() && self.peer_map.endpoints@[v]
                            == pre_pm.endpoints@[w];
                    assert(self.peer_map.spec_ip_maps_to(
                        a,
                        self.peer_map.endpoints@[v].id,
                    ));
                }
            }
            d += 1;
        }
        proof {
            assert forall|j2: int|
                0 <= j2 < self.peer_map.endpoints@.len() implies peers_list_key(
                nm.peers@,
                (#[trigger] self.peer_map.endpoints@[j2]).public_key@,
            ) || exists|j0: int|
                0 <= j0 < oldeps.len() && (#[trigger] oldeps[j0]).public_key@
                    == self.peer_map.endpoints@[j2].public_key@ && oldeps[j0].spec_has_any_pending() by {
                assert(pre_del_pm.endpoints@.contains(self.peer_map.endpoints@[j2]));
                let v = choose|v: int|
                    0 <= v < pre_del_pm.endpoints@.len() && pre_del_pm.endpoints@[v]
                        == self.peer_map.endpoints@[j2];
                if !peers_list_key(nm.peers@, pre_del_pm.endpoints@[v].public_key@) && !(exists|
                    j0: int,
                |
                    0 <= j0 < oldeps.len() && (#[trigger] oldeps[j0]).public_key@
                        == pre_del_pm.endpoints@[v].public_key@ && oldeps[j0].spec_has_any_pending()) {
                    let x = choose|x: int|
                        0 <= x < to_delete@.len() && #[trigger] to_delete@[x]
                            == pre_del_pm.endpoints@[v].id;
                    assert(self.peer_map.endpoints@[j2].id == to_delete@[x]);
                    assert(self.peer_map.spec_has_id(to_delete@[x]));
                    assert(false);
                }
            }
        }
    }

    /// Records the expiry of an outstanding probe.
    pub fn endpoint_ping_expired(&mut self, endpoint_id: usize, tx: &TransactionId)
        requires
            old(self).wf(),
        ensures
            final(self).wf(),
            forall|j: int|
                0 <= j < final(self).peer_map.endpoints@.len() && (#[trigger] final(self).peer_map.endpoints@[j]).id == endpoint_id ==> !final(self).peer_map.endpoints@[j].spec_has_pending(tx@),
    {
        self.peer_map.ping_timeout_by_id(endpoint_id, tx);
    }

    /// Sets the preferred local port.  An unchanged port does
    /// nothing; a changed port rebinds on a fresh port and stops
    /// trusting every old route.
    pub fn set_preferred_port(&mut self, port: u16) -> (r: Vec<Action>)
        requires
            old(self).wf(),
        ensures
            final(self).wf(),
            old(self).port == port ==> *final(self) == *old(self) && r@.len() == 0,
            old(self).port != port ==> final(self).port == port && r@.len() == 1 && (r@[0] matches
                Action::Rebind { fate } && fate == CurrentPortFate::Drop) && forall|j: int|
                0 <= j < final(self).peer_map.endpoints@.len() ==> (#[trigger] final(self).peer_map.endpoints@[j]).best_addr is None,
    {
        if self.port == port {
            return Vec::new();
        }
        self.port = port;
        self.peer_map.reset_endpoint_states();
        let mut actions: Vec<Action> = Vec::new();
        actions.push(Action::Rebind { fate: CurrentPortFate::Drop });
        actions
    }

    /// Rebinds both sockets on their current ports, tells the relay
    /// worker, and stops trusting every old route.
    pub fn rebind_all(&mut self) -> (r: Vec<Action>)
        requires
            old(self).wf(),
        ensures
            final(self).wf(),
            final(self).closed == old(self).closed,
            r@.len() == 2,
            r@[0] matches Action::Rebind { fate } && fate == CurrentPortFate::Keep,
            r@[1] matches Action::DerpMaybeCloseOnRebind,
            forall|j: int|
                0 <= j < final(self).peer_map.endpoints@.len() ==> (#[trigger] final(self).peer_map.endpoints@[j]).best_addr is None,
    {
        self.metrics.rebind_calls = bump(self.metrics.rebind_calls);
        self.peer_map.reset_endpoint_states();
        let mut actions: Vec<Action> = Vec::new();
        actions.push(Action::Rebind { fate: CurrentPortFate::Keep });
        actions.push(Action::DerpMaybeCloseOnRebind);
        actions
    }

    /// Asks the embedding to seal and send one discovery message.
    /// After a close nothing is sent and the caller is told so.
    pub fn send_disco_message(&mut self, dst: SockAddr, dst_key: PublicKey, msg: Message) -> (r:
        Result<Vec<Action>, ClosedError>)
        ensures
            *final(self) == *old(self),
            old(self).closed <==> r is Err,
            match r {
                Result::Ok(actions) => actions@.len() == 1 && (actions@[0] matches
                    Action::SendDisco { dst: d, dst_key: k, msg: m } && d == dst && k@ == dst_key@
                    && m == msg),
                Result::Err(e) => e == ClosedError,
            },
    {
        if self.closed {
            return Err(ClosedError);
        }
        let mut actions: Vec<Action> = Vec::new();
        actions.push(Action::SendDisco { dst, dst_key, msg });
        Ok(actions)
    }

    /// Replies to a received discovery ping: records the path as a
    /// candidate — dropping the ping silently when the same
    /// transaction id was already seen from that path — and sends a
    /// pong with the same transaction id back on the arriving path.
    pub fn handle_ping(
        &mut self,
        ping: Ping,
        sender: &PublicKey,
        src: SockAddr,
        derp_node_src: Option<PublicKey>,
        now: u64,
    ) -> (r: Vec<Action>)
        requires
            old(self).wf(),
            sender.wf(),
            (derp_node_src matches Some(k) ==> k.wf()),
            src.spec_is_derp() == (derp_node_src is Some),
        ensures
            final(self).wf(),
            final(self).metrics == old(self).metrics,
            final(self).closed == old(self).closed,
            final(self).peer_map.endpoints@.len() == old(self).peer_map.endpoints@.len(),
            forall|j: int|
                0 <= j < old(self).peer_map.endpoints@.len() ==> (#[trigger] final(self).peer_map.endpoints@[j]).same_identity(
                    old(self).peer_map.endpoints@[j],
                ) && final(self).peer_map.endpoints@[j].derp_addr == old(self).peer_map.endpoints@[j].derp_addr,
            exists|i: int|
                0 <= i < final(self).disco_info@.len() && (#[trigger] final(self).disco_info@[i]).node_key@
                    == sender@ && final(self).disco_info@[i].last_ping_from == Some(src)
                    && final(self).disco_info@[i].last_ping_time == Some(now),
            ({
                let k = match derp_node_src {
                    Some(dk) => dk@,
                    None => sender@,
                };
                let dup = exists|i: int|
                    0 <= i < old(self).peer_map.endpoints@.len() && (#[trigger] old(self).peer_map.endpoints@[i]).public_key@ == k && old(self).peer_map.endpoints@[i].spec_has_got_ping(src, ping.tx_id@);
                if dup {
                    r@.len() == 0 && final(self).peer_map.by_ip_port@ == old(self).peer_map.by_ip_port@
                } else {
                    &&& r@.len() == 1 && (r@[0] matches Action::SendDisco { dst, dst_key, msg }
                        && dst == src && dst_key@ == k && (msg matches Message::Pong(p)
                        && p.tx_id@ == ping.tx_id@ && p.src == src))
                    &&& (old(self).peer_map.spec_has_key(k) ==> exists|i: int|
                        0 <= i < final(self).peer_map.endpoints@.len() && (#[trigger] final(self).peer_map.endpoints@[i]).public_key@
                            == k && final(self).peer_map.spec_ip_maps_to(
                            src,
                            final(self).peer_map.endpoints@[i].id,
                        ))
                    &&& (!old(self).peer_map.spec_has_key(k) ==> final(self).peer_map.by_ip_port@
                        == old(self).peer_map.by_ip_port@)
                }
            }),
    {
        let _likely_heartbeat = self.note_ping_received(sender, src, now);
        let dst_key = match derp_node_src {
            Some(k) => k,
            None => sender.clone(),
        };
        let ghost pre_pm = self.peer_map;
        match self.peer_map.add_candidate_by_key(&dst_key, src, &ping.tx_id) {
            Some(dup) => {
                proof {
                    let i = choose|i: int|
                        0 <= i < pre_pm.endpoints@.len() && (#[trigger] pre_pm.endpoints@[i]).public_key@
                            == dst_key@ && dup == pre_pm.endpoints@[i].spec_has_got_ping(
                            src,
                            ping.tx_id@,
                        );
                    assert forall|i2: int|
                        0 <= i2 < pre_pm.endpoints@.len() && (#[trigger] pre_pm.endpoints@[i2]).public_key@
                            == dst_key@ implies pre_pm.endpoints@[i2].spec_has_got_ping(
                        src,
                        ping.tx_id@,
                    ) == dup by {
                        if i2 != i {
                            assert(pre_pm.endpoints@[i2].public_key@
                                != pre_pm.endpoints@[i].public_key@);
                        }
                    }
                }
                if dup {
                    return Vec::new();
                }
                proof {
                    let i = choose|i: int|
                        0 <= i < pre_pm.endpoints@.len() && (#[trigger] pre_pm.endpoints@[i]).public_key@
                            == dst_key@;
                    assert(self.peer_map.endpoints@[i].same_identity(pre_pm.endpoints@[i]));
                    assert(self.peer_map.spec_has_key(dst_key@));
                }
                self.peer_map.set_node_key_for_ip_port(src, &dst_key);
            },
            None => {
            },
        }
        let mut actions: Vec<Action> = Vec::new();
        actions.push(
            Action::SendDisco {
                dst: src,
                dst_key,
                msg: Message::Pong(Pong { tx_id: ping.tx_id, src }),
            },
        );
        actions
    }

    /// Handles an opened discovery message.  A box that did not open
    /// or parse is counted and dropped.  A ping from an unknown sender
    /// first gets an endpoint record.  A pong is matched against the
    /// outstanding probes.  A call-me-maybe is honoured only over the
    /// relay: received over UDP it is dropped silently, and from an
    /// untracked peer it is counted and dropped.
    pub fn handle_disco_message(
        &mut self,
        sender: PublicKey,
        src: SockAddr,
        derp_node_src: Option<PublicKey>,
        payload: DiscoPayload,
        now: u64,
    ) -> (r: Vec<Action>)
        requires
            old(self).wf(),
            sender.wf(),
            (derp_node_src matches Some(k) ==> k.wf()),
            old(self).peer_map.next_id < usize::MAX,
            (payload matches DiscoPayload::Msg(m) && m matches Message::Ping(_)) ==> src.spec_is_derp() == (derp_node_src is Some),
        ensures
            final(self).wf(),
            old(self).closed ==> *final(self) == *old(self) && r@.len() == 0,
            !old(self).closed && (payload matches DiscoPayload::BadSeal) ==> final(self).peer_map
                == old(self).peer_map && r@.len() == 0 && final(self).metrics.recv_disco_bad_key
                == spec_bump(old(self).metrics.recv_disco_bad_key),
            !old(self).closed && (payload matches DiscoPayload::BadParse) ==> final(self).peer_map
                == old(self).peer_map && r@.len() == 0 && final(self).metrics.recv_disco_bad_parse
                == spec_bump(old(self).metrics.recv_disco_bad_parse),
            !old(self).closed && (payload matches DiscoPayload::Msg(m) && m matches
                Message::CallMeMaybe(_)) && !src.spec_is_derp() ==> final(self).peer_map == old(self).peer_map && r@.len() == 0 && final(self).metrics.recv_disco_call_me_maybe_bad_disco
                == spec_bump(old(self).metrics.recv_disco_call_me_maybe_bad_disco),
            !old(self).closed ==> (payload matches DiscoPayload::Msg(m) ==> (m matches
                Message::Ping(ping) ==> ({
                let k = match derp_node_src {
                    Some(dk) => dk@,
                    None => sender@,
                };
                let unknown = !old(self).peer_map.spec_has_key(sender@) && !old(self).peer_map.spec_has_ip(src);
                let dup = exists|i: int|
                    0 <= i < old(self).peer_map.endpoints@.len() && (#[trigger] old(self).peer_map.endpoints@[i]).public_key@
                        == k && old(self).peer_map.endpoints@[i].spec_has_got_ping(
                        src,
                        ping.tx_id@,
                    );
                &&& final(self).metrics.recv_disco_ping == spec_bump(
                    old(self).metrics.recv_disco_ping,
                )
                &&& (unknown ==> exists|i: int|
                    0 <= i < final(self).peer_map.endpoints@.len() && (#[trigger] final(self).peer_map.endpoints@[i]).public_key@
                        == sender@ && final(self).peer_map.endpoints@[i].derp_addr == (
                    if src.spec_is_derp() {
                        Some(src)
                    } else {
                        None
                    }))
                &&& (old(self).peer_map.spec_has_key(sender@) ==> final(self).peer_map.spec_has_key(sender@))
                &&& exists|i: int|
                    0 <= i < final(self).disco_info@.len() && (#[trigger] final(self).disco_info@[i]).node_key@
                        == sender@ && final(self).disco_info@[i].last_ping_from == Some(src)
                        && final(self).disco_info@[i].last_ping_time == Some(now)
                &&& (dup ==> r@.len() == 0)
                &&& (!dup ==> r@.len() == 1 && (r@[0] matches Action::SendDisco {
                    dst,
                    dst_key,
                    msg,
                } && dst == src && dst_key@ == k && (msg matches Message::Pong(p) && p.tx_id@
                    == ping.tx_id@ && p.src == src)))
                &&& (!dup && (old(self).peer_map.spec_has_key(k) || (unknown && k == sender@))
                    ==> exists|i: int|
                    0 <= i < final(self).peer_map.endpoints@.len() && (#[trigger] final(self).peer_map.endpoints@[i]).public_key@
                        == k && final(self).peer_map.spec_ip_maps_to(
                        src,
                        final(self).peer_map.endpoints@[i].id,
                    ))
            }))),
            !old(self).closed && (payload matches DiscoPayload::Msg(m) && m matches
                Message::Pong(_)) ==> final(self).metrics.recv_disco_pong == spec_bump(
                old(self).metrics.recv_disco_pong,
            ) && r@.len() == 0,
            !old(self).closed && (payload matches DiscoPayload::Msg(m) && m matches
                Message::Pong(p) && exists|i: int|
                0 <= i < old(self).peer_map.endpoints@.len() && (#[trigger] old(self).peer_map.endpoints@[i]).public_key@
                    == sender@ && old(self).peer_map.endpoints@[i].spec_has_pending(p.tx_id@))
                ==> exists|i: int|
                0 <= i < final(self).peer_map.endpoints@.len() && (#[trigger] final(self).peer_map.endpoints@[i]).public_key@
                    == sender@ && final(self).peer_map.spec_ip_maps_to(
                    src,
                    final(self).peer_map.endpoints@[i].id,
                ),
            !old(self).closed ==> (payload matches DiscoPayload::Msg(m) ==> (m matches
                Message::Pong(p) ==> ((exists|i: int|
                0 <= i < old(self).peer_map.endpoints@.len() && (#[trigger] old(self).peer_map.endpoints@[i]).public_key@
                    == sender@ && old(self).peer_map.endpoints@[i].spec_has_pending(p.tx_id@))
                ==> exists|i: int|
                0 <= i < old(self).peer_map.endpoints@.len() && (#[trigger] old(self).peer_map.endpoints@[i]).public_key@
                    == sender@ && exists|c: int|
                    {
                        let rtt = crate::endpoint::spec_rtt(
                            old(self).peer_map.endpoints@[i].candidates@[c].last_ping_at,
                            now,
                        );
                        &&& 0 <= c < old(self).peer_map.endpoints@[i].candidates@.len()
                        &&& (match (#[trigger] old(self).peer_map.endpoints@[i].candidates@[c]).last_ping_tx {
                            Some(t) => t@ == p.tx_id@,
                            None => false,
                        })
                        &&& final(self).peer_map.endpoints@[i].candidates@[c].last_pong_at
                            == Some(now)
                        &&& final(self).peer_map.endpoints@[i].candidates@[c].rtt_ms == Some(rtt)
                    }))),
            !old(self).closed && (payload matches DiscoPayload::Msg(m) && m matches
                Message::CallMeMaybe(_)) && src.spec_is_derp() && (derp_node_src matches Some(nk)
                && !old(self).peer_map.spec_has_key(nk@)) ==> r@.len() == 0 && final(self).metrics.recv_disco_call_me_maybe_bad_disco == spec_bump(
                old(self).metrics.recv_disco_call_me_maybe_bad_disco,
            ),
            !old(self).closed ==> (payload matches DiscoPayload::Msg(m) ==> (m matches
                Message::CallMeMaybe(cm) ==> (src.spec_is_derp() ==> (derp_node_src matches
                Some(nk) ==> (old(self).peer_map.spec_has_key(nk@) ==> final(self).peer_map == old(self).peer_map && final(self).metrics.recv_disco_call_me_maybe == spec_bump(
                old(self).metrics.recv_disco_call_me_maybe,
            ) && r@.len() == 1 && (r@[0] matches Action::ProbeCandidates { dst_key, addrs }
                && dst_key@ == nk@ && addrs@ == cm.my_number@)))))),
            !old(self).closed && (payload matches DiscoPayload::Msg(m) && m matches
                Message::CallMeMaybe(_)) && src.spec_is_derp() && derp_node_src is None ==> r@.len()
                == 0 && final(self).peer_map == old(self).peer_map,
    {
        if self.closed {
            return Vec::new();
        }
        let unknown_sender = self.peer_map.index_of_key(&sender).is_none()
            && self.peer_map.endpoint_for_ip_port(&src).is_none();
        match payload {
            DiscoPayload::BadSeal => {
                self.metrics.recv_disco_bad_key = bump(self.metrics.recv_disco_bad_key);
                Vec::new()
            },
            DiscoPayload::BadParse => {
                self.metrics.recv_disco_bad_parse = bump(self.metrics.recv_disco_bad_parse);
                Vec::new()
            },
            DiscoPayload::Msg(m) => {
                let is_derp = src.is_derp();
                match m {
                    Message::Ping(ping) => {
                        self.metrics.recv_disco_ping = bump(self.metrics.recv_disco_ping);
                        let ghost pm0 = old(self).peer_map;
                        if unknown_sender {
                            self.peer_map.insert_endpoint(
                                sender.clone(),
                                if is_derp {
                                    Some(src)
                                } else {
                                    None
                                },
                            );
                        }
                        let ghost pmm = self.peer_map;
                        let ghost k = match &derp_node_src {
                            Some(dk) => dk@,
                            None => sender@,
                        };
                        proof {
                            if unknown_sender {
                                assert(pmm.endpoints@.len() == pm0.endpoints@.len() + 1);
                                assert forall|j: int|
                                    0 <= j < pm0.endpoints@.len() implies #[trigger] pmm.endpoints@[j]
                                    == pm0.endpoints@[j] by {
                                    assert(pmm.endpoints@.subrange(
                                        0,
                                        pm0.endpoints@.len() as int,
                                    )[j] == pmm.endpoints@[j]);
                                }
                            }
                            assert forall|i: int|
                                0 <= i < pmm.endpoints@.len() && (#[trigger] pmm.endpoints@[i]).public_key@
                                    == k && pmm.endpoints@[i].spec_has_got_ping(src, ping.tx_id@)
                                implies exists|i2: int|
                                0 <= i2 < pm0.endpoints@.len() && (#[trigger] pm0.endpoints@[i2]).public_key@
                                    == k && pm0.endpoints@[i2].spec_has_got_ping(
                                    src,
                                    ping.tx_id@,
                                ) by {
                                if unknown_sender && i == pm0.endpoints@.len() {
                                    assert(pmm.endpoints@[i].candidates@.len() == 0);
                                    assert(!pmm.endpoints@[i].spec_has_got_ping(
                                        src,
                                        ping.tx_id@,
                                    ));
                                } else {
                                    assert(pm0.endpoints@[i].public_key@ == k);
                                }
                            }
                            assert forall|i: int|
                                0 <= i < pm0.endpoints@.len() && (#[trigger] pm0.endpoints@[i]).public_key@
                                    == k && pm0.endpoints@[i].spec_has_got_ping(src, ping.tx_id@)
                                implies exists|i2: int|
                                0 <= i2 < pmm.endpoints@.len() && (#[trigger] pmm.endpoints@[i2]).public_key@
                                    == k && pmm.endpoints@[i2].spec_has_got_ping(
                                    src,
                                    ping.tx_id@,
                                ) by {
                                assert(pmm.endpoints@[i].public_key@ == k);
                                assert(pmm.endpoints@[i].spec_has_got_ping(src, ping.tx_id@));
                            }
                            if pm0.spec_has_key(k) {
                                let w = choose|w: int|
                                    0 <= w < pm0.endpoints@.len() && (#[trigger] pm0.endpoints@[w]).public_key@
                                        == k;
                                assert(pmm.endpoints@[w].public_key@ == k);
                                assert(pmm.spec_has_key(k));
                            }
                            if unknown_sender && k == sender@ {
                                assert(pmm.spec_has_key(k));
                            }
                        }
                        let r = self.handle_ping(ping, &sender, src, derp_node_src, now);
                        proof {
                            if pm0.spec_has_key(sender@) {
                                let w = choose|w: int|
                                    0 <= w < pm0.endpoints@.len() && (#[trigger] pm0.endpoints@[w]).public_key@
                                        == sender@;
                                assert(pmm.endpoints@[w] == pm0.endpoints@[w]);
                                assert(self.peer_map.endpoints@[w].same_identity(
                                    pmm.endpoints@[w],
                                ));
                                assert(self.peer_map.endpoints@[w].public_key@ == sender@);
                                assert(self.peer_map.spec_has_key(sender@));
                            }
                            if unknown_sender {
                                let n = pm0.endpoints@.len() as int;
                                assert(self.peer_map.endpoints@[n].same_identity(
                                    pmm.endpoints@[n],
                                ));
                                assert(self.peer_map.endpoints@[n].public_key@ == sender@);
                                assert(self.peer_map.endpoints@[n].derp_addr == (
                                if src.spec_is_derp() {
                                    Some(src)
                                } else {
                                    None
                                }));
                            }
                        }
                        r
                    },
                    Message::Pong(pong) => {
                        self.metrics.recv_disco_pong = bump(self.metrics.recv_disco_pong);
                        self.peer_map.handle_pong(&sender, &pong, src, now);
                        Vec::new()
                    },
                    Message::CallMeMaybe(cm) => {
                        self.metrics.recv_disco_call_me_maybe = bump(
                            self.metrics.recv_disco_call_me_maybe,
                        );
                        if !is_derp {
                            self.metrics.recv_disco_call_me_maybe_bad_disco = bump(
                                self.metrics.recv_disco_call_me_maybe_bad_disco,
                            );
                            return Vec::new();
                        }
                        match derp_node_src {
                            None => Vec::new(),
                            Some(node_key) => {
                                match self.peer_map.index_of_key(&node_key) {
                                    None => {
                                        self.metrics.recv_disco_call_me_maybe_bad_disco = bump(
                                            self.metrics.recv_disco_call_me_maybe_bad_disco,
                                        );
                                        Vec::new()
                                    },
                                    Some(_) => {
                                        let mut actions: Vec<Action> = Vec::new();
                                        actions.push(
                                            Action::ProbeCandidates {
                                                dst_key: node_key,
                                                addrs: cm.my_number,
                                            },
                                        );
                                        actions
                                    },
                                }
                            },
                        }
                    },
                }
            },
        }
    }

    /// Starts a discovery ping to each listed candidate address of a
    /// tracked peer, one fresh transaction id per address.
    pub fn start_probes(
        &mut self,
        dst_key: &PublicKey,
        addrs: Vec<SockAddr>,
        txs: Vec<TransactionId>,
        now: u64,
    ) -> (r: Vec<Action>)
        requires
            old(self).wf(),
            addrs@.len() == txs@.len(),
        ensures
            final(self).wf(),
            !old(self).peer_map.spec_has_key(dst_key@) ==> r@.len() == 0,
            old(self).peer_map.spec_has_key(dst_key@) ==> r@.len() == addrs@.len() && forall|
                i: int,
            |
                0 <= i < r@.len() ==> (#[trigger] r@[i] matches Action::SendDisco {
                    dst,
                    dst_key: k,
                    msg,
                } && dst == addrs@[i] && k@ == dst_key@ && (msg matches Message::Ping(p)
                    && p.tx_id@ == txs@[i]@)),
            old(self).peer_map.spec_has_key(dst_key@) ==> exists|i: int|
                0 <= i < final(self).peer_map.endpoints@.len() && (#[trigger] final(self).peer_map.endpoints@[i]).public_key@
                    == dst_key@ && forall|m: int|
                    0 <= m < addrs@.len() && (forall|j2: int|
                        m < j2 < addrs@.len() ==> addrs@[j2] != addrs@[m]) ==> final(self).peer_map.endpoints@[i].spec_pending_at(
                        #[trigger] addrs@[m],
                        txs@[m]@,
                    ),
    {
        let known = self.peer_map.start_pings_by_key(dst_key, &addrs, &txs, now);
        if !known {
            return Vec::new();
        }
        let mut actions: Vec<Action> = Vec::new();
        let mut i: usize = 0;
        while i < addrs.len()
            invariant
                self.wf(),
                i <= addrs@.len(),
                addrs@.len() == txs@.len(),
                actions@.len() == i,
                forall|j: int|
                    0 <= j < i ==> (#[trigger] actions@[j] matches Action::SendDisco {
                        dst,
                        dst_key: k,
                        msg,
                    } && dst == addrs@[j] && k@ == dst_key@ && (msg matches Message::Ping(p)
                        && p.tx_id@ == txs@[j]@)),
            decreases addrs@.len() - i,
        {
            actions.push(
                Action::SendDisco {
                    dst: addrs[i],
                    dst_key: dst_key.clone(),
                    msg: Message::Ping(Ping { tx_id: txs[i].clone() }),
                },
            );
            i += 1;
        }
        actions
    }

    /// Routes one outbound group to the peer's current paths: the
    /// fresh best direct path alone; a stale best path and the relay
    /// together — the upper transport deduplicates; the relay alone;
    /// or nowhere, when no path is known or the destination is not a
    /// tracked mapped address.
    pub fn send_network(&mut self, transmits: Vec<Transmit>, now: u64) -> (r: Vec<Action>)
        requires
            old(self).wf(),
            transmits@.len() > 0,
            forall|i: int|
                0 <= i < transmits@.len() ==> (#[trigger] transmits@[i]).destination
                    == transmits@[0].destination,
        ensures
            final(self).wf(),
            final(self).peer_map == old(self).peer_map,
            !old(self).peer_map.spec_has_mapped(QuicMappedAddr(transmits@[0].destination))
                ==> r@.len() == 0,
            forall|i: int|
                0 <= i < old(self).peer_map.endpoints@.len() && (#[trigger] old(self).peer_map.endpoints@[i]).quic_mapped_addr
                    == QuicMappedAddr(transmits@[0].destination) ==> spec_send_plan(
                    old(self).peer_map.endpoints@[i],
                    transmits@,
                    now,
                    r@,
                ),
    {
        let dst = QuicMappedAddr(transmits[0].destination);
        let (udp_addr, derp_addr, key) = match self.peer_map.endpoint_for_quic_mapped_addr(&dst) {
            None => {
                return Vec::new();
            },
            Some(ep) => {
                let ghost w = choose|w: int|
                    0 <= w < self.peer_map.endpoints@.len() && (#[trigger] self.peer_map.endpoints@[w])
                        == *ep;
                proof {
                    assert forall|i: int|
                        0 <= i < self.peer_map.endpoints@.len() && (#[trigger] self.peer_map.endpoints@[i]).quic_mapped_addr
                            == dst implies self.peer_map.endpoints@[i] == *ep by {
                        if i != w {
                            crate::peer_map::lemma_mapped_addrs_distinct(self.peer_map, i, w);
                        }
                    }
                }
                let (u, d) = ep.get_send_addrs(now);
                (u, d, ep.public_key.clone())
            },
        };
        let mut actions: Vec<Action> = Vec::new();
        match (udp_addr, derp_addr) {
            (Some(u), Some(d)) => {
                let contents = clone_contents(&transmits);
                actions.push(Action::SendUdp { dst: u, transmits });
                actions.push(Action::SendDerp { region: d.port, dst_key: key, contents });
            },
            (None, Some(d)) => {
                let contents = clone_contents(&transmits);
                actions.push(Action::SendDerp { region: d.port, dst_key: key, contents });
            },
            (Some(u), None) => {
                actions.push(Action::SendUdp { dst: u, transmits });
            },
            (None, None) => {
            },
        }
        actions
    }

    /// Asks the peer, via the relay, to ping our current endpoints.
    /// While the endpoint set is stale the request is parked and a
    /// refresh is started; it is re-issued when the refresh completes.
    pub fn enqueue_call_me_maybe(&mut self, derp_addr: SockAddr, endpoint_id: usize, now: u64) -> (r:
        Vec<Action>)
        requires
            old(self).wf(),
        ensures
            final(self).wf(),
            final(self).peer_map == old(self).peer_map,
            !old(self).peer_map.spec_has_id(endpoint_id) ==> *final(self) == *old(self)
                && r@.len() == 0,
            ({
                let fresh = match old(self).last_endpoints_time {
                    Some(t) => t > now || now - t <= ENDPOINTS_FRESH_ENOUGH_MS,
                    None => false,
                };
                &&& (old(self).peer_map.spec_has_id(endpoint_id) && fresh ==> r@.len() == 1 && (
                r@[0] matches Action::SendDisco { dst, dst_key, msg } && dst == derp_addr && (
                exists|i: int|
                    0 <= i < old(self).peer_map.endpoints@.len() && (#[trigger] old(self).peer_map.endpoints@[i]).id
                        == endpoint_id && dst_key@ == old(self).peer_map.endpoints@[i].public_key@)
                    && (msg matches Message::CallMeMaybe(cm) && cm.my_number@.len() == old(self).last_endpoints@.len()
                    && forall|j: int|
                        0 <= j < cm.my_number@.len() ==> #[trigger] cm.my_number@[j] == old(self).last_endpoints@[j].addr)))
                &&& (old(self).peer_map.spec_has_id(endpoint_id) && !fresh ==> (exists|m: int|
                    0 <= m < final(self).on_endpoint_refreshed@.len() && #[trigger] final(self).on_endpoint_refreshed@[m]
                        == (endpoint_id, derp_addr)) && final(self).endpoints_update_state == old(self).endpoints_update_state.spec_request(
                    UpdateReason::RefreshForPeering,
                ) && forall|i: int|
                    0 <= i < r@.len() ==> (#[trigger] r@[i] matches Action::BeginEndpointUpdate {
                        ..
                    }))
            }),
    {
        let i = match self.peer_map.index_of_id(endpoint_id) {
            None => {
                return Vec::new();
            },
            Some(i) => i,
        };
        let fresh = match self.last_endpoints_time {
            Some(t) => t > now || now - t <= ENDPOINTS_FRESH_ENOUGH_MS,
            None => false,
        };
        if !fresh {
            let mut k: usize = 0;
            let mut replaced = false;
            while k < self.on_endpoint_refreshed.len()
                invariant
                    k <= self.on_endpoint_refreshed@.len(),
                    self.wf(),
                    self.peer_map == old(self).peer_map,
                    self.endpoints_update_state == old(self).endpoints_update_state,
                    self.last_endpoints_time == old(self).last_endpoints_time,
                    replaced ==> exists|m: int|
                        0 <= m < self.on_endpoint_refreshed@.len()
                            && #[trigger] self.on_endpoint_refreshed@[m] == (
                        endpoint_id,
                        derp_addr,
                        ),
                decreases self.on_endpoint_refreshed@.len() - k,
            {
                if self.on_endpoint_refreshed[k].0 == endpoint_id {
                    self.on_endpoint_refreshed[k].1 = derp_addr;
                    replaced = true;
                    proof {
                        assert(self.on_endpoint_refreshed@[k as int] == (endpoint_id, derp_addr));
                    }
                }
                k += 1;
            }
            if !replaced {
                self.on_endpoint_refreshed.push((endpoint_id, derp_addr));
                proof {
                    let m = self.on_endpoint_refreshed@.len() - 1;
                    assert(self.on_endpoint_refreshed@[m] == (endpoint_id, derp_addr));
                }
            }
            self.re_stun(UpdateReason::RefreshForPeering)
        } else {
            let key = {
                let ep = self.peer_map.endpoint_at(i);
                ep.public_key.clone()
            };
            let addrs = endpoint_addrs(&self.last_endpoints);
            let mut actions: Vec<Action> = Vec::new();
            actions.push(
                Action::SendDisco {
                    dst: derp_addr,
                    dst_key: key,
                    msg: Message::CallMeMaybe(CallMeMaybe { my_number: addrs }),
                },
            );
            actions
        }
    }

    /// Takes one relay frame apart.  The sender gets an endpoint
    /// record if it has none (first sighting over the relay), with its
    /// relay region set to the synthetic arrival address, which is
    /// indexed to it; a sender already tracked leaves the table
    /// untouched.  Each item is either a discovery payload — handed
    /// back for opening — or a datagram delivered upward with its
    /// remote address rewritten to the sender's stable mapped address;
    /// a truncated item becomes the error sentinel.
    #[verifier::loop_isolation(false)]
    pub fn process_derp_read_result(
        &mut self,
        region: u16,
        src_key: PublicKey,
        buf: bytes::Bytes,
        dst_ip: Option<crate::addr::IpAddr>,
    ) -> (r: Vec<Action>)
        requires
            old(self).wf(),
            src_key.wf(),
            old(self).peer_map.next_id < usize::MAX,
        ensures
            final(self).wf(),
            final(self).peer_map.spec_has_key(src_key@) || crate::buf::bytes_data(buf).len() == 0,
            crate::buf::bytes_data(buf).len() == 0 ==> r@.len() == 0 && *final(self) == *old(
                self,
            ),
            *final(self) == (Actor { peer_map: final(self).peer_map, ..*old(self) }),
            old(self).peer_map.spec_has_key(src_key@) ==> final(self).peer_map == old(self).peer_map,
            crate::buf::bytes_data(buf).len() > 0 && !old(self).peer_map.spec_has_key(src_key@)
                ==> ({
                let pm0 = old(self).peer_map;
                let pm1 = final(self).peer_map;
                let derp = SockAddr::spec_derp_addr(region);
                &&& pm1.endpoints@.len() == pm0.endpoints@.len() + 1
                &&& pm1.endpoints@.subrange(0, pm0.endpoints@.len() as int) == pm0.endpoints@
                &&& pm1.endpoints@.last().public_key@ == src_key@
                &&& pm1.endpoints@.last().derp_addr == Some(derp)
                &&& pm1.spec_ip_maps_to(derp, pm1.endpoints@.last().id)
                &&& forall|a2: SockAddr, id2: usize|
                    a2 != derp ==> (#[trigger] pm1.spec_ip_maps_to(a2, id2) <==> pm0.spec_ip_maps_to(a2, id2))
            }),
            crate::buf::bytes_data(buf).len() > 0 ==> exists|e: int|
                0 <= e < final(self).peer_map.endpoints@.len() && (#[trigger] final(self).peer_map.endpoints@[e]).public_key@
                    == src_key@ && ({
                    let d = crate::buf::bytes_data(buf);
                    let items = crate::split::split_items(d);
                    let mapped = final(self).peer_map.endpoints@[e].quic_mapped_addr.0;
                    &&& r@.len() == items.len() + (if crate::split::split_ok(d) {
                        0int
                    } else {
                        1int
                    })
                    &&& forall|i: int|
                        0 <= i < items.len() ==> #[trigger] spec_derp_item_action(
                            items[i],
                            region,
                            src_key@,
                            mapped,
                            dst_ip,
                            r@[i],
                        )
                    &&& (!crate::split::split_ok(d) ==> (r@.last() matches Action::Deliver {
                        result,
                    } && result matches NetworkReadResult::Error))
                }),
            forall|i: int|
                0 <= i < r@.len() ==> match #[trigger] r@[i] {
                    Action::Deliver { result } => match result {
                        NetworkReadResult::Packet { meta, .. } => exists|e: int|
                            0 <= e < final(self).peer_map.endpoints@.len() && (#[trigger] final(self).peer_map.endpoints@[e]).public_key@ == src_key@ && meta.addr
                                == final(self).peer_map.endpoints@[e].quic_mapped_addr.0,
                        NetworkReadResult::Error => true,
                    },
                    _ => true,
                },
    {
        let n = crate::buf::bytes_len(&buf);
        if n == 0 {
            return Vec::new();
        }
        let ipp = SockAddr::derp_addr(region);
        let known = self.peer_map.index_of_key(&src_key).is_some();
        if !known {
            let id = self.peer_map.insert_endpoint(src_key.clone(), Some(ipp));
            self.peer_map.set_endpoint_for_ip_port(ipp, id);
        }
        let (mapped, sender_pos) = match self.peer_map.index_of_key(&src_key) {
            Some(e) => {
                let m = self.peer_map.endpoint_at(e).quic_mapped_addr;
                (m, e)
            },
            None => {
                proof {
                    assert(false);
                }
                (QuicMappedAddr::generate(0), 0)
            },
        };
        let mut actions: Vec<Action> = Vec::new();
        let ghost d0 = crate::buf::bytes_data(buf);
        let ghost items = crate::split::split_items(d0);
        let mut iter = crate::split::PacketSplitIter::new(buf);
        let ghost mut errored = false;
        loop
            invariant
                self.wf(),
                self.peer_map.spec_has_key(src_key@),
                sender_pos < self.peer_map.endpoints@.len(),
                self.peer_map.endpoints@[sender_pos as int].public_key@ == src_key@,
                mapped == self.peer_map.endpoints@[sender_pos as int].quic_mapped_addr,
                items == crate::split::split_items(d0),
                !errored ==> {
                    &&& actions@.len() <= items.len()
                    &&& crate::split::split_items(crate::buf::bytes_data(iter.bytes))
                        == items.skip(actions@.len() as int)
                    &&& crate::split::split_ok(crate::buf::bytes_data(iter.bytes))
                        == crate::split::split_ok(d0)
                },
                errored ==> {
                    &&& crate::buf::bytes_data(iter.bytes).len() == 0
                    &&& !crate::split::split_ok(d0)
                    &&& actions@.len() == items.len() + 1
                    &&& (actions@.last() matches Action::Deliver { result } && result matches
                        NetworkReadResult::Error)
                },
                forall|i: int|
                    0 <= i < actions@.len() && i < items.len() ==> #[trigger] spec_derp_item_action(
                        items[i],
                        region,
                        src_key@,
                        mapped.0,
                        dst_ip,
                        actions@[i],
                    ),
                forall|i: int|
                    0 <= i < actions@.len() ==> match #[trigger] actions@[i] {
                        Action::Deliver { result } => match result {
                            NetworkReadResult::Packet { meta, .. } => meta.addr == mapped.0,
                            NetworkReadResult::Error => true,
                        },
                        _ => true,
                    },
            decreases crate::buf::bytes_data(iter.bytes).len(),
        {
            let ghost n = actions@.len();
            match iter.next() {
                None => {
                    proof {
                        if !errored {
                            assert(crate::split::split_items(Seq::<u8>::empty()) =~= Seq::<
                                Seq<u8>,
                            >::empty());
                            assert(items.skip(n as int).len() == 0);
                            assert(n == items.len());
                            assert(crate::split::split_ok(d0));
                        }
                    }
                    return actions;
                },
                Some(item) => match item {
                    Ok(part) => {
                        proof {
                            assert(items.skip(n as int)[0] == crate::buf::bytes_data(part));
                            assert(items.skip(n as int).drop_first() =~= items.skip(n as int + 1));
                        }
                        let part_vec = crate::buf::bytes_to_vec(&part);
                        match crate::disco::source_and_box(&part_vec) {
                            Some((sender, sealed)) => {
                                actions.push(
                                    Action::OpenDisco {
                                        sender,
                                        src: ipp,
                                        sealed,
                                        derp_node_src: Some(src_key.clone()),
                                    },
                                );
                            },
                            None => {
                                let len = crate::buf::bytes_len(&part);
                                actions.push(
                                    Action::Deliver {
                                        result: NetworkReadResult::Packet {
                                            source: NetworkSource::Derp,
                                            bytes: part,
                                            meta: RecvMeta {
                                                addr: mapped.0,
                                                len,
                                                stride: len,
                                                dst_ip,
                                                ecn: None,
                                            },
                                        },
                                    },
                                );
                            },
                        }
                        proof {
                            assert(spec_derp_item_action(
                                items[n as int],
                                region,
                                src_key@,
                                mapped.0,
                                dst_ip,
                                actions@.last(),
                            ));
                            assert forall|i: int|
                                0 <= i < actions@.len() && i < items.len() implies
                                #[trigger] spec_derp_item_action(
                                items[i],
                                region,
                                src_key@,
                                mapped.0,
                                dst_ip,
                                actions@[i],
                            ) by {
                                if i < n {
                                    assert(actions@[i] == actions@.subrange(0, n as int)[i]);
                                }
                            }
                        }
                    },
                    Err(_) => {
                        proof {
                            assert(items.skip(n as int).len() == 0);
                            assert(n == items.len());
                            errored = true;
                        }
                        actions.push(Action::Deliver { result: NetworkReadResult::Error });
                    },
                },
            }
        }
    }

    /// Emits keep-alive traffic: every endpoint whose direct path is
    /// current and quiet for a heartbeat interval gets a discovery
    /// ping on that path, one fresh transaction id each, in table
    /// order, as far as the transaction ids last; each pinged endpoint
    /// records the keep-alive time, and every other endpoint is left
    /// exactly as it was.
    #[verifier::rlimit(100)]
    pub fn heartbeat(&mut self, now: u64, txs: Vec<TransactionId>) -> (r: Vec<Action>)
        requires
            old(self).wf(),
        ensures
            final(self).wf(),
            final(self).peer_map.endpoints@.len() == old(self).peer_map.endpoints@.len(),
            forall|j: int|
                0 <= j < old(self).peer_map.endpoints@.len() ==> (#[trigger] final(self).peer_map.endpoints@[j]).same_identity(old(self).peer_map.endpoints@[j]),
            r@.len() == spec_min(
                spec_due_before(
                    old(self).peer_map.endpoints@,
                    now,
                    old(self).peer_map.endpoints@.len() as int,
                ),
                txs@.len() as int,
            ),
            forall|j: int|
                0 <= j < old(self).peer_map.endpoints@.len() ==> #[trigger] spec_heartbeat_entry(
                    old(self).peer_map.endpoints@,
                    now,
                    txs@,
                    final(self).peer_map.endpoints@,
                    r@,
                    j,
                ),
    {
        let mut actions: Vec<Action> = Vec::new();
        let mut used: usize = 0;
        let mut i: usize = 0;
        let ghost eps0 = self.peer_map.endpoints@;
        let count = self.peer_map.node_count();
        while i < count
            invariant
                self.wf(),
                count == self.peer_map.endpoints@.len(),
                i <= count,
                eps0 == old(self).peer_map.endpoints@,
                self.peer_map.endpoints@.len() == eps0.len(),
                forall|j: int|
                    0 <= j < eps0.len() ==> (#[trigger] self.peer_map.endpoints@[j]).same_identity(
                        eps0[j],
                    ),
                used <= txs@.len(),
                self.peer_map.by_ip_port@ == old(self).peer_map.by_ip_port@,
                self.peer_map.next_id == old(self).peer_map.next_id,
                self.peer_map.allocated@ == old(self).peer_map.allocated@,
                used as int == spec_min(spec_due_before(eps0, now, i as int), txs@.len() as int),
                actions@.len() == used,
                forall|j: int|
                    i <= j < eps0.len() ==> #[trigger] self.peer_map.endpoints@[j] == eps0[j],
                forall|j: int|
                    0 <= j < i ==> #[trigger] spec_heartbeat_entry(
                        eps0,
                        now,
                        txs@,
                        self.peer_map.endpoints@,
                        actions@,
                        j,
                    ),
            decreases count - i,
        {
            let ghost pre_eps = self.peer_map.endpoints@;
            let ghost pre_acts = actions@;
            proof {
                assert(spec_due_before(eps0, now, i + 1) == spec_due_before(eps0, now, i as int)
                    + (if eps0[i as int].spec_needs_keep_alive(now) {
                    1int
                } else {
                    0int
                }));
            }
            let mut acted = false;
            if used < txs.len() {
                let (due, dst_opt, key) = {
                    let ep = self.peer_map.endpoint_at(i);
                    let due = ep.needs_keep_alive(now);
                    (due, ep.best_addr, ep.public_key.clone())
                };
                if due {
                    let dst = match dst_opt {
                        Some(a) => a,
                        None => SockAddr::derp_addr(0),
                    };
                    self.peer_map.note_keep_alive_at(i, now);
                    actions.push(
                        Action::SendDisco {
                            dst,
                            dst_key: key,
                            msg: Message::Ping(Ping { tx_id: txs[used].clone() }),
                        },
                    );
                    used += 1;
                    acted = true;
                }
            }
            proof {
                assert forall|j: int| 0 <= j < i + 1 implies #[trigger] spec_heartbeat_entry(
                    eps0,
                    now,
                    txs@,
                    self.peer_map.endpoints@,
                    actions@,
                    j,
                ) by {
                    if j < i {
                        assert(spec_heartbeat_entry(eps0, now, txs@, pre_eps, pre_acts, j));
                        assert(self.peer_map.endpoints@[j] == pre_eps[j]);
                        let u = spec_due_before(eps0, now, j);
                        if eps0[j].spec_needs_keep_alive(now) && u < txs@.len() {
                            lemma_due_before_mono(eps0, now, 0, j);
                            lemma_due_before_mono(eps0, now, j + 1, i as int);
                            assert(0 <= u < pre_acts.len());
                            assert(actions@.subrange(0, pre_acts.len() as int) =~= pre_acts);
                            assert(actions@[u] == pre_acts[u]);
                        }
                    } else {
                        let u = spec_due_before(eps0, now, i as int);
                        if acted {
                            assert(u == pre_acts.len());
                            assert(actions@[u] == actions@.last());
                        } else {
                            assert(self.peer_map.endpoints@[j] == eps0[j]);
                            if eps0[j].spec_needs_keep_alive(now) {
                                assert(u >= txs@.len());
                            }
                        }
                    }
                }
            }
            i += 1;
        }
        actions
    }

    /// The non-zero but deterministic relay region to fall back to
    /// when netcheck could not find the nearest one: the home region
    /// if one is set, else a constant-seeded choice from the relay
    /// map, so repeated calls on the same map pick the same region.
    pub open spec fn spec_pick_derp_fallback(self) -> u16 {
        match self.derp_map {
            None => 0u16,
            Some(m) => if m.region_ids@.len() == 0 {
                0u16
            } else if self.my_derp > 0 {
                self.my_derp
            } else {
                match fallback_pick(m.region_ids@) {
                    Some(v) => v,
                    None => 0u16,
                }
            },
        }
    }

    pub fn pick_derp_fallback(&self) -> (r: u16)
        ensures
            r == self.spec_pick_derp_fallback(),
            (self.derp_map matches Some(m) && m.region_ids@.len() > 0 && self.my_derp == 0)
                ==> (self.derp_map matches Some(m) && m.region_ids@.contains(r)),
    {
        match &self.derp_map {
            None => 0,
            Some(m) => {
                if m.region_ids.len() == 0 {
                    0
                } else if self.my_derp > 0 {
                    self.my_derp
                } else {
                    match seeded_region_choice(&m.region_ids) {
                        Some(v) => v,
                        None => 0,
                    }
                }
            },
        }
    }

    /// Makes `derp_num` the home relay region.  Without a relay map
    /// the home is cleared and the change refused; an unchanged region
    /// needs no work; otherwise the relay worker is told the new
    /// preference and asked to connect to it.
    pub fn set_nearest_derp(&mut self, derp_num: u16) -> (r: (bool, Vec<Action>))
        requires
            old(self).wf(),
        ensures
            final(self).wf(),
            final(self).peer_map == old(self).peer_map,
            final(self).endpoints_update_state == old(self).endpoints_update_state,
            final(self).on_endpoint_refreshed@ == old(self).on_endpoint_refreshed@,
            final(self).last_endpoints@ == old(self).last_endpoints@,
            final(self).last_endpoints_time == old(self).last_endpoints_time,
            final(self).net_info_last == old(self).net_info_last,
            *final(self) == (Actor {
                my_derp: final(self).my_derp,
                metrics: final(self).metrics,
                ..*old(self)
            }),
            old(self).derp_map is None ==> !r.0 && final(self).my_derp == 0 && r.1@.len() == 0,
            old(self).derp_map is Some && derp_num == old(self).my_derp ==> r.0 && final(self).my_derp == old(self).my_derp && r.1@.len() == 0,
            old(self).derp_map is Some && derp_num != old(self).my_derp ==> r.0 && final(self).my_derp == derp_num && r.1@.len() == 2 && (r.1@[0] matches
                Action::DerpNotePreferred { region } && region == derp_num) && (r.1@[1] matches
                Action::DerpConnect { region } && region == derp_num),
    {
        if self.derp_map.is_none() {
            self.my_derp = 0;
            return (false, Vec::new());
        }
        if derp_num == self.my_derp {
            return (true, Vec::new());
        }
        if self.my_derp != 0 && derp_num != 0 {
            self.metrics.derp_home_change = bump(self.metrics.derp_home_change);
        }
        self.my_derp = derp_num;
        let mut actions: Vec<Action> = Vec::new();
        actions.push(Action::DerpNotePreferred { region: derp_num });
        actions.push(Action::DerpConnect { region: derp_num });
        (true, actions)
    }

    /// The first step of a refresh: when the previous netcheck
    /// reported IPv4 sends broken, rebind before probing again.
    pub fn update_endpoints_check(&mut self) -> (r: Vec<Action>)
        requires
            old(self).wf(),
        ensures
            final(self).wf(),
            !(old(self).no_v4_send && !old(self).closed) ==> *final(self) == *old(self)
                && r@.len() == 0,
            old(self).no_v4_send && !old(self).closed ==> r@.len() == 2 && (r@[0] matches
                Action::Rebind { fate } && fate == CurrentPortFate::Keep) && (r@[1] matches
                Action::DerpMaybeCloseOnRebind),
    {
        if self.no_v4_send && !self.closed {
            self.rebind_all()
        } else {
            Vec::new()
        }
    }

    /// Completes an endpoint refresh with what the port mapper,
    /// netcheck and the interfaces reported.  Publishes the new
    /// endpoint set only if it differs as a set from the last one;
    /// re-issues deferred call-me-maybes; derives the network summary
    /// and home relay from the report, publishing the summary only on
    /// substantial change; and completes the latch, starting the next
    /// refresh at once if one was requested meanwhile.
    #[verifier::rlimit(100)]
    pub fn endpoint_update_done(
        &mut self,
        inp: EndpointInputs,
        report: Option<Report>,
        have_port_map: bool,
        now: u64,
    ) -> (r: Vec<Action>)
        requires
            old(self).wf(),
        ensures
            final(self).wf(),
            final(self).endpoints_update_state == old(self).endpoints_update_state.spec_finish(),
            final(self).last_endpoints_time == Some(now),
            final(self).on_endpoint_refreshed@.len() == 0,
            ({
                let eps = spec_determine_endpoints(inp);
                &&& (eps.to_set() == old(self).last_endpoints@.to_set() ==> final(self).last_endpoints@ == old(self).last_endpoints@)
                &&& (eps.to_set() != old(self).last_endpoints@.to_set() ==> final(self).last_endpoints@ == eps && exists|i: int|
                    0 <= i < r@.len() && (#[trigger] r@[i] matches Action::CallOnEndpoints {
                        endpoints,
                    } && endpoints@ == eps))
            }),
            old(self).endpoints_update_state.want_update matches Some(w) ==> r@.len() > 0
                && (r@.last() matches Action::BeginEndpointUpdate { why } && why == w),
            forall|m: int|
                0 <= m < old(self).on_endpoint_refreshed@.len() ==> (#[trigger] r@[m] matches
                    Action::RequeueCallMeMaybe { derp_addr, endpoint_id } && (endpoint_id, derp_addr)
                    == old(self).on_endpoint_refreshed@[m]),
            spec_determine_endpoints(inp).to_set() == old(self).last_endpoints@.to_set() ==> forall|
                i: int,
            |
                0 <= i < r@.len() ==> !(#[trigger] r@[i] matches Action::CallOnEndpoints { .. }),
            forall|i: int|
                0 <= i < r@.len() - 1 ==> !(#[trigger] r@[i] matches Action::BeginEndpointUpdate {
                    ..
                }),
            report matches Some(rep) ==> ({
                let pref0 = if rep.preferred_derp != 0 {
                    rep.preferred_derp
                } else {
                    old(self).spec_pick_derp_fallback()
                };
                let pref = if old(self).derp_map is Some {
                    pref0
                } else {
                    0u16
                };
                let publish = match old(self).net_info_last {
                    Some(last) => !crate::netinfo::spec_summary_basically_equal(
                        rep,
                        have_port_map,
                        pref,
                        last,
                    ),
                    None => true,
                };
                &&& final(self).no_v4_send == !rep.ipv4_can_send
                &&& (old(self).derp_map is None ==> final(self).my_derp == 0)
                &&& (old(self).derp_map is Some ==> final(self).my_derp == pref0)
                &&& (old(self).derp_map is Some && pref0 != old(self).my_derp ==> exists|i: int|
                    0 <= i < r@.len() - 1 && (#[trigger] r@[i] matches Action::DerpNotePreferred {
                        region,
                    } && region == pref0) && (r@[i + 1] matches Action::DerpConnect {
                        region: rg2,
                    } && rg2 == pref0))
                &&& (publish ==> (final(self).net_info_last matches Some(ni)
                    && crate::netinfo::spec_summary_matches(ni, rep, have_port_map, pref)) && exists|
                    i: int,
                |
                    0 <= i < r@.len() && (#[trigger] r@[i] matches Action::CallNetInfo { info }
                        && crate::netinfo::spec_summary_matches(info, rep, have_port_map, pref)))
                &&& (!publish ==> final(self).net_info_last == old(self).net_info_last && forall|
                    i: int,
                |
                    0 <= i < r@.len() ==> !(#[trigger] r@[i] matches Action::CallNetInfo { .. }))
            }),
            report is None ==> final(self).my_derp == old(self).my_derp && final(self).net_info_last
                == old(self).net_info_last && final(self).no_v4_send == old(self).no_v4_send
                && forall|i: int|
                0 <= i < r@.len() ==> !(#[trigger] r@[i] matches Action::CallNetInfo { .. }),
    {
        let mut actions: Vec<Action> = Vec::new();
        let eps = determine_endpoints(&inp);
        let mut k: usize = 0;
        while k < self.on_endpoint_refreshed.len()
            invariant
                *self == *old(self),
                k <= self.on_endpoint_refreshed@.len(),
                actions@.len() == k,
                forall|m: int|
                    0 <= m < k ==> (#[trigger] actions@[m] matches Action::RequeueCallMeMaybe {
                        derp_addr,
                        endpoint_id,
                    } && (endpoint_id, derp_addr) == old(self).on_endpoint_refreshed@[m]),
            decreases self.on_endpoint_refreshed@.len() - k,
        {
            let entry = self.on_endpoint_refreshed[k];
            actions.push(
                Action::RequeueCallMeMaybe { derp_addr: entry.1, endpoint_id: entry.0 },
            );
            k += 1;
        }
        self.on_endpoint_refreshed = Vec::new();
        self.last_endpoints_time = Some(now);
        let ghost mut ceidx: int = 0;
        let ghost mut cni_idx: int = 0;
        let ghost mut published = false;
        let ghost mut dnp_idx: int = 0;
        let ghost mut derp_pair = false;
        let ghost reqn = old(self).on_endpoint_refreshed@.len() as int;
        let changed = !endpoint_sets_equal(&eps, &self.last_endpoints);
        if changed {
            self.last_endpoints = copy_endpoints(&eps);
            actions.push(Action::CallOnEndpoints { endpoints: eps });
            proof {
                ceidx = actions@.len() - 1;
                assert(actions@[ceidx] matches Action::CallOnEndpoints { endpoints }
                    && endpoints@ == spec_determine_endpoints(inp));
            }
        }
        proof {
            assert forall|m: int| 0 <= m < reqn implies (#[trigger] actions@[m] matches
                Action::RequeueCallMeMaybe { derp_addr, endpoint_id } && (endpoint_id, derp_addr)
                == old(self).on_endpoint_refreshed@[m]) by {}
            if !changed {
                assert forall|i: int|
                    0 <= i < actions@.len() implies !(#[trigger] actions@[i] matches
                    Action::CallOnEndpoints { .. }) by {}
            }
            assert forall|i: int|
                0 <= i < actions@.len() implies !(#[trigger] actions@[i] matches
                Action::BeginEndpointUpdate { .. }) by {}
            assert forall|i: int|
                0 <= i < actions@.len() implies !(#[trigger] actions@[i] matches
                Action::CallNetInfo { .. }) by {}
        }
        match report {
            None => {
            },
            Some(rep) => {
                let ghost s_mid = *self;
                proof {
                    assert(s_mid.derp_map == old(self).derp_map);
                    assert(s_mid.my_derp == old(self).my_derp);
                    assert(s_mid.net_info_last == old(self).net_info_last);
                }
                let (mut derp_actions, publish_info) = self.apply_report(rep, have_port_map);
                let ghost apre = actions@;
                let ghost da = derp_actions@;
                actions.append(&mut derp_actions);
                proof {
                    let pref0 = if rep.preferred_derp != 0 {
                        rep.preferred_derp
                    } else {
                        old(self).spec_pick_derp_fallback()
                    };
                    assert(old(self).spec_pick_derp_fallback() == s_mid.spec_pick_derp_fallback());
                    if old(self).derp_map is Some && pref0 != old(self).my_derp {
                        derp_pair = true;
                        dnp_idx = apre.len() as int;
                        assert(actions@[dnp_idx] == da[0]);
                        assert(actions@[dnp_idx + 1] == da[1]);
                        assert(actions@[dnp_idx] matches Action::DerpNotePreferred { region }
                            && region == pref0);
                        assert(actions@[dnp_idx + 1] matches Action::DerpConnect { region }
                            && region == pref0);
                    }
                    assert forall|m: int| 0 <= m < reqn implies (#[trigger] actions@[m] matches
                        Action::RequeueCallMeMaybe { derp_addr, endpoint_id } && (
                    endpoint_id,
                    derp_addr,
                    ) == old(self).on_endpoint_refreshed@[m]) by {
                        assert(actions@[m] == apre[m]);
                    }
                    if !changed {
                        assert forall|i: int|
                            0 <= i < actions@.len() implies !(#[trigger] actions@[i] matches
                            Action::CallOnEndpoints { .. }) by {
                            if i < apre.len() {
                                assert(actions@[i] == apre[i]);
                            } else {
                                assert(actions@[i] == da[i - apre.len()]);
                            }
                        }
                    }
                    assert forall|i: int|
                        0 <= i < actions@.len() implies !(#[trigger] actions@[i] matches
                        Action::BeginEndpointUpdate { .. }) by {
                        if i < apre.len() {
                            assert(actions@[i] == apre[i]);
                        } else {
                            assert(actions@[i] == da[i - apre.len()]);
                        }
                    }
                    assert forall|i: int|
                        0 <= i < actions@.len() implies !(#[trigger] actions@[i] matches
                        Action::CallNetInfo { .. }) by {
                        if i < apre.len() {
                            assert(actions@[i] == apre[i]);
                        } else {
                            assert(actions@[i] == da[i - apre.len()]);
                        }
                    }
                    if changed {
                        assert(actions@[ceidx] == apre[ceidx]);
                    }
                }
                match publish_info {
                    Some(ni) => {
                        let ghost apre2 = actions@;
                        actions.push(Action::CallNetInfo { info: ni });
                        proof {
                            published = true;
                            cni_idx = actions@.len() - 1;
                            assert forall|m: int| 0 <= m < reqn implies (#[trigger] actions@[m] matches
                                Action::RequeueCallMeMaybe { derp_addr, endpoint_id } && (
                            endpoint_id,
                            derp_addr,
                            ) == old(self).on_endpoint_refreshed@[m]) by {
                                assert(actions@[m] == apre2[m]);
                            }
                            if !changed {
                                assert forall|i: int|
                                    0 <= i < actions@.len() implies !(#[trigger] actions@[i] matches
                                    Action::CallOnEndpoints { .. }) by {
                                    if i < apre2.len() {
                                        assert(actions@[i] == apre2[i]);
                                    }
                                }
                            }
                            assert forall|i: int|
                                0 <= i < actions@.len() implies !(#[trigger] actions@[i] matches
                                Action::BeginEndpointUpdate { .. }) by {
                                if i < apre2.len() {
                                    assert(actions@[i] == apre2[i]);
                                }
                            }
                            if changed {
                                assert(actions@[ceidx] == apre2[ceidx]);
                            }
                            if derp_pair {
                                assert(actions@[dnp_idx] == apre2[dnp_idx]);
                                assert(actions@[dnp_idx + 1] == apre2[dnp_idx + 1]);
                            }
                        }
                    },
                    None => {
                    },
                }
            },
        }
        match self.endpoints_update_state.finish() {
            Some(next) => {
                let ghost apre3 = actions@;
                actions.push(Action::BeginEndpointUpdate { why: next });
                proof {
                    assert forall|m: int| 0 <= m < reqn implies (#[trigger] actions@[m] matches
                        Action::RequeueCallMeMaybe { derp_addr, endpoint_id } && (
                    endpoint_id,
                    derp_addr,
                    ) == old(self).on_endpoint_refreshed@[m]) by {
                        assert(actions@[m] == apre3[m]);
                    }
                    if !changed {
                        assert forall|i: int|
                            0 <= i < actions@.len() implies !(#[trigger] actions@[i] matches
                            Action::CallOnEndpoints { .. }) by {
                            if i < apre3.len() {
                                assert(actions@[i] == apre3[i]);
                            }
                        }
                    }
                    assert forall|i: int|
                        0 <= i < actions@.len() - 1 implies !(#[trigger] actions@[i] matches
                        Action::BeginEndpointUpdate { .. }) by {
                        assert(actions@[i] == apre3[i]);
                    }
                    if !published {
                        assert forall|i: int|
                            0 <= i < actions@.len() implies !(#[trigger] actions@[i] matches
                            Action::CallNetInfo { .. }) by {
                            if i < apre3.len() {
                                assert(actions@[i] == apre3[i]);
                            }
                        }
                    }
                    if published {
                        assert(actions@[cni_idx] == apre3[cni_idx]);
                    }
                    if changed {
                        assert(actions@[ceidx] == apre3[ceidx]);
                    }
                    if derp_pair {
                        assert(actions@[dnp_idx] == apre3[dnp_idx]);
                        assert(actions@[dnp_idx + 1] == apre3[dnp_idx + 1]);
                    }
                }
            },
            None => {
            },
        }
        proof {
            if changed {
                assert(actions@[ceidx] matches Action::CallOnEndpoints { endpoints }
                    && endpoints@ == spec_determine_endpoints(inp));
                assert(r_has_call_on_endpoints(actions@, spec_determine_endpoints(inp)));
            }
        }
        actions
    }

    /// Applies one netcheck report: records whether IPv4 sends work,
    /// derives and adopts the home relay region (the report's
    /// preferred region, or the deterministic fallback), and builds
    /// the network summary, storing it and handing it back for
    /// publication exactly when it differs substantially from the last
    /// published one.  Returns the relay-worker actions and the
    /// summary to publish, if any.
    fn apply_report(&mut self, rep: Report, have_port_map: bool) -> (r: (
        Vec<Action>,
        Option<NetInfo>,
    ))
        requires
            old(self).wf(),
        ensures
            final(self).wf(),
            *final(self) == (Actor {
                no_v4_send: final(self).no_v4_send,
                my_derp: final(self).my_derp,
                net_info_last: final(self).net_info_last,
                metrics: final(self).metrics,
                ..*old(self)
            }),
            ({
                let pref0 = if rep.preferred_derp != 0 {
                    rep.preferred_derp
                } else {
                    old(self).spec_pick_derp_fallback()
                };
                let pref = if old(self).derp_map is Some {
                    pref0
                } else {
                    0u16
                };
                let publish = match old(self).net_info_last {
                    Some(last) => !crate::netinfo::spec_summary_basically_equal(
                        rep,
                        have_port_map,
                        pref,
                        last,
                    ),
                    None => true,
                };
                &&& final(self).no_v4_send == !rep.ipv4_can_send
                &&& (old(self).derp_map is None ==> final(self).my_derp == 0)
                &&& (old(self).derp_map is Some ==> final(self).my_derp == pref0)
                &&& (old(self).derp_map is Some && pref0 != old(self).my_derp ==> r.0@.len() == 2
                    && (r.0@[0] matches Action::DerpNotePreferred { region } && region == pref0)
                    && (r.0@[1] matches Action::DerpConnect { region: rg2 } && rg2 == pref0))
                &&& (!(old(self).derp_map is Some && pref0 != old(self).my_derp) ==> r.0@.len()
                    == 0)
                &&& (publish ==> (r.1 matches Some(ni) && crate::netinfo::spec_summary_matches(
                    ni,
                    rep,
                    have_port_map,
                    pref,
                )) && (final(self).net_info_last matches Some(stored)
                    && crate::netinfo::spec_summary_matches(stored, rep, have_port_map, pref)))
                &&& (!publish ==> r.1 is None && final(self).net_info_last == old(self).net_info_last)
            }),
    {
        self.no_v4_send = !rep.ipv4_can_send;
        let mut preferred = rep.preferred_derp;
        if preferred == 0 {
            preferred = self.pick_derp_fallback();
        }
        proof {
            assert(preferred == (if rep.preferred_derp != 0 {
                rep.preferred_derp
            } else {
                old(self).spec_pick_derp_fallback()
            }));
        }
        let (ok, derp_actions) = self.set_nearest_derp(preferred);
        if !ok {
            preferred = 0;
        }
        let ni = NetInfo {
            mapping_varies_by_dest_ip: rep.mapping_varies_by_dest_ip,
            hair_pinning: rep.hair_pinning,
            upnp: rep.upnp,
            pmp: rep.pmp,
            pcp: rep.pcp,
            have_port_map,
            working_ipv6: Some(rep.ipv6),
            os_has_ipv6: Some(rep.os_has_ipv6),
            working_udp: Some(rep.udp),
            working_icmp_v4: Some(rep.icmpv4),
            preferred_derp: preferred,
            derp_latency: copy_latency(&rep.region_latency),
        };
        proof {
            assert(crate::netinfo::spec_summary_matches(ni, rep, have_port_map, preferred));
        }
        let publish = match &self.net_info_last {
            Some(last) => !ni.basically_equal(last),
            None => true,
        };
        if publish {
            self.net_info_last = Some(ni.clone());
            proof {
                assert(self.net_info_last matches Some(stored)
                    && crate::netinfo::spec_summary_matches(
                    stored,
                    rep,
                    have_port_map,
                    preferred,
                ));
            }
            (derp_actions, Some(ni))
        } else {
            (derp_actions, None)
        }
    }


    /// Rewrites the metadata of a datagram that arrived over UDP so
    /// the QUIC layer sees the peer's stable mapped address, or
    /// reports that the sender is unknown and the datagram is to be
    /// dropped.
    pub fn receive_ip(
        &self,
        src: SockAddr,
        len: usize,
        dst_ip: Option<crate::addr::IpAddr>,
    ) -> (r: Option<RecvMeta>)
        requires
            self.wf(),
        ensures
            match r {
                Some(meta) => {
                    &&& meta.len == len
                    &&& meta.stride == len
                    &&& meta.dst_ip == dst_ip
                    &&& exists|i: int|
                        0 <= i < self.peer_map.endpoints@.len() && self.peer_map.spec_ip_maps_to(
                            src,
                            (#[trigger] self.peer_map.endpoints@[i]).id,
                        ) && meta.addr == self.peer_map.endpoints@[i].quic_mapped_addr.0
                },
                None => !self.peer_map.spec_has_ip(src),
            },
    {
        match self.peer_map.endpoint_for_ip_port(&src) {
            None => None,
            Some(ep) => {
                let ghost i = choose|i: int|
                    0 <= i < self.peer_map.endpoints@.len() && (#[trigger] self.peer_map.endpoints@[i])
                        == *ep;
                Some(
                    RecvMeta {
                        addr: ep.quic_mapped_addr.0,
                        len,
                        stride: len,
                        dst_ip,
                        ecn: None,
                    },
                )
            },
        }
    }

    /// Marks the published network summary as having a port mapping;
    /// republishes it only when that is news.
    pub fn set_net_info_have_port_map(&mut self) -> (r: Vec<Action>)
        ensures
            final(self).wf() == old(self).wf(),
            final(self).peer_map == old(self).peer_map,
            match old(self).net_info_last {
                None => *final(self) == *old(self) && r@.len() == 0,
                Some(last) => if last.have_port_map {
                    *final(self) == *old(self) && r@.len() == 0
                } else {
                    (final(self).net_info_last matches Some(ni) && ni.have_port_map) && r@.len()
                        == 1 && (r@[0] matches Action::CallNetInfo { info } && info.have_port_map)
                },
            },
    {
        match &self.net_info_last {
            None => Vec::new(),
            Some(last) => {
                if last.have_port_map {
                    return Vec::new();
                }
                let mut ni = last.clone();
                ni.have_port_map = true;
                self.net_info_last = Some(ni.clone());
                let mut actions: Vec<Action> = Vec::new();
                actions.push(Action::CallNetInfo { info: ni });
                actions
            },
        }
    }

    /// Dispatches one posted command or event; reports whether it was
    /// the shutdown.
    pub fn handle_actor_message(&mut self, msg: ActorMessage, now: u64) -> (r: (bool, Vec<Action>))
        requires
            old(self).wf(),
            (msg matches ActorMessage::SetNetworkMap(nm) ==> old(self).peer_map.next_id
                + nm.peers@.len() <= usize::MAX && forall|i: int, j: int|
                0 <= i < j < nm.peers@.len() ==> (#[trigger] nm.peers@[i]).key@ != (
                #[trigger] nm.peers@[j]).key@),
        ensures
            final(self).wf(),
            r.0 == (msg matches ActorMessage::Shutdown),
            match msg {
                ActorMessage::SetDerpMap(dm) => final(self).peer_map == old(self).peer_map && (
                match dm {
                    Some(m) => final(self).derp_map matches Some(m2) && m2.region_ids@
                        == m.region_ids@,
                    None => final(self).derp_map is None,
                }) && r.1@.len() == 1 && (r.1@[0] matches Action::DerpSetMap { .. }),
                ActorMessage::ReStun(why) => final(self).peer_map == old(self).peer_map && final(self).closed == old(self).closed && final(self).endpoints_update_state == old(self).endpoints_update_state.spec_request(why) && (old(self).endpoints_update_state.running
                    is Some ==> r.1@.len() == 0) && (old(self).endpoints_update_state.running
                    is None ==> r.1@.len() == 1 && (r.1@[0] matches Action::BeginEndpointUpdate {
                    why: w,
                } && w == why)),
                ActorMessage::EnqueueCallMeMaybe { derp_addr, endpoint_id } => final(self).peer_map
                    == old(self).peer_map && (!old(self).peer_map.spec_has_id(endpoint_id)
                    ==> *final(self) == *old(self) && r.1@.len() == 0) && ({
                    let fresh = match old(self).last_endpoints_time {
                        Some(t) => t > now || now - t <= ENDPOINTS_FRESH_ENOUGH_MS,
                        None => false,
                    };
                    &&& (old(self).peer_map.spec_has_id(endpoint_id) && fresh ==> r.1@.len() == 1
                        && (r.1@[0] matches Action::SendDisco { dst, dst_key, msg } && dst
                        == derp_addr && (exists|i: int|
                        0 <= i < old(self).peer_map.endpoints@.len() && (#[trigger] old(self).peer_map.endpoints@[i]).id == endpoint_id && dst_key@ == old(self).peer_map.endpoints@[i].public_key@) && (msg matches Message::CallMeMaybe(cm)
                        && cm.my_number@.len() == old(self).last_endpoints@.len() && forall|j: int|
                        0 <= j < cm.my_number@.len() ==> #[trigger] cm.my_number@[j] == old(self).last_endpoints@[j].addr)))
                    &&& (old(self).peer_map.spec_has_id(endpoint_id) && !fresh ==> (exists|m: int|
                        0 <= m < final(self).on_endpoint_refreshed@.len() && #[trigger] final(self).on_endpoint_refreshed@[m] == (endpoint_id, derp_addr)) && final(self).endpoints_update_state == old(self).endpoints_update_state.spec_request(
                        UpdateReason::RefreshForPeering,
                    ) && forall|i: int|
                        0 <= i < r.1@.len() ==> (#[trigger] r.1@[i] matches
                            Action::BeginEndpointUpdate { .. }))
                }),
                ActorMessage::RebindAll => final(self).closed == old(self).closed && r.1@.len()
                    == 2 && (r.1@[0] matches Action::Rebind { fate } && fate
                    == CurrentPortFate::Keep) && (r.1@[1] matches Action::DerpMaybeCloseOnRebind)
                    && forall|j: int|
                    0 <= j < final(self).peer_map.endpoints@.len() ==> (#[trigger] final(self).peer_map.endpoints@[j]).best_addr is None,
                ActorMessage::SetPreferredPort(p) => (old(self).port == p ==> *final(self) == *old(
                    self,
                ) && r.1@.len() == 0) && (old(self).port != p ==> final(self).port == p
                    && r.1@.len() == 1 && (r.1@[0] matches Action::Rebind { fate } && fate
                    == CurrentPortFate::Drop) && forall|j: int|
                    0 <= j < final(self).peer_map.endpoints@.len() ==> (#[trigger] final(self).peer_map.endpoints@[j]).best_addr is None),
                ActorMessage::SendDiscoMessage { dst, dst_key, msg: dm } => *final(self) == *old(
                    self,
                ) && (old(self).closed ==> r.1@.len() == 0) && (!old(self).closed ==> r.1@.len()
                    == 1 && (r.1@[0] matches Action::SendDisco { dst: d, dst_key: k, msg: m2 } && d
                    == dst && k@ == dst_key@ && m2 == dm)),
                ActorMessage::SetNetworkMap(nm) => r.1@.len() == 0 && (old(self).closed
                    ==> *final(self) == *old(self)) && (!old(self).closed ==> (final(self).net_map
                    matches Some(m2) && m2.peers@ == nm.peers@)) && (!old(self).closed && (match
                    old(self).net_map {
                    Some(prior) => peers_eq(prior.peers@, nm.peers@),
                    None => false,
                }) ==> final(self).peer_map == old(self).peer_map) && (!old(self).closed && !(match
                    old(self).net_map {
                    Some(prior) => peers_eq(prior.peers@, nm.peers@),
                    None => false,
                }) ==> forall|i: int|
                    0 <= i < nm.peers@.len() ==> final(self).peer_map.spec_has_key(
                        (#[trigger] nm.peers@[i]).key@,
                    )),
                ActorMessage::EndpointPingExpired(id, tx) => r.1@.len() == 0 && forall|j: int|
                    0 <= j < final(self).peer_map.endpoints@.len() && (#[trigger] final(self).peer_map.endpoints@[j]).id == id ==> !final(self).peer_map.endpoints@[j].spec_has_pending(tx@),
                ActorMessage::CloseOrReconnect(region) => *final(self) == *old(self) && r.1@.len()
                    == 1 && (r.1@[0] matches Action::DerpCloseOrReconnect { region: rg } && rg
                    == region),
                ActorMessage::Shutdown => final(self).closed && (old(self).closed ==> *final(self)
                    == *old(self) && r.1@.len() == 0) && (!old(self).closed ==> r.1@.len() == 1 && (
                r.1@[0] matches Action::Teardown) && forall|j: int|
                    0 <= j < final(self).peer_map.endpoints@.len() ==> (#[trigger] final(self).peer_map.endpoints@[j]).best_addr is None
                        && final(self).peer_map.endpoints@[j].candidates@.len() == 0),
            },
    {
        match msg {
            ActorMessage::SetDerpMap(dm) => {
                let a = self.set_derp_map(dm);
                (false, a)
            },
            ActorMessage::ReStun(why) => {
                let a = self.re_stun(why);
                (false, a)
            },
            ActorMessage::EnqueueCallMeMaybe { derp_addr, endpoint_id } => {
                let a = self.enqueue_call_me_maybe(derp_addr, endpoint_id, now);
                (false, a)
            },
            ActorMessage::RebindAll => {
                let a = self.rebind_all();
                (false, a)
            },
            ActorMessage::SetPreferredPort(p) => {
                let a = self.set_preferred_port(p);
                (false, a)
            },
            ActorMessage::SendDiscoMessage { dst, dst_key, msg } => {
                match self.send_disco_message(dst, dst_key, msg) {
                    Ok(a) => (false, a),
                    Err(_) => (false, Vec::new()),
                }
            },
            ActorMessage::SetNetworkMap(nm) => {
                let a = self.set_network_map(nm);
                (false, a)
            },
            ActorMessage::EndpointPingExpired(id, tx) => {
                self.endpoint_ping_expired(id, &tx);
                (false, Vec::new())
            },
            ActorMessage::CloseOrReconnect(region) => {
                let mut a: Vec<Action> = Vec::new();
                a.push(Action::DerpCloseOrReconnect { region });
                (false, a)
            },
            ActorMessage::Shutdown => {
                let a = self.close();
                (true, a)
            },
        }
    }
}

/// The smaller of two integers.
pub open spec fn spec_min(a: int, b: int) -> int {
    if a <= b {
        a
    } else {
        b
    }
}

/// How many of the first `j` endpoints are due keep-alive traffic at
/// `now`.
pub open spec fn spec_due_before(eps: Seq<crate::endpoint::Endpoint>, now: u64, j: int) -> int
    decreases j,
{
    if j <= 0 {
        0
    } else {
        spec_due_before(eps, now, j - 1) + (if eps[j - 1].spec_needs_keep_alive(now) {
            1int
        } else {
            0int
        })
    }
}

/// Counting due endpoints over a longer prefix never counts fewer.
pub proof fn lemma_due_before_mono(eps: Seq<crate::endpoint::Endpoint>, now: u64, a: int, b: int)
    requires
        a <= b,
    ensures
        spec_due_before(eps, now, a) <= spec_due_before(eps, now, b),
    decreases b - a,
{
    if a < b {
        lemma_due_before_mono(eps, now, a, b - 1);
    }
}

/// What one heartbeat round owes the endpoint at position `j`: if it
/// was due and a transaction id was left for it, it records the
/// keep-alive time and the action list pings its best path at its
/// slot; otherwise it is untouched.
pub open spec fn spec_heartbeat_entry(
    eps0: Seq<crate::endpoint::Endpoint>,
    now: u64,
    txs: Seq<TransactionId>,
    eps1: Seq<crate::endpoint::Endpoint>,
    acts: Seq<Action>,
    j: int,
) -> bool {
    let u = spec_due_before(eps0, now, j);
    if eps0[j].spec_needs_keep_alive(now) && u < txs.len() {
        &&& eps1[j] == (crate::endpoint::Endpoint {
            last_keep_alive_at: Some(now),
            ..eps0[j]
        })
        &&& (acts[u] matches Action::SendDisco { dst, dst_key, msg } && eps0[j].best_addr == Some(
            dst,
        ) && dst_key@ == eps0[j].public_key@ && (msg matches Message::Ping(p) && p.tx_id@
            == txs[u]@))
    } else {
        eps1[j] == eps0[j]
    }
}

/// Whether the socket-address index of `pm` resolves `a` to an
/// endpoint whose public key the peer list names.
pub open spec fn spec_addr_indexed(
    pm: PeerMap,
    peers: Seq<crate::netmap::Node>,
    a: SockAddr,
) -> bool {
    exists|j: int|
        0 <= j < pm.endpoints@.len() && pm.spec_ip_maps_to(a, (#[trigger] pm.endpoints@[j]).id)
            && peers_list_key(peers, pm.endpoints@[j].public_key@)
}

/// What taking one relay-frame item apart must produce: a discovery
/// frame is handed back for opening, with the framed sender key, the
/// sealed box, the synthetic relay arrival address and the relay
/// sender's key; any other item is delivered upward unchanged, its
/// remote address rewritten to `mapped`.
pub open spec fn spec_derp_item_action(
    item: Seq<u8>,
    region: u16,
    src_key: Seq<u8>,
    mapped: SockAddr,
    dst_ip: Option<crate::addr::IpAddr>,
    a: Action,
) -> bool {
    if crate::disco::is_disco_frame(item) {
        a matches Action::OpenDisco { sender, src, sealed, derp_node_src } && sender@
            == item.subrange(
            crate::disco::MAGIC_LEN as int,
            (crate::disco::MAGIC_LEN + crate::key::KEY_LEN) as int,
        ) && src == SockAddr::spec_derp_addr(region) && sealed@ == item.skip(
            (crate::disco::MAGIC_LEN + crate::key::KEY_LEN) as int,
        ) && (derp_node_src matches Some(k) && k@ == src_key)
    } else {
        a matches Action::Deliver { result } && (result matches NetworkReadResult::Packet {
            source,
            bytes,
            meta,
        } && source == NetworkSource::Derp && crate::buf::bytes_data(bytes) == item && meta.addr
            == mapped && meta.len == item.len() && meta.stride == item.len() && meta.dst_ip
            == dst_ip && meta.ecn is None)
    }
}

/// What routing one group to `ep` must produce: the fresh best path
/// alone; a stale best path and the relay together; the relay alone;
/// or nothing when no path is known.
pub open spec fn spec_send_plan(
    ep: crate::endpoint::Endpoint,
    batch: Seq<Transmit>,
    now: u64,
    r: Seq<Action>,
) -> bool {
    let fresh = ep.spec_best_is_fresh(now);
    let udp_part = (r.len() >= 1 && (r[0] matches Action::SendUdp { dst, transmits } && Some(dst)
        == ep.best_addr && transmits@ == batch));
    let derp_at = |k: int|
        (r[k] matches Action::SendDerp { region, dst_key, contents } && (ep.derp_addr matches
            Some(da) && region == da.port) && dst_key@ == ep.public_key@ && contents.len()
            == batch.len());
    &&& (fresh ==> r.len() == 1 && udp_part)
    &&& (!fresh && ep.best_addr is Some && ep.derp_addr is Some ==> r.len() == 2 && udp_part
        && derp_at(1))
    &&& (!fresh && ep.best_addr is Some && ep.derp_addr is None ==> r.len() == 1 && udp_part)
    &&& (ep.best_addr is None && ep.derp_addr is Some ==> r.len() == 1 && derp_at(0))
    &&& (ep.best_addr is None && ep.derp_addr is None ==> r.len() == 0)
}

/// Whether the action list carries an endpoints callback with exactly
/// this endpoint set.
pub open spec fn r_has_call_on_endpoints(r: Seq<Action>, eps: Seq<LocalEndpoint>) -> bool {
    exists|i: int|
        0 <= i < r.len() && (#[trigger] r[i] matches Action::CallOnEndpoints { endpoints }
            && endpoints@ == eps)
}

/// Copies an endpoint list.
pub fn copy_endpoints(eps: &Vec<LocalEndpoint>) -> (r: Vec<LocalEndpoint>)
    ensures
        r@ == eps@,
{
    let mut out: Vec<LocalEndpoint> = Vec::new();
    let mut i: usize = 0;
    while i < eps.len()
        invariant
            i <= eps@.len(),
            out@ == eps@.subrange(0, i as int),
        decreases eps@.len() - i,
    {
        out.push(eps[i]);
        i += 1;
        proof {
            assert(out@ =~= eps@.subrange(0, i as int));
        }
    }
    proof {
        assert(out@ =~= eps@);
    }
    out
}

/// Copies a latency list.
pub fn copy_latency(v: &Vec<(u16, u64)>) -> (r: Vec<(u16, u64)>)
    ensures
        r@ == v@,
{
    let mut out: Vec<(u16, u64)> = Vec::new();
    let mut i: usize = 0;
    while i < v.len()
        invariant
            i <= v@.len(),
            out@ == v@.subrange(0, i as int),
        decreases v@.len() - i,
    {
        out.push(v[i]);
        i += 1;
        proof {
            assert(out@ =~= v@.subrange(0, i as int));
        }
    }
    proof {
        assert(out@ =~= v@);
    }
    out
}

/// The error a command gets after the connection was closed.
#[derive(Clone, Copy, PartialEq, Eq, Structural, Debug)]
pub struct ClosedError;

/// Copies the payload of each transmit, cheaply, for the relay path.
pub fn clone_contents(transmits: &Vec<Transmit>) -> (r: Vec<bytes::Bytes>)
    ensures
        r@.len() == transmits@.len(),
        forall|i: int|
            0 <= i < r@.len() ==> crate::buf::bytes_data(#[trigger] r@[i]) == crate::buf::bytes_data(
                transmits@[i].contents,
            ),
{
    let mut out: Vec<bytes::Bytes> = Vec::new();
    let mut i: usize = 0;
    while i < transmits.len()
        invariant
            i <= transmits@.len(),
            out@.len() == i,
            forall|j: int|
                0 <= j < i ==> crate::buf::bytes_data(#[trigger] out@[j]) == crate::buf::bytes_data(
                    transmits@[j].contents,
                ),
        decreases transmits@.len() - i,
    {
        out.push(crate::buf::bytes_clone(&transmits[i].contents));
        i += 1;
    }
    out
}

/// The bare socket addresses of an endpoint list, in order.
pub fn endpoint_addrs(eps: &Vec<LocalEndpoint>) -> (r: Vec<SockAddr>)
    ensures
        r@.len() == eps@.len(),
        forall|i: int| 0 <= i < r@.len() ==> #[trigger] r@[i] == eps@[i].addr,
{
    let mut out: Vec<SockAddr> = Vec::new();
    let mut i: usize = 0;
    while i < eps.len()
        invariant
            i <= eps@.len(),
            out@.len() == i,
            forall|j: int| 0 <= j < i ==> #[trigger] out@[j] == eps@[j].addr,
        decreases eps@.len() - i,
    {
        out.push(eps[i].addr);
        i += 1;
    }
    out
}

} // verus!

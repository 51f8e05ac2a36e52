use bytes::Bytes;

use magicsock::actor::{Action, Actor, ActorMessage, DiscoPayload};
use magicsock::addr::{IpAddr, SockAddr};
use magicsock::disco::{Message, Ping, Pong, TransactionId};
use magicsock::key::PublicKey;
use magicsock::latch::UpdateReason;
use magicsock::netinfo::{DerpMap, Report};
use magicsock::netmap::{NetworkMap, Node};
use magicsock::conn::derived_ipv6_port;
use magicsock::endpoints::EndpointInputs;
use magicsock::rng::new_re_stun_timer_ms;
use magicsock::transmit::Transmit;

fn key(seed: u8) -> PublicKey {
    let mut bytes = Vec::new();
    for i in 0..32u8 {
        bytes.push(seed.wrapping_add(i));
    }
    PublicKey::new(bytes)
}

fn tx(seed: u8) -> TransactionId {
    let mut bytes = Vec::new();
    for i in 0..12u8 {
        bytes.push(seed.wrapping_add(i));
    }
    TransactionId::new(bytes)
}

fn udp(port: u16) -> SockAddr {
    SockAddr::new(IpAddr::V4(0xc0a8_0001), port)
}

fn actor() -> Actor {
    Actor::new(key(200), 0)
}

fn empty_inputs(local: SockAddr) -> EndpointInputs {
    EndpointInputs {
        portmap_ext: None,
        global_v4: None,
        global_v6: None,
        mapping_varies_by_dest_ip: None,
        preferred_port: 0,
        local_v4: Some(local),
        local_v6: None,
        interface_ips: vec![],
        loopback_ips: vec![],
    }
}

#[test]
fn re_stun_serialises_refreshes() {
    let mut a = actor();
    let first = a.re_stun(UpdateReason::Periodic);
    assert_eq!(first.len(), 1);
    assert!(matches!(first[0], Action::BeginEndpointUpdate { .. }));
    // while one runs, further requests are remembered, not started
    assert!(a.re_stun(UpdateReason::Requested).is_empty());
    assert!(a.re_stun(UpdateReason::PortmapChanged).is_empty());
    // completion starts exactly one refresh, with the latest reason
    let done = a.endpoint_update_done(empty_inputs(udp(1)), None, false, 1000);
    let begins: Vec<&Action> = done
        .iter()
        .filter(|x| matches!(x, Action::BeginEndpointUpdate { .. }))
        .collect();
    assert_eq!(begins.len(), 1);
    match begins[0] {
        Action::BeginEndpointUpdate { why } => assert_eq!(*why, UpdateReason::PortmapChanged),
        _ => unreachable!(),
    }
}

#[test]
fn endpoint_update_publishes_only_changes() {
    let mut a = actor();
    a.re_stun(UpdateReason::Periodic);
    let inp = EndpointInputs {
        global_v4: Some(SockAddr::new(IpAddr::V4(0x0808_0808), 777)),
        ..empty_inputs(udp(1))
    };
    let done = a.endpoint_update_done(inp, None, false, 1000);
    assert!(done.iter().any(|x| matches!(x, Action::CallOnEndpoints { .. })));
    // the same endpoint set again: no callback
    a.re_stun(UpdateReason::Periodic);
    let inp2 = EndpointInputs {
        global_v4: Some(SockAddr::new(IpAddr::V4(0x0808_0808), 777)),
        ..empty_inputs(udp(1))
    };
    let done2 = a.endpoint_update_done(inp2, None, false, 2000);
    assert!(!done2.iter().any(|x| matches!(x, Action::CallOnEndpoints { .. })));
}

#[test]
fn derp_fallback_is_deterministic_and_from_the_map() {
    let mut a = actor();
    assert_eq!(a.pick_derp_fallback(), 0);
    a.set_derp_map(Some(DerpMap::new(vec![4, 9, 17])));
    let first = a.pick_derp_fallback();
    assert!(first == 4 || first == 9 || first == 17);
    assert_eq!(a.pick_derp_fallback(), first);
    assert_eq!(a.pick_derp_fallback(), first);
    // with a home region set, the fallback stays home
    let (ok, actions) = a.set_nearest_derp(9);
    assert!(ok);
    assert_eq!(actions.len(), 2);
    assert!(matches!(actions[0], Action::DerpNotePreferred { region: 9 }));
    assert!(matches!(actions[1], Action::DerpConnect { region: 9 }));
    assert_eq!(a.pick_derp_fallback(), 9);
    // re-choosing the same home needs no work
    let (ok2, actions2) = a.set_nearest_derp(9);
    assert!(ok2);
    assert!(actions2.is_empty());
}

#[test]
fn send_network_picks_paths() {
    let mut a = actor();
    a.set_network_map(NetworkMap {
        peers: vec![Node { key: key(8), derp: Some(SockAddr::derp_addr(4)), endpoints: vec![] }],
    });
    let mapped = a.get_mapping_addr(&key(8)).unwrap();
    let batch = vec![Transmit {
        destination: mapped.0,
        ecn: None,
        contents: Bytes::from(vec![5u8; 8]),
        segment_size: None,
        src_ip: None,
    }];
    // no direct path yet: relay only
    let actions = a.send_network(batch.clone_shallow(), 100);
    assert_eq!(actions.len(), 1);
    match &actions[0] {
        Action::SendDerp { region, dst_key, contents } => {
            assert_eq!(*region, 4);
            assert_eq!(*dst_key, key(8));
            assert_eq!(contents.len(), 1);
        },
        _ => panic!("expected a relay send"),
    }
    // validate a direct path; a fresh best path is used alone
    a.start_probes(&key(8), vec![udp(3333)], vec![tx(2)], 100);
    a.handle_disco_message(
        key(8),
        udp(3333),
        None,
        DiscoPayload::Msg(Message::Pong(Pong { tx_id: tx(2), src: udp(1) })),
        150,
    );
    let actions = a.send_network(batch, 200);
    assert_eq!(actions.len(), 1);
    match &actions[0] {
        Action::SendUdp { dst, transmits } => {
            assert_eq!(*dst, udp(3333));
            assert_eq!(transmits.len(), 1);
        },
        _ => panic!("expected a direct send"),
    }
}

trait CloneShallow {
    fn clone_shallow(&self) -> Self;
}

impl CloneShallow for Vec<Transmit> {
    fn clone_shallow(&self) -> Vec<Transmit> {
        self.iter()
            .map(|t| Transmit {
                destination: t.destination,
                ecn: t.ecn,
                contents: t.contents.clone(),
                segment_size: t.segment_size,
                src_ip: t.src_ip,
            })
            .collect()
    }
}

#[test]
fn commands_after_close_do_nothing() {
    let mut a = actor();
    a.close();
    let (shutdown, actions) = a.handle_actor_message(
        ActorMessage::SendDiscoMessage {
            dst: udp(1),
            dst_key: key(1),
            msg: Message::Ping(Ping { tx_id: tx(1) }),
        },
        10,
    );
    assert!(!shutdown);
    assert!(actions.is_empty());
    let r = a.handle_disco_message(
        key(2),
        udp(2),
        None,
        DiscoPayload::Msg(Message::Ping(Ping { tx_id: tx(2) })),
        20,
    );
    assert!(r.is_empty());
    assert_eq!(a.peer_map.node_count(), 0);
}

#[test]
fn deferred_call_me_maybe_is_requeued_after_refresh() {
    let mut a = actor();
    a.set_network_map(NetworkMap {
        peers: vec![Node { key: key(8), derp: Some(SockAddr::derp_addr(4)), endpoints: vec![] }],
    });
    let id = {
        let ep = a.peer_map.endpoint_for_node_key(&key(8)).unwrap();
        ep.id
    };
    // endpoints were never computed: the request parks and a refresh
    // with the peering reason begins
    let actions = a.enqueue_call_me_maybe(SockAddr::derp_addr(4), id, 50_000);
    assert_eq!(actions.len(), 1);
    match &actions[0] {
        Action::BeginEndpointUpdate { why } => assert_eq!(*why, UpdateReason::RefreshForPeering),
        _ => panic!("expected a refresh to begin"),
    }
    let done = a.endpoint_update_done(empty_inputs(udp(1)), None, false, 51_000);
    assert!(done.iter().any(
        |x| matches!(x, Action::RequeueCallMeMaybe { endpoint_id, .. } if *endpoint_id == id),
    ));
    // with fresh endpoints the call-me-maybe goes straight out
    let sent = a.enqueue_call_me_maybe(SockAddr::derp_addr(4), id, 52_000);
    assert_eq!(sent.len(), 1);
    match &sent[0] {
        Action::SendDisco { dst, msg, .. } => {
            assert_eq!(*dst, SockAddr::derp_addr(4));
            assert!(matches!(msg, Message::CallMeMaybe(_)));
        },
        _ => panic!("expected the call-me-maybe"),
    }
}

#[test]
fn re_stun_timer_interval_is_in_range() {
    for _ in 0..32 {
        let ms = new_re_stun_timer_ms();
        assert!((20_000..=26_000).contains(&ms));
    }
}

#[test]
fn net_info_is_published_only_on_substantial_change() {
    let report = Report {
        global_v4: None,
        global_v6: None,
        mapping_varies_by_dest_ip: Some(false),
        hair_pinning: Some(false),
        upnp: None,
        pmp: None,
        pcp: None,
        ipv6: false,
        os_has_ipv6: true,
        udp: true,
        icmpv4: false,
        ipv4_can_send: true,
        preferred_derp: 0,
        region_latency: vec![(1, 23)],
    };
    let report_again = Report { region_latency: vec![(1, 31)], ..report_copy(&report) };
    let mut a = actor();
    a.re_stun(UpdateReason::Periodic);
    let done = a.endpoint_update_done(empty_inputs(udp(1)), Some(report), false, 1000);
    assert!(done.iter().any(|x| matches!(x, Action::CallNetInfo { .. })));
    // only the latencies moved: no further callback
    a.re_stun(UpdateReason::Periodic);
    let done2 = a.endpoint_update_done(empty_inputs(udp(1)), Some(report_again), false, 2000);
    assert!(!done2.iter().any(|x| matches!(x, Action::CallNetInfo { .. })));
    // the port mapper reporting a mapping is news exactly once
    let third = a.set_net_info_have_port_map();
    assert_eq!(third.len(), 1);
    let fourth = a.set_net_info_have_port_map();
    assert!(fourth.is_empty());
}

fn report_copy(r: &Report) -> Report {
    Report {
        global_v4: r.global_v4,
        global_v6: r.global_v6,
        mapping_varies_by_dest_ip: r.mapping_varies_by_dest_ip,
        hair_pinning: r.hair_pinning,
        upnp: r.upnp,
        pmp: r.pmp,
        pcp: r.pcp,
        ipv6: r.ipv6,
        os_has_ipv6: r.os_has_ipv6,
        udp: r.udp,
        icmpv4: r.icmpv4,
        ipv4_can_send: r.ipv4_can_send,
        preferred_derp: r.preferred_derp,
        region_latency: r.region_latency.clone(),
    }
}

#[test]
fn receive_ip_rewrites_to_the_mapped_address() {
    let mut a = actor();
    let src = udp(5555);
    a.handle_disco_message(
        key(4),
        src,
        None,
        DiscoPayload::Msg(Message::Ping(Ping { tx_id: tx(1) })),
        5,
    );
    let mapped = a.get_mapping_addr(&key(4)).unwrap();
    let meta = a.receive_ip(src, 100, None).expect("known sender");
    assert_eq!(meta.addr, mapped.0);
    assert_eq!(meta.len, 100);
    assert!(a.receive_ip(udp(1), 100, None).is_none());
}

#[test]
fn ipv6_port_sits_beside_a_fixed_ipv4_port() {
        assert_eq!(derived_ipv6_port(0), 0);
    assert_eq!(derived_ipv6_port(4000), 4001);
    assert_eq!(derived_ipv6_port(65535), 0);
}

#[test]
fn endpoint_update_adopts_the_reported_relay_region() {
    let mut a = actor();
    a.set_derp_map(Some(DerpMap::new(vec![4, 9, 17])));
    a.re_stun(UpdateReason::Periodic);
    let report = Report {
        global_v4: None,
        global_v6: None,
        mapping_varies_by_dest_ip: None,
        hair_pinning: None,
        upnp: None,
        pmp: None,
        pcp: None,
        ipv6: false,
        os_has_ipv6: false,
        udp: true,
        icmpv4: false,
        ipv4_can_send: true,
        preferred_derp: 17,
        region_latency: vec![],
    };
    let done = a.endpoint_update_done(empty_inputs(udp(1)), Some(report), false, 1000);
    assert_eq!(a.my_derp, 17);
    let pos = done
        .iter()
        .position(|x| matches!(x, Action::DerpNotePreferred { region: 17 }))
        .expect("the new home region is announced");
    assert!(matches!(done[pos + 1], Action::DerpConnect { region: 17 }));
    // the published summary carries the adopted region
    let info = done
        .iter()
        .find_map(|x| match x {
            Action::CallNetInfo { info } => Some(info),
            _ => None,
        })
        .expect("summary published");
    assert_eq!(info.preferred_derp, 17);
}

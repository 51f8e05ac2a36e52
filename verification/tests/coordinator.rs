use bytes::Bytes;

use magicsock::actor::{Action, Actor, DiscoPayload};
use magicsock::addr::{IpAddr, QuicMappedAddr, SockAddr};
use magicsock::conn::NetworkReadResult;
use magicsock::disco::{encode_message, CallMeMaybe, Message, Ping, Pong, TransactionId};
use magicsock::key::PublicKey;
use magicsock::latch::{EndpointUpdateState, UpdateReason};
use magicsock::netmap::{NetworkMap, Node};

fn key(seed: u8) -> PublicKey {
    let mut bytes = Vec::new();
    for i in 0..32u8 {
        bytes.push(seed.wrapping_add(i));
    }
    PublicKey::new(bytes)
}

fn tx(seed: u8) -> TransactionId {
    let mut bytes = Vec::new();
    for i in 0..12u8 {
        bytes.push(seed.wrapping_add(i));
    }
    TransactionId::new(bytes)
}

fn udp(port: u16) -> SockAddr {
    SockAddr::new(IpAddr::V4(0xc0a8_0001), port)
}

fn actor() -> Actor {
    Actor::new(key(200), 0)
}

#[test]
fn mapped_addresses_are_distinct_and_in_space() {
    let a = QuicMappedAddr::generate(0);
    let b = QuicMappedAddr::generate(1);
    let c = QuicMappedAddr::generate(2);
    assert_ne!(a, b);
    assert_ne!(a, c);
    assert_ne!(b, c);
    assert!(QuicMappedAddr::is_mapped(&a.0));
    assert!(QuicMappedAddr::is_mapped(&b.0));
    assert!(!QuicMappedAddr::is_mapped(&udp(1)));
}

#[test]
fn mapped_address_stays_with_its_peer() {
    let mut a = actor();
    let nm = NetworkMap {
        peers: vec![
            Node { key: key(1), derp: None, endpoints: vec![udp(1)] },
            Node { key: key(2), derp: None, endpoints: vec![udp(2)] },
        ],
    };
    a.set_network_map(nm);
    let m1 = a.get_mapping_addr(&key(1)).expect("tracked");
    let m2 = a.get_mapping_addr(&key(2)).expect("tracked");
    assert_ne!(m1, m2);
    // drop peer two; peer one keeps exactly its address
    let nm2 = NetworkMap {
        peers: vec![Node { key: key(1), derp: None, endpoints: vec![udp(1)] }],
    };
    a.set_network_map(nm2);
    assert_eq!(a.get_mapping_addr(&key(1)), Some(m1));
    assert_eq!(a.get_mapping_addr(&key(2)), None);
    // a returning peer gets a fresh address, never a reused one
    let nm3 = NetworkMap {
        peers: vec![
            Node { key: key(1), derp: None, endpoints: vec![] },
            Node { key: key(2), derp: None, endpoints: vec![] },
        ],
    };
    a.set_network_map(nm3);
    let m2b = a.get_mapping_addr(&key(2)).expect("tracked again");
    assert_ne!(m2b, m2);
    assert_ne!(m2b, m1);
}

#[test]
fn latch_remembers_most_recent_reason() {
    let mut latch = EndpointUpdateState::new();
    assert!(!latch.is_running());
    assert!(latch.request(UpdateReason::Periodic));
    assert!(latch.is_running());
    assert!(!latch.request(UpdateReason::Requested));
    assert!(!latch.request(UpdateReason::PortmapChanged));
    // only the most recent reason is kept, and it starts on completion
    assert_eq!(latch.finish(), Some(UpdateReason::PortmapChanged));
    assert!(latch.is_running());
    assert_eq!(latch.finish(), None);
    assert!(!latch.is_running());
}

#[test]
fn set_network_map_is_idempotent_on_equal_peers() {
    let mut a = actor();
    let nm = NetworkMap {
        peers: vec![
            Node { key: key(1), derp: Some(SockAddr::derp_addr(3)), endpoints: vec![udp(1)] },
            Node { key: key(2), derp: None, endpoints: vec![] },
        ],
    };
    let nm_again = NetworkMap {
        peers: vec![
            Node { key: key(1), derp: Some(SockAddr::derp_addr(3)), endpoints: vec![udp(1)] },
            Node { key: key(2), derp: None, endpoints: vec![] },
        ],
    };
    a.set_network_map(nm);
    let count = a.peer_map.node_count();
    let next_id = a.peer_map.next_id;
    let actions = a.set_network_map(nm_again);
    assert!(actions.is_empty());
    assert_eq!(a.peer_map.node_count(), count);
    assert_eq!(a.peer_map.next_id, next_id);
}

#[test]
fn close_is_idempotent() {
    let mut a = actor();
    let first = a.close();
    assert_eq!(first.len(), 1);
    assert!(matches!(first[0], Action::Teardown));
    let second = a.close();
    assert!(second.is_empty());
    let third = a.close();
    assert!(third.is_empty());
}

#[test]
fn ping_gets_pong_on_same_path() {
    let mut a = actor();
    let src = udp(4242);
    let actions = a.handle_disco_message(
        key(9),
        src,
        None,
        DiscoPayload::Msg(Message::Ping(Ping { tx_id: tx(5) })),
        1000,
    );
    assert_eq!(actions.len(), 1);
    match &actions[0] {
        Action::SendDisco { dst, dst_key, msg } => {
            assert_eq!(*dst, src);
            assert_eq!(*dst_key, key(9));
            match msg {
                Message::Pong(p) => {
                    assert_eq!(p.tx_id, tx(5));
                    assert_eq!(p.src, src);
                },
                _ => panic!("expected a pong"),
            }
        },
        _ => panic!("expected a disco send"),
    }
}

#[test]
fn duplicate_ping_is_dropped_silently() {
    let mut a = actor();
    let src = udp(4242);
    let first = a.handle_disco_message(
        key(9),
        src,
        None,
        DiscoPayload::Msg(Message::Ping(Ping { tx_id: tx(5) })),
        1000,
    );
    assert_eq!(first.len(), 1);
    let second = a.handle_disco_message(
        key(9),
        src,
        None,
        DiscoPayload::Msg(Message::Ping(Ping { tx_id: tx(5) })),
        1001,
    );
    assert!(second.is_empty());
}

#[test]
fn unknown_ping_inserts_endpoint() {
    let mut a = actor();
    let src = udp(7777);
    assert!(a.get_mapping_addr(&key(4)).is_none());
    a.handle_disco_message(
        key(4),
        src,
        None,
        DiscoPayload::Msg(Message::Ping(Ping { tx_id: tx(1) })),
        5,
    );
    let mapped = a.get_mapping_addr(&key(4)).expect("inserted");
    assert!(QuicMappedAddr::is_mapped(&mapped.0));
    let ep = a.peer_map.endpoint_for_ip_port(&src).expect("indexed by source");
    assert_eq!(*ep.public_key(), key(4));
}

#[test]
fn call_me_maybe_over_udp_is_dropped() {
    let mut a = actor();
    // track the peer so only the arrival path is at issue
    a.set_network_map(NetworkMap {
        peers: vec![Node { key: key(3), derp: None, endpoints: vec![] }],
    });
    let cm = CallMeMaybe { my_number: vec![udp(1), udp(2)] };
    let actions = a.handle_disco_message(
        key(3),
        udp(9),
        Some(key(3)),
        DiscoPayload::Msg(Message::CallMeMaybe(cm)),
        50,
    );
    assert!(actions.is_empty());
    assert_eq!(a.metrics.recv_disco_call_me_maybe_bad_disco, 1);
}

#[test]
fn call_me_maybe_from_unknown_peer_counts_bad_disco() {
    let mut a = actor();
    let relay_src = SockAddr::derp_addr(2);
    let cm = CallMeMaybe { my_number: vec![udp(1)] };
    let actions = a.handle_disco_message(
        key(3),
        relay_src,
        Some(key(3)),
        DiscoPayload::Msg(Message::CallMeMaybe(cm)),
        50,
    );
    assert!(actions.is_empty());
    assert_eq!(a.metrics.recv_disco_call_me_maybe_bad_disco, 1);
}

#[test]
fn call_me_maybe_over_relay_probes_candidates() {
    let mut a = actor();
    a.set_network_map(NetworkMap {
        peers: vec![Node { key: key(3), derp: None, endpoints: vec![] }],
    });
    let relay_src = SockAddr::derp_addr(2);
    let cm = CallMeMaybe { my_number: vec![udp(21), udp(22)] };
    let actions = a.handle_disco_message(
        key(3),
        relay_src,
        Some(key(3)),
        DiscoPayload::Msg(Message::CallMeMaybe(cm)),
        50,
    );
    assert_eq!(actions.len(), 1);
    match &actions[0] {
        Action::ProbeCandidates { dst_key, addrs } => {
            assert_eq!(*dst_key, key(3));
            assert_eq!(addrs.len(), 2);
        },
        _ => panic!("expected a probe request"),
    }
    // supply the fresh transaction ids: one ping per candidate
    let pings = a.start_probes(&key(3), vec![udp(21), udp(22)], vec![tx(10), tx(11)], 60);
    assert_eq!(pings.len(), 2);
}

#[test]
fn matching_pong_updates_address_index() {
    let mut a = actor();
    a.set_network_map(NetworkMap {
        peers: vec![Node { key: key(8), derp: None, endpoints: vec![] }],
    });
    let probe_addr = udp(3333);
    a.start_probes(&key(8), vec![probe_addr], vec![tx(2)], 100);
    assert!(a.peer_map.endpoint_for_ip_port(&probe_addr).is_none());
    let actions = a.handle_disco_message(
        key(8),
        probe_addr,
        None,
        DiscoPayload::Msg(Message::Pong(Pong { tx_id: tx(2), src: udp(1) })),
        150,
    );
    assert!(actions.is_empty());
    let ep = a.peer_map.endpoint_for_ip_port(&probe_addr).expect("index updated");
    assert_eq!(*ep.public_key(), key(8));
    assert_eq!(ep.best_addr, Some(probe_addr));
    assert_eq!(ep.best_rtt_ms, 50);
}

#[test]
fn stale_pong_does_not_match_twice() {
    let mut a = actor();
    a.set_network_map(NetworkMap {
        peers: vec![Node { key: key(8), derp: None, endpoints: vec![] }],
    });
    a.start_probes(&key(8), vec![udp(3333)], vec![tx(2)], 100);
    a.handle_disco_message(
        key(8),
        udp(3333),
        None,
        DiscoPayload::Msg(Message::Pong(Pong { tx_id: tx(2), src: udp(1) })),
        150,
    );
    // replay: the probe is already consumed, so nothing changes
    let ep_before = a.peer_map.endpoint_for_node_key(&key(8)).unwrap().best_rtt_ms;
    a.handle_disco_message(
        key(8),
        udp(4444),
        None,
        DiscoPayload::Msg(Message::Pong(Pong { tx_id: tx(2), src: udp(1) })),
        900,
    );
    assert!(a.peer_map.endpoint_for_ip_port(&udp(4444)).is_none());
    assert_eq!(a.peer_map.endpoint_for_node_key(&key(8)).unwrap().best_rtt_ms, ep_before);
}

#[test]
fn bad_seal_and_bad_parse_are_counted_and_dropped() {
    let mut a = actor();
    let r1 = a.handle_disco_message(key(1), udp(1), None, DiscoPayload::BadSeal, 1);
    let r2 = a.handle_disco_message(key(1), udp(1), None, DiscoPayload::BadParse, 2);
    assert!(r1.is_empty());
    assert!(r2.is_empty());
    assert_eq!(a.metrics.recv_disco_bad_key, 1);
    assert_eq!(a.metrics.recv_disco_bad_parse, 1);
    assert_eq!(a.peer_map.node_count(), 0);
}

#[test]
fn relay_frame_is_split_rewritten_and_disco_extracted() {
    let mut a = actor();
    let sender = key(6);
    // one plain item and one framed disco payload
    let plain = b"application data".to_vec();
    let disco = encode_message(&key(6), &vec![1, 2, 3]);
    let mut frame = Vec::new();
    frame.extend_from_slice(&(plain.len() as u16).to_le_bytes());
    frame.extend_from_slice(&plain);
    frame.extend_from_slice(&(disco.len() as u16).to_le_bytes());
    frame.extend_from_slice(&disco);
    let actions = a.process_derp_read_result(5, sender, Bytes::from(frame), None);
    assert_eq!(actions.len(), 2);
    let mapped = a.get_mapping_addr(&key(6)).expect("inserted on first sighting");
    match &actions[0] {
        Action::Deliver { result } => match result {
            NetworkReadResult::Packet { bytes, meta, .. } => {
                assert_eq!(bytes.as_ref(), plain.as_slice());
                assert_eq!(meta.addr, mapped.0);
            },
            _ => panic!("expected a packet"),
        },
        _ => panic!("expected a delivery"),
    }
    match &actions[1] {
        Action::OpenDisco { sender: s, src, sealed, .. } => {
            assert_eq!(*s, key(6));
            assert_eq!(*src, SockAddr::derp_addr(5));
            assert_eq!(*sealed, vec![1, 2, 3]);
        },
        _ => panic!("expected an open request"),
    }
    // the unknown relay sender got a record with its relay region set
    // to the synthetic arrival address, which resolves back to it
    let ep = a.peer_map.endpoint_for_node_key(&key(6)).expect("tracked");
    assert_eq!(ep.derp_addr, Some(SockAddr::derp_addr(5)));
    let back = a.peer_map.endpoint_for_ip_port(&SockAddr::derp_addr(5)).expect("arrival indexed");
    assert_eq!(*back.public_key(), key(6));
}

#[test]
fn heartbeat_pings_quiet_direct_paths() {
    let mut a = actor();
    a.set_network_map(NetworkMap {
        peers: vec![Node { key: key(8), derp: None, endpoints: vec![] }],
    });
    a.start_probes(&key(8), vec![udp(3333)], vec![tx(2)], 100);
    a.handle_disco_message(
        key(8),
        udp(3333),
        None,
        DiscoPayload::Msg(Message::Pong(Pong { tx_id: tx(2), src: udp(1) })),
        150,
    );
    let beats = a.heartbeat(10_000, vec![tx(30)]);
    assert_eq!(beats.len(), 1);
    match &beats[0] {
        Action::SendDisco { dst, msg, .. } => {
            assert_eq!(*dst, udp(3333));
            assert!(matches!(msg, Message::Ping(_)));
        },
        _ => panic!("expected a keep-alive ping"),
    }
    // within the heartbeat interval nothing more goes out
    let again = a.heartbeat(12_000, vec![tx(31)]);
    assert!(again.is_empty());
}

#[test]
fn pong_promotes_only_past_the_margin() {
    let mut a = actor();
    a.set_network_map(NetworkMap {
        peers: vec![Node { key: key(8), derp: None, endpoints: vec![] }],
    });
    // validate a first path with a 50 ms round trip
    a.start_probes(&key(8), vec![udp(1)], vec![tx(1)], 100);
    a.handle_disco_message(
        key(8),
        udp(1),
        None,
        DiscoPayload::Msg(Message::Pong(Pong { tx_id: tx(1), src: udp(1) })),
        150,
    );
    assert_eq!(a.peer_map.endpoint_for_node_key(&key(8)).unwrap().best_addr, Some(udp(1)));
    assert_eq!(a.peer_map.endpoint_for_node_key(&key(8)).unwrap().best_rtt_ms, 50);
    // a 45 ms path does not beat 50 ms by the 10 ms margin: no switch
    a.start_probes(&key(8), vec![udp(2)], vec![tx(2)], 200);
    a.handle_disco_message(
        key(8),
        udp(2),
        None,
        DiscoPayload::Msg(Message::Pong(Pong { tx_id: tx(2), src: udp(2) })),
        245,
    );
    assert_eq!(a.peer_map.endpoint_for_node_key(&key(8)).unwrap().best_addr, Some(udp(1)));
    assert_eq!(a.peer_map.endpoint_for_node_key(&key(8)).unwrap().best_rtt_ms, 50);
    // a 40 ms path beats it by the full margin: switch
    a.start_probes(&key(8), vec![udp(3)], vec![tx(3)], 300);
    a.handle_disco_message(
        key(8),
        udp(3),
        None,
        DiscoPayload::Msg(Message::Pong(Pong { tx_id: tx(3), src: udp(3) })),
        340,
    );
    assert_eq!(a.peer_map.endpoint_for_node_key(&key(8)).unwrap().best_addr, Some(udp(3)));
    assert_eq!(a.peer_map.endpoint_for_node_key(&key(8)).unwrap().best_rtt_ms, 40);
}

#[test]
fn heartbeat_stops_when_transaction_ids_run_out() {
    let mut a = actor();
    a.set_network_map(NetworkMap {
        peers: vec![
            Node { key: key(1), derp: None, endpoints: vec![] },
            Node { key: key(2), derp: None, endpoints: vec![] },
        ],
    });
    for (i, k) in [key(1), key(2)].iter().enumerate() {
        let addr = udp(100 + i as u16);
        a.start_probes(k, vec![addr], vec![tx(10 + i as u8)], 100);
        a.handle_disco_message(
            k.clone(),
            addr,
            None,
            DiscoPayload::Msg(Message::Pong(Pong { tx_id: tx(10 + i as u8), src: addr })),
            150,
        );
    }
    // two endpoints are due but only one transaction id is supplied
    let beats = a.heartbeat(20_000, vec![tx(30)]);
    assert_eq!(beats.len(), 1);
    match &beats[0] {
        Action::SendDisco { dst, .. } => assert_eq!(*dst, udp(100)),
        _ => panic!("expected a keep-alive ping"),
    }
}

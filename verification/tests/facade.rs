use bytes::Bytes;

use magicsock::addr::{IpAddr, SockAddr};
use magicsock::cfg::{endpoint_sets_equal, Endpoint, EndpointType};
use magicsock::conn::{
    Conn, NetworkReadResult, NetworkSource, Options, RecvMeta, RecvPoll, SendPoll,
};
use magicsock::endpoints::{determine_endpoints, EndpointInputs};
use magicsock::transmit::Transmit;

fn local(port: u16) -> SockAddr {
    SockAddr::new(IpAddr::V4(0x7f00_0001), port)
}

fn make_transmit(destination: SockAddr) -> Transmit {
    Transmit {
        destination,
        ecn: None,
        contents: Bytes::from(vec![0u8; 16]),
        segment_size: None,
        src_ip: None,
    }
}

fn conn() -> Conn {
    Conn::new(local(4000), None)
}

#[test]
fn options_default_picks_any_port() {
    let opts = Options::default();
    assert_eq!(opts.port, 0);
}

#[test]
fn poll_send_groups_by_destination() {
    let mut c = conn();
    let batch = vec![
        make_transmit(local(1)),
        make_transmit(local(2)),
        make_transmit(local(2)),
        make_transmit(local(1)),
    ];
    match c.poll_send(batch) {
        SendPoll::Sent(n) => assert_eq!(n, 4),
        _ => panic!("expected the batch accepted"),
    }
    // three runs were enqueued: [1], [2, 2], [1]
    let g1 = c.take_send_group().unwrap();
    assert_eq!(g1.len(), 1);
    assert_eq!(g1[0].destination, local(1));
    let g2 = c.take_send_group().unwrap();
    assert_eq!(g2.len(), 2);
    assert_eq!(g2[0].destination, local(2));
    let g3 = c.take_send_group().unwrap();
    assert_eq!(g3.len(), 1);
    assert!(c.take_send_group().is_none());
}

#[test]
fn poll_send_reports_closed() {
    let mut c = conn();
    c.set_closed();
    match c.poll_send(vec![make_transmit(local(1))]) {
        SendPoll::Closed => {},
        _ => panic!("expected closed"),
    }
    match c.poll_recv(4) {
        RecvPoll::Closed => {},
        _ => panic!("expected closed"),
    }
}

#[test]
fn poll_send_backpressure_loses_nothing() {
    let mut c = conn();
    // fill the queue: each batch entry has its own destination, so one
    // group per datagram
    for i in 0..128u16 {
        match c.poll_send(vec![make_transmit(local(i + 1))]) {
            SendPoll::Sent(n) => assert_eq!(n, 1),
            _ => panic!("expected acceptance"),
        }
    }
    match c.poll_send(vec![make_transmit(local(999))]) {
        SendPoll::Pending => {},
        _ => panic!("expected backpressure"),
    }
    // drain one group; sending works again
    assert!(c.take_send_group().is_some());
    match c.poll_send(vec![make_transmit(local(999))]) {
        SendPoll::Sent(n) => assert_eq!(n, 1),
        _ => panic!("expected acceptance after drain"),
    }
}

fn packet(tag: u8, addr: SockAddr) -> NetworkReadResult {
    NetworkReadResult::Packet {
        source: NetworkSource::Derp,
        bytes: Bytes::from(vec![tag; 4]),
        meta: RecvMeta { addr, len: 4, stride: 4, dst_ip: None, ecn: None },
    }
}

#[test]
fn poll_recv_drains_in_order() {
    let mut c = conn();
    assert!(c.push_recv(packet(1, local(10))));
    assert!(c.push_recv(packet(2, local(11))));
    match c.poll_recv(8) {
        RecvPoll::Received(out) => {
            assert_eq!(out.len(), 2);
            assert_eq!(out[0].0.as_ref(), &[1, 1, 1, 1]);
            assert_eq!(out[0].1.addr, local(10));
            assert_eq!(out[1].0.as_ref(), &[2, 2, 2, 2]);
        },
        _ => panic!("expected packets"),
    }
    match c.poll_recv(8) {
        RecvPoll::Pending => {},
        _ => panic!("expected pending on the empty queue"),
    }
}

#[test]
fn poll_recv_surfaces_the_error_sentinel() {
    let mut c = conn();
    assert!(c.push_recv(NetworkReadResult::Error));
    match c.poll_recv(8) {
        RecvPoll::Error => {},
        _ => panic!("expected the error"),
    }
}

#[test]
fn local_addr_is_normalised_to_ipv6() {
    let c = Conn::new(SockAddr::new(IpAddr::V4(0x7f00_0001), 4000), None);
    let n = c.normalized_local_addr();
    assert!(matches!(n.ip, IpAddr::V6(_)));
    assert_eq!(n.ip, IpAddr::V6(0xffff_7f00_0001));
    assert_eq!(n.port, 4000);
    let c6 = Conn::new(
        SockAddr::new(IpAddr::V4(0x7f00_0001), 4000),
        Some(SockAddr::new(IpAddr::V6(0x1234), 4001)),
    );
    assert_eq!(c6.normalized_local_addr(), SockAddr::new(IpAddr::V6(0x1234), 4001));
}

#[test]
fn endpoint_set_equality_ignores_order_and_multiplicity() {
    let a = Endpoint { addr: local(1), typ: EndpointType::Stun };
    let b = Endpoint { addr: local(2), typ: EndpointType::Local };
    let c = Endpoint { addr: local(3), typ: EndpointType::Portmapped };
    assert!(endpoint_sets_equal(&vec![a, b, c], &vec![c, a, b]));
    assert!(endpoint_sets_equal(&vec![a, b, a], &vec![b, a]));
    assert!(!endpoint_sets_equal(&vec![a, b], &vec![a, c]));
    assert!(endpoint_sets_equal(&vec![], &vec![]));
    assert!(!endpoint_sets_equal(&vec![a], &vec![]));
}

#[test]
fn determine_endpoints_orders_and_deduplicates() {
    let stun = SockAddr::new(IpAddr::V4(0x0808_0808), 777);
    let inp = EndpointInputs {
        portmap_ext: Some(SockAddr::new(IpAddr::V4(0x0101_0101), 5000)),
        global_v4: Some(stun),
        global_v6: None,
        mapping_varies_by_dest_ip: Some(true),
        preferred_port: 777,
        local_v4: Some(SockAddr::new(IpAddr::V4(0), 6000)),
        local_v6: None,
        interface_ips: vec![IpAddr::V4(0x0a00_0001)],
        loopback_ips: vec![IpAddr::V4(0x7f00_0001)],
    };
    let eps = determine_endpoints(&inp);
    // portmapped first, stun second; the hairpin variant collides with
    // the stun address (same ip and port) and is dropped; then the
    // interface address with the bound port
    assert_eq!(eps.len(), 3);
    assert_eq!(eps[0].typ, EndpointType::Portmapped);
    assert_eq!(eps[1].typ, EndpointType::Stun);
    assert_eq!(eps[1].addr, stun);
    assert_eq!(eps[2].typ, EndpointType::Local);
    assert_eq!(eps[2].addr, SockAddr::new(IpAddr::V4(0x0a00_0001), 6000));
}

#[test]
fn determine_endpoints_uses_loopback_only_as_last_resort() {
    let inp = EndpointInputs {
        portmap_ext: None,
        global_v4: None,
        global_v6: None,
        mapping_varies_by_dest_ip: None,
        preferred_port: 0,
        local_v4: Some(SockAddr::new(IpAddr::V4(0), 6000)),
        local_v6: None,
        interface_ips: vec![],
        loopback_ips: vec![IpAddr::V4(0x7f00_0001)],
    };
    let eps = determine_endpoints(&inp);
    assert_eq!(eps.len(), 1);
    assert_eq!(eps[0].addr, SockAddr::new(IpAddr::V4(0x7f00_0001), 6000));
    assert_eq!(eps[0].typ, EndpointType::Local);
}

use bytes::Bytes;

use magicsock::addr::{IpAddr, SockAddr};
use magicsock::cfg::{Endpoint, EndpointType};
use magicsock::disco::{parse_message, encode_message, source_and_box, CallMeMaybe, Message, Ping, Pong, TransactionId};
use magicsock::key::PublicKey;
use magicsock::render::log_endpoint_change;
use magicsock::split::PacketSplitIter;
use magicsock::transmit::{group_transmits, Transmit};

fn make_transmit(destination: SockAddr) -> Transmit {
    Transmit {
        destination,
        ecn: None,
        contents: Bytes::from(vec![1u8, 2, 3]),
        segment_size: None,
        src_ip: None,
    }
}

fn local(port: u16) -> SockAddr {
    SockAddr::new(IpAddr::V4(0x7f00_0001), port)
}

#[test]
fn test_transmit_iter() {
    let transmits = vec![
        make_transmit(local(1)),
        make_transmit(local(2)),
        make_transmit(local(2)),
        make_transmit(local(1)),
        make_transmit(local(3)),
        make_transmit(local(3)),
    ];

    let groups = group_transmits(transmits);
    assert_eq!(groups.len(), 4);
    assert_eq!(groups[0].len(), 1);
    assert_eq!(groups[1].len(), 2);
    assert_eq!(groups[2].len(), 1);
    assert_eq!(groups[3].len(), 2);

    let transmits = vec![make_transmit(local(1)), make_transmit(local(1))];

    let groups = group_transmits(transmits);
    assert_eq!(groups.len(), 1);
    assert_eq!(groups[0].len(), 2);
}

fn frame_item(out: &mut Vec<u8>, item: &[u8]) {
    let len = item.len() as u16;
    out.extend_from_slice(&len.to_le_bytes());
    out.extend_from_slice(item);
}

#[test]
fn packet_split_exact() {
    let mut frame = Vec::new();
    frame_item(&mut frame, b"hello");
    frame_item(&mut frame, b"");
    frame_item(&mut frame, b"world!");
    let mut iter = PacketSplitIter::new(Bytes::from(frame));
    let a = iter.next().unwrap().unwrap();
    assert_eq!(a.as_ref(), b"hello");
    let b = iter.next().unwrap().unwrap();
    assert_eq!(b.as_ref(), b"");
    let c = iter.next().unwrap().unwrap();
    assert_eq!(c.as_ref(), b"world!");
    assert!(iter.next().is_none());
}

#[test]
fn packet_split_truncated_tail() {
    let mut frame = Vec::new();
    frame_item(&mut frame, b"ok");
    frame.push(9);
    frame.push(0);
    frame.push(1);
    let mut iter = PacketSplitIter::new(Bytes::from(frame));
    let a = iter.next().unwrap().unwrap();
    assert_eq!(a.as_ref(), b"ok");
    assert!(iter.next().unwrap().is_err());
    assert!(iter.next().is_none());
}

#[test]
fn packet_split_short_header() {
    let mut iter = PacketSplitIter::new(Bytes::from(vec![7u8]));
    assert!(iter.next().unwrap().is_err());
    assert!(iter.next().is_none());
}

fn tx(seed: u8) -> TransactionId {
    let mut bytes = Vec::new();
    for i in 0..12u8 {
        bytes.push(seed.wrapping_add(i));
    }
    TransactionId::new(bytes)
}

#[test]
fn disco_ping_roundtrip() {
    let m = Message::Ping(Ping { tx_id: tx(7) });
    let wire = m.as_bytes();
    assert_eq!(wire.len(), 14);
    match parse_message(&wire) {
        Some(Message::Ping(p)) => assert_eq!(p.tx_id, tx(7)),
        _ => panic!("expected a ping"),
    }
}

#[test]
fn disco_pong_roundtrip_v4() {
    let src = SockAddr::new(IpAddr::V4(0x0102_0304), 443);
    let m = Message::Pong(Pong { tx_id: tx(3), src });
    let wire = m.as_bytes();
    match parse_message(&wire) {
        Some(Message::Pong(p)) => {
            assert_eq!(p.tx_id, tx(3));
            assert_eq!(p.src, src);
        },
        _ => panic!("expected a pong"),
    }
}

#[test]
fn disco_pong_roundtrip_v6() {
    let src = SockAddr::new(IpAddr::V6(0xdead_beef_0000_0000_0000_0000_1234_5678), 8443);
    let m = Message::Pong(Pong { tx_id: tx(1), src });
    let wire = m.as_bytes();
    match parse_message(&wire) {
        Some(Message::Pong(p)) => {
            assert_eq!(p.src, src);
        },
        _ => panic!("expected a pong"),
    }
}

#[test]
fn disco_call_me_maybe_roundtrip() {
    let addrs = vec![
        SockAddr::new(IpAddr::V4(0x0a00_0001), 9000),
        SockAddr::new(IpAddr::V6(0xfe80_0000_0000_0000_0000_0000_0000_0001), 9001),
    ];
    let m = Message::CallMeMaybe(CallMeMaybe { my_number: addrs.clone() });
    let wire = m.as_bytes();
    match parse_message(&wire) {
        Some(Message::CallMeMaybe(cm)) => {
            assert_eq!(cm.my_number.len(), 2);
            assert_eq!(cm.my_number[0], addrs[0]);
            assert_eq!(cm.my_number[1], addrs[1]);
        },
        _ => panic!("expected a call-me-maybe"),
    }
}

#[test]
fn disco_parse_rejects_garbage() {
    assert!(parse_message(&vec![]).is_none());
    assert!(parse_message(&vec![1]).is_none());
    // bad version
    assert!(parse_message(&vec![1, 9, 0, 0, 0, 0, 0, 0, 0, 0, 0, 0, 0, 0]).is_none());
    // bad tag
    assert!(parse_message(&vec![9, 0]).is_none());
    // ping with a short id
    assert!(parse_message(&vec![1, 0, 1, 2, 3]).is_none());
    // call-me-maybe with a truncated address
    assert!(parse_message(&vec![3, 0, 4, 1, 2]).is_none());
}

fn key(seed: u8) -> PublicKey {
    let mut bytes = Vec::new();
    for i in 0..32u8 {
        bytes.push(seed.wrapping_add(i));
    }
    PublicKey::new(bytes)
}

#[test]
fn disco_frame_roundtrip() {
    let k = key(5);
    let sealed = vec![9u8, 8, 7, 6];
    let framed = encode_message(&k, &sealed);
    let (k2, sealed2) = source_and_box(&framed).expect("framed payload");
    assert_eq!(k2, key(5));
    assert_eq!(sealed2, sealed);
}

#[test]
fn disco_frame_rejects_non_magic() {
    assert!(source_and_box(&vec![0u8; 40]).is_none());
    assert!(source_and_box(&vec![]).is_none());
}

#[test]
fn endpoint_change_rendering() {
    let eps = vec![
        Endpoint { addr: SockAddr::new(IpAddr::V4(0x0102_0304), 99), typ: EndpointType::Stun },
        Endpoint { addr: SockAddr::new(IpAddr::V6(1), 1), typ: EndpointType::Local },
    ];
    let line = log_endpoint_change(&eps);
    assert_eq!(
        line,
        "1.2.3.4:99 (stun), 00000000000000000000000000000001:1 (local)"
    );
}

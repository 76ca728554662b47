use gwyh::message::{Body, Message, SeqRange};
use gwyh::packet::{Packet, Payload};
use gwyh::packet_handler::{
    PacketAction, PacketHandler, PacketHandlerMessage, RC_DEFAULT_PACKET_INTERVAL_NANOS,
};
use gwyh::peer::{KeyPair, Peer, PeerKeys, SockAddr};
use gwyh::peer_manager::PeerRequest;
use gwyh::handshake::{Handshake, HandshakeStep};
use gwyh::sequence::Sequence;

fn addr(port: u16) -> SockAddr {
    SockAddr { ip: 0x7f00_0001, port, is_v6: false }
}

fn fresh_keypair() -> KeyPair {
    Peer::new(None, addr(0), 0, None, None).our_keypair.unwrap()
}

/// Two started handlers, `a` (id 1, port 1) and `b` (id 2, port 2), each
/// holding the keys for the other.
fn pair() -> (PacketHandler, PacketHandler) {
    let ka = fresh_keypair();
    let kb = fresh_keypair();
    let mut a = PacketHandler::new(1);
    let mut b = PacketHandler::new(2);
    a.start();
    b.start();
    a.set_keys(vec![PeerKeys { id: 2, sockaddr: addr(2), keypair: ka, their_public_key: kb.public_key }]);
    b.set_keys(vec![PeerKeys { id: 1, sockaddr: addr(1), keypair: kb, their_public_key: ka.public_key }]);
    (a, b)
}

#[test]
fn nothing_is_sent_before_start() {
    let mut ph = PacketHandler::new(1);
    assert!(ph.send(Payload::B(vec![], [0; 24]), addr(2), 10).is_none());
    assert!(ph.multisend(vec![(Payload::B(vec![], [0; 24]), addr(2))]).is_empty());
    assert_eq!(ph.tx_sequences.len(), 0);
}

#[test]
fn send_numbers_and_paces_packets() {
    let mut ph = PacketHandler::new(9);
    ph.start();
    let t1 = ph.send(Payload::B(vec![1], [0; 24]), addr(2), 100).unwrap();
    assert_eq!(t1.packet.s, Sequence(1));
    assert_eq!(t1.packet.id, 9);
    assert_eq!(t1.to, addr(2));
    assert_eq!(t1.not_before, None);
    let t2 = ph.send(Payload::B(vec![2], [0; 24]), addr(2), 200).unwrap();
    assert_eq!(t2.packet.s, Sequence(2));
    assert_eq!(t2.not_before, Some(100 + RC_DEFAULT_PACKET_INTERVAL_NANOS as u128));
    // another address has its own numbering
    let t3 = ph.send(Payload::B(vec![3], [0; 24]), addr(3), 300).unwrap();
    assert_eq!(t3.packet.s, Sequence(1));
}

#[test]
fn multisend_numbers_per_address() {
    let mut ph = PacketHandler::new(9);
    ph.start();
    let out = ph.multisend(vec![
        (Payload::B(vec![1], [0; 24]), addr(2)),
        (Payload::B(vec![2], [0; 24]), addr(3)),
        (Payload::B(vec![3], [0; 24]), addr(2)),
    ]);
    assert_eq!(out.len(), 3);
    assert_eq!(out[0].packet.s, Sequence(1));
    assert_eq!(out[1].packet.s, Sequence(1));
    assert_eq!(out[2].packet.s, Sequence(2));
    assert!(out.iter().all(|t| t.not_before.is_none()));
    assert_eq!(out[1].to, addr(3));
}

#[test]
fn sequence_numbers_wrap() {
    let mut ph = PacketHandler::new(9);
    ph.start();
    ph.tx_sequences.insert(addr(2), Sequence(u32::MAX));
    let t = ph.send(Payload::B(vec![], [0; 24]), addr(2), 0).unwrap();
    assert_eq!(t.packet.s, Sequence(0));
}

#[test]
fn encrypted_message_round_trip() {
    let (mut a, mut b) = pair();
    let out = a.encrypt_and_send_messages(&vec![2, 3], 77, b"hello");
    // only the target with keys gets a packet
    assert_eq!(out.len(), 1);
    assert_eq!(out[0].to, addr(2));
    assert!(a.seen.contains(&77));
    let packet = out.into_iter().next().unwrap().packet;
    assert_eq!(packet.id, 1);
    match &packet.p {
        Payload::B(boxed, _) => {
            // a 16-byte tag, then the ciphertext
            assert_eq!(boxed.len(), 16 + 5);
            assert_ne!(&boxed[16..], b"hello");
        }
        _ => panic!("expected an encrypted payload"),
    }
    let actions = b.recv(packet, addr(1));
    assert_eq!(actions.len(), 1);
    match &actions[0] {
        PacketAction::Opened { plaintext, from, packet_id, nak } => {
            assert_eq!(plaintext, &b"hello".to_vec());
            assert_eq!(*from, addr(1));
            assert_eq!(*packet_id, 1);
            assert_eq!(*nak, None);
        }
        other => panic!("unexpected {:?}", other),
    }
    // the next packet in sequence reports nothing missed
    let packet = a.encrypt_and_send_message(2, 78, b"again").into_iter().next().unwrap().packet;
    assert_eq!(packet.s, Sequence(2));
    match &b.recv(packet, addr(1))[0] {
        PacketAction::Opened { nak, .. } => assert_eq!(*nak, None),
        other => panic!("unexpected {:?}", other),
    }
    // a packet after a gap reports the skipped range
    a.tx_sequences.insert(addr(2), Sequence(4));
    let packet = a.encrypt_and_send_message(2, 79, b"later").into_iter().next().unwrap().packet;
    assert_eq!(packet.s, Sequence(5));
    match &b.recv(packet, addr(1))[0] {
        PacketAction::Opened { nak, .. } => assert_eq!(*nak, Some(SeqRange { start: 3, end: 5 })),
        other => panic!("unexpected {:?}", other),
    }
    // a late packet (behind the last one) and a repeated one report nothing
    for s in [3u32, 3] {
        a.tx_sequences.insert(addr(2), Sequence(s - 1));
        let packet = a.encrypt_and_send_message(2, 80 + s as u128, b"late").into_iter().next().unwrap().packet;
        assert_eq!(packet.s, Sequence(s));
        match &b.recv(packet, addr(1))[0] {
            PacketAction::Opened { nak, .. } => assert_eq!(*nak, None),
            other => panic!("unexpected {:?}", other),
        }
    }
    // numbering that wraps around is still in order
    b.rx_sequences.insert(addr(1), Sequence(u32::MAX));
    a.tx_sequences.insert(addr(2), Sequence(u32::MAX));
    let packet = a.encrypt_and_send_message(2, 90, b"wrap").into_iter().next().unwrap().packet;
    assert_eq!(packet.s, Sequence(0));
    match &b.recv(packet, addr(1))[0] {
        PacketAction::Opened { nak, .. } => assert_eq!(*nak, None),
        other => panic!("unexpected {:?}", other),
    }
}

#[test]
fn tampered_or_unkeyed_boxes_are_dropped() {
    let (mut a, mut b) = pair();
    let packet = a.encrypt_and_send_message(2, 5, b"data").into_iter().next().unwrap().packet;
    let tampered = match packet.p {
        Payload::B(mut c, n) => {
            c[0] ^= 1;
            Packet { s: packet.s, id: packet.id, p: Payload::B(c, n) }
        }
        _ => unreachable!(),
    };
    assert!(b.recv(tampered, addr(1)).is_empty());
    let unknown = Packet { s: Sequence(1), id: 42, p: Payload::B(vec![0; 40], [0; 24]) };
    assert!(b.recv(unknown, addr(4)).is_empty());
    assert_eq!(b.rx_sequences.get(&addr(4)), Some(&Sequence(1)));
}

#[test]
fn handshake_packets_go_to_the_handshaker() {
    let mut ph = PacketHandler::new(1);
    let p = Packet { s: Sequence(4), id: 8, p: Payload::H(Handshake { id: 3, step: HandshakeStep::GoTeam }) };
    let actions = ph.recv(p, addr(2));
    assert_eq!(actions.len(), 1);
    assert!(matches!(
        &actions[0],
        PacketAction::Handshake { from, handshake, id: 8 } if *from == addr(2) && handshake.id == 3
    ));
}

#[test]
fn broadcast_is_delivered_and_forwarded_once() {
    let mut ph = PacketHandler::new(1);
    ph.set_broadcast_handler(true);
    ph.subscribers = vec![5, 6];
    let msg = || Message { id: 77, body: Body::Broadcast(b"x".to_vec()) };
    let actions = ph.recv_message(msg(), addr(2), 2, None);
    assert_eq!(actions.len(), 2);
    assert!(matches!(&actions[0], PacketAction::Deliver(d) if d == b"x"));
    match &actions[1] {
        PacketAction::SendMessage { targets, message } => {
            assert_eq!(targets, &vec![5, 6]);
            assert_eq!(message.id, 77);
            assert!(matches!(&message.body, Body::Broadcast(d) if d == b"x"));
        }
        other => panic!("unexpected {:?}", other),
    }
    assert!(ph.seen.contains(&77));
    // the same message again is dropped, but a missed range is still reported
    let actions = ph.recv_message(msg(), addr(2), 2, Some(SeqRange { start: 1, end: 3 }));
    assert_eq!(actions.len(), 1);
    match &actions[0] {
        PacketAction::SendMessage { targets, message } => {
            assert_eq!(targets, &vec![2]);
            assert!(matches!(message.body, Body::Nak(SeqRange { start: 1, end: 3 })));
        }
        other => panic!("unexpected {:?}", other),
    }
}

#[test]
fn broadcast_without_handler_is_only_forwarded() {
    let mut ph = PacketHandler::new(1);
    let actions = ph.recv_message(Message { id: 1, body: Body::Broadcast(vec![]) }, addr(2), 2, None);
    assert_eq!(actions.len(), 1);
    assert!(matches!(actions[0], PacketAction::SendMessage { .. }));
}

#[test]
fn peer_requests_go_to_subscribers_and_membership() {
    let mut ph = PacketHandler::new(1);
    ph.subscribers = vec![5];
    let m = Message { id: 3, body: Body::PeerRequest(Box::new(PeerRequest::Heartbeat)) };
    let actions = ph.recv_message(m, addr(2), 9, None);
    assert_eq!(actions.len(), 2);
    assert!(matches!(&actions[1], PacketAction::PeerRequest { from_id: 9, request } if matches!(**request, PeerRequest::Heartbeat)));
}

#[test]
fn loss_reports_stretch_pacing() {
    let mut ph = PacketHandler::new(1);
    let nak = |id| Message { id, body: Body::Nak(SeqRange { start: 3, end: 7 }) };
    ph.recv_message(nak(1), addr(2), 2, None);
    assert_eq!(ph.nak_count.get(&addr(2)), Some(&4));
    assert_eq!(ph.tx_delay.get(&addr(2)), Some(&RC_DEFAULT_PACKET_INTERVAL_NANOS));
    ph.recv_message(nak(2), addr(2), 2, None);
    assert_eq!(ph.nak_count.get(&addr(2)), Some(&8));
    let d = *ph.tx_delay.get(&addr(2)).unwrap();
    assert!(2 * RC_DEFAULT_PACKET_INTERVAL_NANOS <= d && d <= 8 * RC_DEFAULT_PACKET_INTERVAL_NANOS);
}

#[test]
fn rate_control_eases_low_loss_addresses() {
    let mut ph = PacketHandler::new(1);
    ph.start();
    for t in 0..3u64 {
        ph.send(Payload::B(vec![], [0; 24]), addr(2), t);
        ph.send(Payload::B(vec![], [0; 24]), addr(3), t);
    }
    ph.nak_count.insert(addr(3), 1);
    ph.update_rate_control();
    assert_eq!(ph.tx_delay.get(&addr(2)), Some(&RC_DEFAULT_PACKET_INTERVAL_NANOS));
    assert_eq!(ph.tx_delay.get(&addr(3)), None);
    // a new interval starts: marks at the numbers sent, no losses counted
    assert_eq!(ph.rc_sequences.get(&addr(3)), Some(&Sequence(3)));
    assert_eq!(ph.nak_count.len(), 0);
    // one packet and one loss in this interval: too lossy for addr(3)
    ph.send(Payload::B(vec![], [0; 24]), addr(3), 10);
    ph.nak_count.insert(addr(3), 1);
    ph.handle_message(PacketHandlerMessage::RateControl);
    assert_eq!(ph.tx_delay.get(&addr(2)), Some(&(RC_DEFAULT_PACKET_INTERVAL_NANOS - 100)));
    assert_eq!(ph.tx_delay.get(&addr(3)), None);
    // nothing sent and nothing lost in this interval: addr(3) eases
    ph.update_rate_control();
    assert_eq!(ph.tx_delay.get(&addr(3)), Some(&RC_DEFAULT_PACKET_INTERVAL_NANOS));
    ph.tx_delay.insert(addr(2), 50);
    ph.update_rate_control();
    assert_eq!(ph.tx_delay.get(&addr(2)), Some(&0));
}

#[test]
fn broadcasts_and_status_go_to_subscribers() {
    let mut ph = PacketHandler::new(1);
    ph.handle_message(PacketHandlerMessage::SubscribersUpdated(vec![4, 5]));
    let actions = ph.handle_message(PacketHandlerMessage::SendBroadcast(b"hi".to_vec()));
    match &actions[0] {
        PacketAction::SendMessage { targets, message } => {
            assert_eq!(targets, &vec![4, 5]);
            assert_eq!((message.id >> 76) & 0xf, 4);
        }
        other => panic!("unexpected {:?}", other),
    }
}

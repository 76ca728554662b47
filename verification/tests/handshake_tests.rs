use gwyh::handshake::{
    check_response, compute_response, Handshake, HandshakeAction, HandshakeStep, Handshaker, Hmac,
    Stage, TIMESTAMP_WINDOW_NANOS,
};
use gwyh::nodeinfo::NodeInfo;
use gwyh::peer::SockAddr;
use gwyh::DistributionStrategy;

fn info(keys: &[&str]) -> NodeInfo {
    NodeInfo::new(
        "127.0.0.1:0".to_string(),
        keys.iter().map(|k| k.to_string()).collect(),
        vec!["127.0.0.1:1".to_string()],
        5,
        Some("zone".to_string()),
        DistributionStrategy::Uniform,
    )
}

fn addr(port: u16) -> SockAddr {
    SockAddr { ip: 0x7f00_0001, port, is_v6: false }
}

fn sent(action: HandshakeAction<u32>) -> Handshake {
    match action {
        HandshakeAction::Send { handshake, .. } => handshake,
        other => panic!("expected a send, got {:?}", other),
    }
}

#[test]
fn hmac_validates_for_its_key_only() {
    let key = [7u8; 64];
    let other = [8u8; 64];
    let h = Hmac::new(&key, 1_000, 100);
    assert_eq!(h.message.len(), 100);
    assert!(h.valid_for_key(1_000, &key));
    assert!(!h.valid_for_key(1_001, &key));
    assert!(!h.valid_for_key(1_000, &other));
}

#[test]
fn timestamp_window() {
    assert!(Hmac::is_valid_timestamp_for(0, 0));
    assert!(Hmac::is_valid_timestamp_for(0, TIMESTAMP_WINDOW_NANOS - 1));
    assert!(!Hmac::is_valid_timestamp_for(0, TIMESTAMP_WINDOW_NANOS));
    assert!(!Hmac::is_valid_timestamp_for(TIMESTAMP_WINDOW_NANOS, 0));
    assert!(Hmac::is_valid_timestamp_for(1, 0));
    // the window is the 60-second handshake timeout
    assert_eq!(TIMESTAMP_WINDOW_NANOS, 60_000_000_000);
    assert!(Hmac::is_valid_timestamp_for(0, 1_000_000_000));
    assert!(Hmac::is_valid_timestamp_for(59_000_000_000, 0));
    assert!(!Hmac::is_valid_timestamp_for(0, 61_000_000_000));
    assert!(!Hmac::is_valid_timestamp_for(i64::MIN, 0));
    assert!(!Hmac::is_valid_timestamp_for(i64::MAX, i64::MIN));
}

#[test]
fn responses_for_shared_keys_are_accepted() {
    let pk = [3u8; 32];
    let challenge = vec![9u8; 69];
    let keys = vec!["one".to_string(), "two".to_string()];
    let r = compute_response(42, &pk, &challenge, &keys);
    assert_eq!(r.len(), 2);
    assert_eq!(r[0].len(), 64);
    assert_ne!(r[0], r[1]);
    assert!(check_response(42, &pk, &challenge, &r, &vec!["two".to_string()]));
    assert!(!check_response(42, &pk, &challenge, &r, &vec!["three".to_string()]));
    assert!(!check_response(43, &pk, &challenge, &r, &keys));
}

#[test]
fn bootstrap_greets_configured_peers() {
    let i = info(&["k"]);
    let mut h: Handshaker<u32> = Handshaker::new(&i);
    let actions = h.bootstrap();
    assert_eq!(actions.len(), 1);
    match &actions[0] {
        HandshakeAction::Greet { peers, delay_millis } => {
            assert_eq!(peers, &vec!["127.0.0.1:1".to_string()]);
            assert!((10..150).contains(delay_millis));
        }
        other => panic!("unexpected {:?}", other),
    }
    assert_eq!(h.hashed_keys.as_ref().map(|k| k.len()), Some(1));
}

#[test]
fn full_handshake_between_two_nodes() {
    let ai = info(&["shared", "a-only"]);
    let bi = info(&["b-only", "shared"]);
    let mut a: Handshaker<u32> = Handshaker::new(&ai);
    let mut b: Handshaker<u32> = Handshaker::new(&bi);
    a.bootstrap();
    b.bootstrap();
    let now = 1_700_000_000_000_000_000i64;

    let mut hello = a.send_hello(addr(2), Some(99), now);
    assert_eq!(hello.len(), 2);
    assert!(matches!(hello[0], HandshakeAction::StartTimer(Stage::Hello, _)));
    let hello = sent(hello.remove(1));
    let id = hello.id;

    let mut ohai = b.handle_handshake(addr(1), hello, ai.id(), now + 10);
    assert_eq!(ohai.len(), 2);
    assert!(matches!(ohai[0], HandshakeAction::StartTimer(Stage::Ohai, _)));
    let ohai = sent(ohai.remove(1));
    assert_eq!(ohai.id, id);
    assert!(matches!(ohai.step, HandshakeStep::Ohai { .. }));

    let mut okboss = a.handle_handshake(addr(2), ohai, bi.id(), now + 20);
    assert_eq!(okboss.len(), 2);
    assert!(matches!(okboss[0], HandshakeAction::StopTimer(Stage::Hello, _)));
    let okboss = sent(okboss.remove(1));

    let goteam = b.handle_handshake(addr(1), okboss, ai.id(), now + 30);
    assert_eq!(goteam.len(), 3);
    assert!(matches!(goteam[0], HandshakeAction::StopTimer(Stage::Ohai, _)));
    match &goteam[1] {
        HandshakeAction::PeerUp(p) => {
            assert_eq!(p.id, ai.id());
            assert!(p.is_handshaken());
        }
        other => panic!("unexpected {:?}", other),
    }
    let goteam = match goteam.into_iter().nth(2) {
        Some(HandshakeAction::Send { handshake, .. }) => handshake,
        other => panic!("unexpected {:?}", other),
    };

    let done = a.handle_handshake(addr(2), goteam, bi.id(), now + 40);
    assert_eq!(done.len(), 2);
    match &done[0] {
        HandshakeAction::PeerUp(p) => {
            assert_eq!(p.id, bi.id());
            assert!(p.is_handshaken());
        }
        other => panic!("unexpected {:?}", other),
    }
    assert!(matches!(done[1], HandshakeAction::Continue(99)));
}

#[test]
fn hello_without_shared_key_is_ignored() {
    let ai = info(&["alpha"]);
    let bi = info(&["beta"]);
    let mut a: Handshaker<u32> = Handshaker::new(&ai);
    let mut b: Handshaker<u32> = Handshaker::new(&bi);
    a.bootstrap();
    b.bootstrap();
    let now = 5_000_000_000i64;
    let mut hello = a.send_hello(addr(2), None, now);
    let hello = sent(hello.remove(1));
    let r = b.handle_handshake(addr(1), hello, ai.id(), now);
    assert!(r.is_empty());
}

#[test]
fn stale_hello_is_ignored() {
    let ai = info(&["k"]);
    let bi = info(&["k"]);
    let mut a: Handshaker<u32> = Handshaker::new(&ai);
    let mut b: Handshaker<u32> = Handshaker::new(&bi);
    a.bootstrap();
    b.bootstrap();
    let now = 5_000_000_000i64;
    let mut hello = a.send_hello(addr(2), None, now);
    let hello = sent(hello.remove(1));
    let r = b.handle_handshake(addr(1), hello, ai.id(), now + TIMESTAMP_WINDOW_NANOS);
    assert!(r.is_empty());
}

#[test]
fn dead_handshake_is_forgotten() {
    let ai = info(&["k"]);
    let mut a: Handshaker<u32> = Handshaker::new(&ai);
    a.bootstrap();
    let mut hello = a.send_hello(addr(2), None, 1);
    let id = sent(hello.remove(1)).id;
    let r = a.handle_handshake(addr(2), Handshake { id, step: HandshakeStep::Dead }, 0, 2);
    assert_eq!(r.len(), 1);
    assert!(matches!(r[0], HandshakeAction::StopTimer(Stage::Hello, _)));
    assert_eq!(a.hellos.len(), 0);
    assert_eq!(a.inflight.len(), 0);
}

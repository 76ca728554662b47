use gwyh::nodeinfo::NodeInfo;
use gwyh::peer::{KeyPair, Peer, SockAddr};
use gwyh::peer_manager::{
    PeerManager, PeerManagerAction, PeerManagerRequest, PeerManagerResponse, PeerRequest, PeerState,
    PeerStatus, REASSIGN_DELAY_HIGH_MILLIS, REASSIGN_DELAY_LOW_MILLIS,
};
use gwyh::error::Error;
use gwyh::DistributionStrategy;

fn node(subs: usize, zone: Option<&str>, strategy: DistributionStrategy) -> NodeInfo {
    NodeInfo::new(
        "127.0.0.1:0".to_string(),
        vec!["k".to_string()],
        vec![],
        subs,
        zone.map(|z| z.to_string()),
        strategy,
    )
}

fn addr(port: u16) -> SockAddr {
    SockAddr { ip: 0x7f00_0001, port, is_v6: false }
}

fn peer(id: u128, zone: Option<&str>, ts: Option<i64>, handshaken: bool) -> Peer {
    let kp = KeyPair { public_key: [1; 32], secret_key: [2; 32] };
    Peer {
        our_keypair: if handshaken { Some(kp) } else { None },
        their_public_key: if handshaken { Some([3; 32]) } else { None },
        handshake_timestamp: ts,
        sockaddr: addr(id as u16),
        id,
        zone: zone.map(|z| z.to_string()),
    }
}

fn status(p: Peer, state: PeerState) -> PeerManagerRequest {
    PeerManagerRequest::Request {
        from_id: 0,
        request: Box::new(PeerRequest::PeerStatus(PeerStatus::new(p, state))),
    }
}

#[test]
fn new_node_has_no_subscribers() {
    let mut pm = PeerManager::new(&node(5, None, DistributionStrategy::Uniform));
    let (r, actions) = pm.handle_message(PeerManagerRequest::GetSubscriberCount);
    assert_eq!(r, PeerManagerResponse::SubscriberCount(0));
    assert!(actions.is_empty());
    assert_eq!(r.into_subscriber_count().unwrap(), 0);
    assert!(matches!(
        PeerManagerResponse::Done.into_subscriber_count(),
        Err(Error::UnexpectedResponse)
    ));
}

#[test]
fn add_peer_hands_out_keys_and_schedules_reassignment() {
    let mut pm = PeerManager::new(&node(5, None, DistributionStrategy::Uniform));
    let actions = pm.add_peer(peer(10, None, Some(1), true));
    assert_eq!(actions.len(), 2);
    match &actions[0] {
        PeerManagerAction::KeysUpdated(ks) => {
            assert_eq!(ks.len(), 1);
            assert_eq!(ks[0].id, 10);
            assert_eq!(ks[0].sockaddr, addr(10));
        }
        other => panic!("unexpected {:?}", other),
    }
    match actions[1] {
        PeerManagerAction::ScheduleReassign(d) => {
            assert!(REASSIGN_DELAY_LOW_MILLIS <= d && d < REASSIGN_DELAY_HIGH_MILLIS)
        }
        ref other => panic!("unexpected {:?}", other),
    }
    // a peer that is not handshaken is known but has no keys to hand out
    let actions = pm.add_peer(peer(11, None, None, false));
    match &actions[0] {
        PeerManagerAction::KeysUpdated(ks) => assert_eq!(ks.len(), 1),
        other => panic!("unexpected {:?}", other),
    }
    assert_eq!(pm.known.len(), 2);
}

#[test]
fn last_write_wins() {
    let mut pm = PeerManager::new(&node(5, None, DistributionStrategy::Uniform));
    pm.add_peer(peer(10, Some("old"), Some(100), true));
    // older timestamp: ignored
    pm.add_peer(peer(10, Some("older"), Some(50), true));
    assert_eq!(pm.known.get(&10).unwrap().zone, Some("old".to_string()));
    // newer timestamp: replaces
    pm.add_peer(peer(10, Some("new"), Some(200), true));
    assert_eq!(pm.known.get(&10).unwrap().zone, Some("new".to_string()));
    // no timestamp and not handshaken: ignored
    pm.add_peer(peer(10, Some("none"), None, false));
    assert_eq!(pm.known.get(&10).unwrap().zone, Some("new".to_string()));
    // no timestamp but handshaken: replaces
    pm.add_peer(peer(10, Some("hs"), None, true));
    assert_eq!(pm.known.get(&10).unwrap().zone, Some("hs".to_string()));
}

#[test]
fn remove_peer_forgets_everywhere() {
    let mut pm = PeerManager::new(&node(1, None, DistributionStrategy::Uniform));
    pm.add_peer(peer(10, None, Some(1), true));
    pm.start_subscription(10);
    pm.subscription_started(10);
    assert!(pm.heartbeat_watchdogs.contains_key(&10));
    let actions = pm.handle_message(status(peer(10, None, None, false), PeerState::Down)).1;
    // subscribers as they were, disarm, keys, then a reassignment request
    match &actions[0] {
        PeerManagerAction::SubscribersUpdated(ids) => assert_eq!(ids, &vec![10u128]),
        other => panic!("unexpected {:?}", other),
    }
    assert!(matches!(actions[1], PeerManagerAction::DisarmWatchdog(10)));
    match &actions[2] {
        PeerManagerAction::KeysUpdated(ks) => assert!(ks.is_empty()),
        other => panic!("unexpected {:?}", other),
    }
    assert!(matches!(actions[3], PeerManagerAction::ScheduleReassign(_)));
    assert_eq!(actions.len(), 4);
    assert!(!pm.known.contains_key(&10));
    assert!(!pm.subscribers.contains_key(&10));
    assert!(!pm.subscribed_to.contains_key(&10));
    assert!(!pm.heartbeat_watchdogs.contains_key(&10));
}

#[test]
fn own_status_is_broadcast() {
    let info = node(5, None, DistributionStrategy::Uniform);
    let mut pm = PeerManager::new(&info);
    let req = PeerManagerRequest::Request {
        from_id: info.id(),
        request: Box::new(PeerRequest::PeerStatus(PeerStatus::new(
            peer(10, None, Some(1), true),
            PeerState::Up,
        ))),
    };
    let actions = pm.handle_message(req).1;
    assert!(matches!(actions.last(), Some(PeerManagerAction::BroadcastPeerStatus(_))));
}

#[test]
fn peer_list_only_adds_unknown_peers() {
    let mut pm = PeerManager::new(&node(5, None, DistributionStrategy::Uniform));
    pm.add_peer(peer(10, Some("kept"), Some(1), true));
    let list = vec![peer(10, Some("dropped"), Some(9), true), peer(11, None, None, false)];
    let actions = pm.update_peers(&list);
    assert_eq!(actions.len(), 1);
    assert_eq!(pm.known.get(&10).unwrap().zone, Some("kept".to_string()));
    assert!(pm.known.contains_key(&11));
    // nothing new: no reassignment
    let actions = pm.update_peers(&list);
    assert!(actions.is_empty());
}

#[test]
fn subscriptions_and_heartbeats() {
    let mut pm = PeerManager::new(&node(5, None, DistributionStrategy::Uniform));
    pm.add_peer(peer(10, None, Some(1), true));
    let actions = pm.start_subscription(10);
    assert_eq!(actions.len(), 3);
    assert!(matches!(actions[1], PeerManagerAction::StartHeartbeats));
    assert!(matches!(
        actions[2],
        PeerManagerAction::SendRequest { to: 10, request: PeerRequest::SubscriptionStarted }
    ));
    assert!(pm.heartbeat);
    // heartbeats only start once
    let actions = pm.start_subscription(10);
    assert_eq!(actions.len(), 2);
    // an unknown peer cannot subscribe
    pm.start_subscription(77);
    assert!(!pm.subscribers.contains_key(&77));
    // not subscribed to anybody: bootstrap, and a heartbeat to each subscriber
    let beats = pm.send_heartbeat();
    assert_eq!(beats.len(), 2);
    assert!(matches!(beats[0], PeerManagerAction::Bootstrap));
    assert!(matches!(
        beats[1],
        PeerManagerAction::SendRequest { to: 10, request: PeerRequest::Heartbeat }
    ));
    let (r, _) = pm.handle_message(PeerManagerRequest::GetSubscriberCount);
    assert_eq!(r, PeerManagerResponse::SubscriberCount(1));
    let actions = pm.end_subscription(10);
    assert_eq!(actions.len(), 1);
    assert!(!pm.subscribers.contains_key(&10));
}

#[test]
fn first_subscription_notifies_once() {
    let mut pm = PeerManager::new(&node(5, None, DistributionStrategy::Uniform));
    pm.add_peer(peer(10, None, Some(1), true));
    pm.handle_message(PeerManagerRequest::SetNotify);
    let req = || PeerManagerRequest::Request {
        from_id: 10,
        request: Box::new(PeerRequest::SubscriptionStarted),
    };
    let actions = pm.handle_message(req()).1;
    assert!(matches!(actions[0], PeerManagerAction::ArmWatchdog(10, _)));
    assert!(matches!(actions.last(), Some(PeerManagerAction::NotifyReady)));
    let actions = pm.handle_message(req()).1;
    assert!(!matches!(actions.last(), Some(PeerManagerAction::NotifyReady)));
    // heartbeats from a peer this node is subscribed to re-arm its watchdog
    let actions = pm
        .handle_message(PeerManagerRequest::Request { from_id: 10, request: Box::new(PeerRequest::Heartbeat) })
        .1;
    assert!(matches!(actions[0], PeerManagerAction::ArmWatchdog(10, _)));
}

#[test]
fn uniform_choice_takes_all_when_few() {
    let info = node(5, None, DistributionStrategy::Uniform);
    let mut pm = PeerManager::new(&info);
    let mut self_peer = peer(1, None, None, false);
    self_peer.id = info.id();
    pm.add_peer(self_peer);
    for id in [10u128, 11, 12] {
        pm.add_peer(peer(id, None, None, false));
    }
    assert_eq!(pm.choose_peers(), vec![10, 11, 12]);
}

#[test]
fn uniform_choice_is_bounded_and_deterministic() {
    let info = node(2, None, DistributionStrategy::Uniform);
    let mut pm = PeerManager::new(&info);
    for id in 10u128..20 {
        pm.add_peer(peer(id, None, None, false));
    }
    let c = pm.choose_peers();
    assert_eq!(c.len(), 2);
    assert_ne!(c[0], c[1]);
    assert!(c.iter().all(|x| (10..20).contains(x)));
    assert_eq!(pm.choose_peers(), c);
}

#[test]
fn hub_and_spoke_takes_one_per_remote_zone() {
    let info = node(3, Some("home"), DistributionStrategy::HubAndSpoke);
    let mut pm = PeerManager::new(&info);
    for (id, z) in [(10u128, "a"), (11, "a"), (12, "b"), (13, "home"), (14, "home"), (15, "home")] {
        pm.add_peer(peer(id, Some(z), None, false));
    }
    let c = pm.choose_peers();
    // remote zones a and b: 2 picks; 3 - 2 = 1 local pick
    assert_eq!(c.len(), 3);
    assert_eq!(c.iter().filter(|x| (13..16).contains(*x)).count(), 1);
    assert_eq!(c.iter().filter(|x| (10..12).contains(*x)).count(), 1);
    assert!(c.contains(&12));
}

#[test]
fn weighted_choices_are_bounded() {
    for strategy in [DistributionStrategy::PreferLocal, DistributionStrategy::PreferRemote] {
        let info = node(3, Some("home"), strategy);
        let mut pm = PeerManager::new(&info);
        for id in 10u128..16 {
            let z = if id % 2 == 0 { "home" } else { "away" };
            pm.add_peer(peer(id, Some(z), None, false));
        }
        let c = pm.choose_peers();
        assert_eq!(c.len(), 3);
        let mut d = c.clone();
        d.sort();
        d.dedup();
        assert_eq!(d.len(), 3);
    }
}

#[test]
fn reassignment_subscribes_and_unsubscribes() {
    let info = node(5, None, DistributionStrategy::Uniform);
    let mut pm = PeerManager::new(&info);
    pm.add_peer(peer(10, None, Some(1), true));
    pm.add_peer(peer(11, None, None, false));
    pm.subscription_started(99); // subscribed to a peer that is not a candidate
    let actions = pm.reassign_to(&vec![10, 11]);
    assert!(matches!(
        actions[0],
        PeerManagerAction::SendRequest { to: 10, request: PeerRequest::StartSubscription }
    ));
    assert!(matches!(actions[1], PeerManagerAction::GreetThenSubscribe(a, 11) if a == addr(11)));
    assert!(matches!(
        actions[2],
        PeerManagerAction::SendRequest { to: 99, request: PeerRequest::EndSubscription }
    ));
    assert_eq!(actions.len(), 3);
    assert!(!pm.subscribed_to.contains_key(&99));
    let actions = pm.handle_message(PeerManagerRequest::Reassign).1;
    assert_eq!(actions.len(), 2);
}

#[test]
fn shutdown_ends_every_subscription() {
    let mut pm = PeerManager::new(&node(5, None, DistributionStrategy::Uniform));
    pm.subscription_started(7);
    pm.subscription_started(8);
    let actions = pm.shutdown();
    assert_eq!(actions.len(), 2);
    assert!(matches!(
        actions[0],
        PeerManagerAction::SendRequest { to: 7, request: PeerRequest::EndSubscription }
    ));
    assert_eq!(pm.subscribed_to.len(), 0);
}

#[test]
fn peer_list_request_sends_known_peers() {
    let mut pm = PeerManager::new(&node(5, None, DistributionStrategy::Uniform));
    pm.add_peer(peer(10, None, None, false));
    let actions = pm
        .handle_message(PeerManagerRequest::Request { from_id: 3, request: Box::new(PeerRequest::PeerList) })
        .1;
    match &actions[0] {
        PeerManagerAction::SendRequest { to: 3, request: PeerRequest::Peers(ps) } => {
            assert_eq!(ps.len(), 1);
            assert_eq!(ps[0].id, 10);
        }
        other => panic!("unexpected {:?}", other),
    }
}

#[test]
fn hub_and_spoke_can_exceed_target() {
    let info = node(1, Some("home"), DistributionStrategy::HubAndSpoke);
    let mut pm = PeerManager::new(&info);
    for (id, z) in [(10u128, "a"), (11, "b"), (12, "c"), (13, "home")] {
        pm.add_peer(peer(id, Some(z), None, false));
    }
    let mut c = pm.choose_peers();
    c.sort();
    // three remote zones: one peer each, and no room left for a local one
    assert_eq!(c, vec![10, 11, 12]);
}

#[test]
fn hub_and_spoke_groups_zones_that_are_apart() {
    let info = node(5, Some("home"), DistributionStrategy::HubAndSpoke);
    let mut pm = PeerManager::new(&info);
    for (id, z) in [(10u128, "a"), (11, "b"), (12, "a"), (13, "home")] {
        pm.add_peer(peer(id, Some(z), None, false));
    }
    let c = pm.choose_peers();
    // zones a and b: one pick each, then the local peer
    assert_eq!(c.len(), 3);
    assert_eq!(c.iter().filter(|x| **x == 10 || **x == 12).count(), 1);
    assert!(c.contains(&11));
    assert!(c.contains(&13));
}

#[test]
fn choice_is_stable_across_managers() {
    for strategy in [
        DistributionStrategy::Uniform,
        DistributionStrategy::HubAndSpoke,
        DistributionStrategy::PreferLocal,
        DistributionStrategy::PreferRemote,
    ] {
        let info = node(2, Some("home"), strategy);
        let mut a = PeerManager::new(&info);
        let mut b = PeerManager::new(&info);
        for id in 10u128..20 {
            let z = ["home", "x", "y"][(id % 3) as usize];
            a.add_peer(peer(id, Some(z), None, false));
            b.add_peer(peer(id, Some(z), None, false));
        }
        assert_eq!(a.choose_peers(), b.choose_peers());
        assert_eq!(a.choose_peers(), a.choose_peers());
    }
}

use gwyh::{DistributionStrategy, GwyhBuilder, NoHandler};

#[test]
fn builder_defaults() {
    let b = GwyhBuilder::new();
    assert_eq!(b.bind_addr, "127.0.0.1:6969");
    assert_eq!(b.keys, vec!["insecure".to_string()]);
    assert!(b.peers.is_empty());
    assert_eq!(b.peer_subscriptions, 5);
    assert!(b.broadcast_handler.is_none());
    assert!(b.zone.is_none());
    assert_eq!(b.distribution_strategy, DistributionStrategy::Uniform);
}

#[test]
fn builder_default_matches_new() {
    let a: GwyhBuilder<NoHandler> = Default::default();
    let b = GwyhBuilder::new();
    assert_eq!(a.bind_addr, b.bind_addr);
    assert_eq!(a.keys, b.keys);
    assert_eq!(a.peer_subscriptions, b.peer_subscriptions);
    assert_eq!(a.distribution_strategy, b.distribution_strategy);
}

#[test]
fn builder_setters() {
    let b = GwyhBuilder::new()
        .with_bind_addr("0.0.0.0:42069")
        .with_keys(vec!["a".into(), "b".into()])
        .with_peers(vec!["127.0.0.1:42169".into()])
        .with_zone("us-east")
        .with_distribution_strategy(DistributionStrategy::HubAndSpoke)
        .with_handler(7u32);
    assert_eq!(b.bind_addr, "0.0.0.0:42069");
    assert_eq!(b.keys, vec!["a".to_string(), "b".to_string()]);
    assert_eq!(b.peers, vec!["127.0.0.1:42169".to_string()]);
    assert_eq!(b.zone, Some("us-east".to_string()));
    assert_eq!(b.distribution_strategy, DistributionStrategy::HubAndSpoke);
    assert_eq!(b.broadcast_handler, Some(7u32));
    assert_eq!(b.peer_subscriptions, 5);
}

#[test]
fn build_gives_settings_and_fresh_v4_id() {
    let (info, handler) = GwyhBuilder::new()
        .with_bind_addr("0.0.0.0:1")
        .with_zone("z")
        .with_handler("h")
        .build();
    assert_eq!(info.bind_addr(), "0.0.0.0:1");
    assert_eq!(info.zone(), &Some("z".to_string()));
    assert_eq!(info.keys(), &vec!["insecure".to_string()]);
    assert_eq!(info.peer_subscriptions(), 5);
    assert_eq!(info.distribution_strategy(), DistributionStrategy::Uniform);
    assert_eq!((info.id() >> 76) & 0xf, 4);
    assert_eq!((info.id() >> 62) & 0x3, 2);
    assert_eq!(handler, Some("h"));
    let (other, _) = GwyhBuilder::new().build();
    assert_ne!(info.id(), other.id());
}

#[test]
fn test_builder() {
    let (info, handler) = GwyhBuilder::new().build();
    assert!(handler.is_none());
    assert_eq!(info.bind_addr(), "127.0.0.1:6969");
    assert_eq!(info.peers(), &Vec::<String>::new());
}

//! Gossip networking core: sequence numbers, peer tables, handshakes,
//! peer selection and packet bookkeeping, each as a verified state machine.
pub mod bytes;
pub mod error;
pub mod handshake;
pub mod message;
pub mod nodeinfo;
pub mod outside;
pub mod packet;
pub mod packet_handler;
pub mod peer;
pub mod peer_manager;
pub mod sequence;
pub mod table;

use vstd::prelude::*;

verus! {

/// A distribution strategy defines how peers are selected according to the
/// zone they are in. The default value is `DistributionStrategy::Uniform`.
#[derive(Debug, Clone, Copy, PartialEq, Eq, Structural)]
pub enum DistributionStrategy {
    /// Peers are chosen randomly, with no consideration for which zone a peer
    /// is in.
    Uniform,
    /// One peer is chosen from each zone outside this node's zone, and
    /// the remaining peers are chosen randomly from the same zone as this node.
    /// With HubAndSpoke, you can end up with more peers than the target number
    /// of peers if the number of zones is more than the target peer count + 1.
    HubAndSpoke,
    /// Peers from the same zone as this node are twice as likely to be selected
    /// as peers from other zones.
    PreferLocal,
    /// Peers from other zones are twice as likely to be selected as peers from
    /// the same zone as this node.
    PreferRemote,
}

/// The builder's marker for "no broadcast handler configured".
#[derive(Debug, Clone, Copy)]
pub struct NoHandler;

/// Collects the settings of a node before it is started.
pub struct GwyhBuilder<H> {
    pub bind_addr: String,
    pub keys: Vec<String>,
    pub peers: Vec<String>,
    pub peer_subscriptions: usize,
    pub broadcast_handler: Option<H>,
    pub zone: Option<String>,
    pub distribution_strategy: DistributionStrategy,
}

impl GwyhBuilder<NoHandler> {
    /// The default settings: bind to 127.0.0.1:6969, the single key
    /// "insecure", no peers, five peer subscriptions, no handler, no zone and
    /// the uniform distribution strategy.
    pub fn new() -> (r: Self)
        ensures
            r.bind_addr@ == "127.0.0.1:6969"@,
            r.keys@.len() == 1,
            r.keys@[0]@ == "insecure"@,
            r.peers@.len() == 0,
            r.peer_subscriptions == 5,
            r.broadcast_handler is None,
            r.zone is None,
            r.distribution_strategy == DistributionStrategy::Uniform,
    {
        let mut keys: Vec<String> = Vec::new();
        keys.push("insecure".to_owned());
        GwyhBuilder {
            bind_addr: "127.0.0.1:6969".to_owned(),
            keys,
            peers: Vec::new(),
            peer_subscriptions: 5,
            broadcast_handler: None,
            zone: None,
            distribution_strategy: DistributionStrategy::Uniform,
        }
    }
}

impl<H> GwyhBuilder<H> {
    /// Replaces the address the node binds its socket to.
    pub fn with_bind_addr(self, bind_addr: &str) -> (r: Self)
        ensures
            r.bind_addr@ == bind_addr@,
            r.keys == self.keys,
            r.peers == self.peers,
            r.peer_subscriptions == self.peer_subscriptions,
            r.broadcast_handler == self.broadcast_handler,
            r.zone == self.zone,
            r.distribution_strategy == self.distribution_strategy,
    {
        GwyhBuilder { bind_addr: bind_addr.to_owned(), ..self }
    }

    /// Replaces the pre-shared keys used to authenticate handshakes.
    pub fn with_keys(self, keys: Vec<String>) -> (r: Self)
        ensures
            r.bind_addr == self.bind_addr,
            r.keys == keys,
            r.peers == self.peers,
            r.peer_subscriptions == self.peer_subscriptions,
            r.broadcast_handler == self.broadcast_handler,
            r.zone == self.zone,
            r.distribution_strategy == self.distribution_strategy,
    {
        GwyhBuilder { keys, ..self }
    }

    /// Replaces the addresses contacted when the node bootstraps.
    pub fn with_peers(self, peers: Vec<String>) -> (r: Self)
        ensures
            r.bind_addr == self.bind_addr,
            r.keys == self.keys,
            r.peers == peers,
            r.peer_subscriptions == self.peer_subscriptions,
            r.broadcast_handler == self.broadcast_handler,
            r.zone == self.zone,
            r.distribution_strategy == self.distribution_strategy,
    {
        GwyhBuilder { peers, ..self }
    }

    /// Sets the zone this node lives in.
    pub fn with_zone(self, zone: &str) -> (r: Self)
        ensures
            r.bind_addr == self.bind_addr,
            r.keys == self.keys,
            r.peers == self.peers,
            r.peer_subscriptions == self.peer_subscriptions,
            r.broadcast_handler == self.broadcast_handler,
            r.zone matches Some(z) && z@ == zone@,
            r.distribution_strategy == self.distribution_strategy,
    {
        GwyhBuilder { zone: Some(zone.to_owned()), ..self }
    }

    /// Replaces the peer distribution strategy.
    pub fn with_distribution_strategy(self, distribution_strategy: DistributionStrategy) -> (r:
        Self)
        ensures
            r.bind_addr == self.bind_addr,
            r.keys == self.keys,
            r.peers == self.peers,
            r.peer_subscriptions == self.peer_subscriptions,
            r.broadcast_handler == self.broadcast_handler,
            r.zone == self.zone,
            r.distribution_strategy == distribution_strategy,
    {
        GwyhBuilder { distribution_strategy, ..self }
    }

    /// Installs the handler that receives every broadcast this node is sent.
    pub fn with_handler<B>(self, broadcast_handler: B) -> (r: GwyhBuilder<B>)
        ensures
            r.bind_addr == self.bind_addr,
            r.keys == self.keys,
            r.peers == self.peers,
            r.peer_subscriptions == self.peer_subscriptions,
            r.broadcast_handler == Some(broadcast_handler),
            r.zone == self.zone,
            r.distribution_strategy == self.distribution_strategy,
    {
        GwyhBuilder {
            bind_addr: self.bind_addr,
            keys: self.keys,
            peers: self.peers,
            peer_subscriptions: self.peer_subscriptions,
            broadcast_handler: Some(broadcast_handler),
            zone: self.zone,
            distribution_strategy: self.distribution_strategy,
        }
    }
}

impl<H> GwyhBuilder<H> {
    /// The node's settings, with a fresh random (version 4) id, and the
    /// handler.
    pub fn build(self) -> (r: (nodeinfo::NodeInfo, Option<H>))
        ensures
            r.0.bind_addr == self.bind_addr,
            r.0.keys == self.keys,
            r.0.peers == self.peers,
            (r.0.id >> 76u128) & 0xfu128 == 4u128,
            r.0.peer_subscriptions == self.peer_subscriptions,
            r.0.zone == self.zone,
            r.0.distribution_strategy == self.distribution_strategy,
            r.1 == self.broadcast_handler,
    {
        let nodeinfo = nodeinfo::NodeInfo::new(
            self.bind_addr,
            self.keys,
            self.peers,
            self.peer_subscriptions,
            self.zone,
            self.distribution_strategy,
        );
        (nodeinfo, self.broadcast_handler)
    }
}

impl Default for GwyhBuilder<NoHandler> {
    /// The same settings as `GwyhBuilder::new`.
    fn default() -> (r: Self)
        ensures
            r.bind_addr@ == "127.0.0.1:6969"@,
            r.keys@.len() == 1,
            r.keys@[0]@ == "insecure"@,
            r.peers@.len() == 0,
            r.peer_subscriptions == 5,
            r.broadcast_handler is None,
            r.zone is None,
            r.distribution_strategy == DistributionStrategy::Uniform,
    {
        Self::new()
    }
}

} // verus!

//! The settings and identity of the local node.
use vstd::prelude::*;
use crate::DistributionStrategy;
use crate::outside::new_uuid;

verus! {

/// What a node knows about itself.
#[derive(Debug)]
pub struct NodeInfo {
    pub bind_addr: String,
    pub keys: Vec<String>,
    pub peers: Vec<String>,
    pub id: u128,
    pub peer_subscriptions: usize,
    pub zone: Option<String>,
    pub distribution_strategy: DistributionStrategy,
}

impl NodeInfo {
    /// The node's settings, with a fresh random (version 4) id.
    pub fn new(
        bind_addr: String,
        keys: Vec<String>,
        peers: Vec<String>,
        peer_subscriptions: usize,
        zone: Option<String>,
        distribution_strategy: DistributionStrategy,
    ) -> (r: Self)
        ensures
            r.bind_addr == bind_addr,
            r.keys == keys,
            r.peers == peers,
            (r.id >> 76u128) & 0xfu128 == 4u128,
            r.peer_subscriptions == peer_subscriptions,
            r.zone == zone,
            r.distribution_strategy == distribution_strategy,
    {
        NodeInfo {
            bind_addr,
            keys,
            peers,
            id: new_uuid(),
            peer_subscriptions,
            zone,
            distribution_strategy,
        }
    }

    pub fn bind_addr(&self) -> (r: &str)
        ensures
            r@ == self.bind_addr@,
    {
        self.bind_addr.as_str()
    }

    pub fn keys(&self) -> (r: &Vec<String>)
        ensures
            *r == self.keys,
    {
        &self.keys
    }

    pub fn peers(&self) -> (r: &Vec<String>)
        ensures
            *r == self.peers,
    {
        &self.peers
    }

    pub fn id(&self) -> (r: u128)
        ensures
            r == self.id,
    {
        self.id
    }

    pub fn peer_subscriptions(&self) -> (r: usize)
        ensures
            r == self.peer_subscriptions,
    {
        self.peer_subscriptions
    }

    pub fn zone(&self) -> (r: &Option<String>)
        ensures
            *r == self.zone,
    {
        &self.zone
    }

    pub fn distribution_strategy(&self) -> (r: DistributionStrategy)
        ensures
            r == self.distribution_strategy,
    {
        self.distribution_strategy
    }
}

} // verus!

//! The messages nodes exchange inside encrypted packets.
use vstd::prelude::*;
use crate::peer_manager::PeerRequest;
use crate::outside::new_uuid;

verus! {

/// A message, identified by a random id that lets receivers drop repeats.
#[derive(Debug)]
pub struct Message {
    pub id: u128,
    pub body: Body,
}

/// One piece of a message that spans several packets.
#[derive(Debug, PartialEq, Eq)]
pub struct Frame {
    pub len: usize,
    pub idx: usize,
    pub data: Vec<u8>,
}

/// A range of packet sequence numbers that was not received.
#[derive(Debug, Clone, Copy, PartialEq, Eq, Structural)]
pub struct SeqRange {
    pub start: u32,
    pub end: u32,
}

/// What a message carries.
#[derive(Debug)]
pub enum Body {
    Broadcast(Vec<u8>),
    PeerRequest(Box<PeerRequest>),
    Frame(Frame),
    Nak(SeqRange),
}

impl Message {
    /// A message carrying `body` under a fresh random (version 4) id.
    pub fn with_fresh_id(body: Body) -> (r: Self)
        ensures
            r.body == body,
            (r.id >> 76u128) & 0xfu128 == 4u128,
    {
        Message { id: new_uuid(), body }
    }
}

} // verus!

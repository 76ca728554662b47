//! What travels in one UDP datagram.
use vstd::prelude::*;
use crate::handshake::Handshake;
use crate::sequence::Seq32;

verus! {

/// The contents of a packet.
#[derive(Debug)]
pub enum Payload {
    /// A handshake step, unencrypted.
    H(Handshake),
    /// An encrypted message: the box (tag followed by ciphertext) and the
    /// nonce it was sealed with.
    B(Vec<u8>, [u8; 24]),
}

/// A packet: the sender's per-destination sequence number, the sender's id
/// and the payload.
#[derive(Debug)]
pub struct Packet {
    pub s: Seq32,
    pub id: u128,
    pub p: Payload,
}

} // verus!

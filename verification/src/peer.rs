//! Peers: addresses, key material and what the handshake learned about them.
use vstd::prelude::*;
use crate::table::KeyEq;
use crate::outside::{generate_keypair, x25519_public};

verus! {

/// A UDP endpoint. IPv4 addresses are held in the low 32 bits of `ip`.
#[derive(Debug, Clone, Copy, PartialEq, Eq, Structural)]
pub struct SockAddr {
    pub ip: u128,
    pub port: u16,
    pub is_v6: bool,
}

impl KeyEq for SockAddr {
    fn key_eq(&self, other: &Self) -> (r: bool) {
        self.ip == other.ip && self.port == other.port && self.is_v6 == other.is_v6
    }
}

/// A curve25519 key pair for public-key authenticated encryption.
#[derive(Debug, Clone, Copy)]
pub struct KeyPair {
    pub public_key: [u8; 32],
    pub secret_key: [u8; 32],
}

/// The public key of `kp` is the one its secret key gives.
pub open spec fn valid_keypair(kp: KeyPair) -> bool {
    kp.public_key@ == x25519_public(kp.secret_key@)
}

/// Two zone settings are the same zone.
pub open spec fn same_zone(a: Option<String>, b: Option<String>) -> bool {
    match (a, b) {
        (Some(x), Some(y)) => x@ == y@,
        (None, None) => true,
        _ => false,
    }
}

/// Compares two zone settings.
pub fn zone_eq(a: &Option<String>, b: &Option<String>) -> (r: bool)
    ensures
        r == same_zone(*a, *b),
{
    match (a, b) {
        (Some(x), Some(y)) => x.eq(y),
        (None, None) => true,
        _ => false,
    }
}

/// Copies a zone setting.
pub fn clone_zone(z: &Option<String>) -> (r: Option<String>)
    ensures
        r == *z,
{
    match z {
        Some(s) => Some(s.clone()),
        None => None,
    }
}

/// Copies a list of strings.
pub fn clone_strings(v: &Vec<String>) -> (r: Vec<String>)
    ensures
        r@ == v@,
{
    let r = v.clone();
    assert(r@ =~= v@);
    r
}

/// The keys for exchanging encrypted messages with one peer.
#[derive(Debug, Clone, Copy)]
pub struct PeerKeys {
    pub id: u128,
    pub sockaddr: SockAddr,
    pub keypair: KeyPair,
    pub their_public_key: [u8; 32],
}

/// A node this node knows of, with the keys a completed handshake gave it.
#[derive(Debug)]
pub struct Peer {
    pub our_keypair: Option<KeyPair>,
    pub their_public_key: Option<[u8; 32]>,
    pub handshake_timestamp: Option<i64>,
    pub sockaddr: SockAddr,
    pub id: u128,
    pub zone: Option<String>,
}

impl Clone for Peer {
    fn clone(&self) -> (r: Self)
        ensures
            r == *self,
    {
        Peer {
            our_keypair: self.our_keypair,
            their_public_key: self.their_public_key,
            handshake_timestamp: self.handshake_timestamp,
            sockaddr: self.sockaddr,
            id: self.id,
            zone: clone_zone(&self.zone),
        }
    }
}

impl Peer {
    /// Whether both sides' keys are known.
    pub open spec fn spec_is_handshaken(&self) -> bool {
        self.our_keypair is Some && self.their_public_key is Some
    }

    /// A peer with a freshly generated key pair of our own.
    pub fn new(
        their_public_key: Option<[u8; 32]>,
        sockaddr: SockAddr,
        id: u128,
        handshake_timestamp: Option<i64>,
        zone: Option<String>,
    ) -> (r: Self)
        ensures
            r.our_keypair matches Some(kp) && valid_keypair(kp),
            r.their_public_key == their_public_key,
            r.sockaddr == sockaddr,
            r.id == id,
            r.handshake_timestamp == handshake_timestamp,
            r.zone == zone,
    {
        Peer {
            our_keypair: Some(generate_keypair()),
            their_public_key,
            sockaddr,
            id,
            handshake_timestamp,
            zone,
        }
    }

    pub fn is_handshaken(&self) -> (r: bool)
        ensures
            r == self.spec_is_handshaken(),
    {
        self.our_keypair.is_some() && self.their_public_key.is_some()
    }

    pub fn our_keypair(&self) -> (r: Option<KeyPair>)
        ensures
            r == self.our_keypair,
    {
        self.our_keypair
    }

    pub fn their_public_key(&self) -> (r: Option<[u8; 32]>)
        ensures
            r == self.their_public_key,
    {
        self.their_public_key
    }

    pub fn set_their_public_key(&mut self, public_key: [u8; 32])
        ensures
            *final(self) == (Peer { their_public_key: Some(public_key), ..*old(self) }),
    {
        self.their_public_key = Some(public_key);
    }

    pub fn id(&self) -> (r: u128)
        ensures
            r == self.id,
    {
        self.id
    }

    pub fn set_id(&mut self, id: u128)
        ensures
            *final(self) == (Peer { id, ..*old(self) }),
    {
        self.id = id;
    }

    pub fn sockaddr(&self) -> (r: SockAddr)
        ensures
            r == self.sockaddr,
    {
        self.sockaddr
    }

    pub fn handshake_timestamp(&self) -> (r: Option<i64>)
        ensures
            r == self.handshake_timestamp,
    {
        self.handshake_timestamp
    }

    pub fn set_zone(&mut self, zone: Option<String>)
        ensures
            *final(self) == (Peer { zone, ..*old(self) }),
    {
        self.zone = zone;
    }

    pub fn zone(&self) -> (r: &Option<String>)
        ensures
            *r == self.zone,
    {
        &self.zone
    }
}

} // verus!

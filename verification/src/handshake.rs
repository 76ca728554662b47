//! The four-step handshake that authenticates two nodes by their pre-shared
//! keys and exchanges the public keys that later encrypt their messages.
use vstd::prelude::*;
use crate::bytes::{append_bytes, bytes_eq, copy_bytes, decimal_bytes, decimal_i64};
use crate::outside::{blake2b_512, generic_hash, random_bytes};

verus! {

pub const HANDSHAKE_TIMEOUT_MILLIS: u64 = 60_000;

pub const HANDSHAKE_BOOTSTRAP_DELAY_MILLIS_MIN: u64 = 10;

pub const HANDSHAKE_BOOTSTRAP_DELAY_MILLIS_MAX: u64 = 150;

/// Bounds of the random length of the message an HMAC is computed over.
pub const HMAC_MESSAGE_LEN_MIN: u64 = 69;

pub const HMAC_MESSAGE_LEN_MAX: u64 = 420;

/// Length of the random challenge a responder sends.
pub const CHALLENGE_LEN: usize = 69;

/// The window, in nanoseconds, within which a hello's timestamp is accepted
/// on either side of now: the handshake timeout, `HANDSHAKE_TIMEOUT_MILLIS`
/// milliseconds.
pub const TIMESTAMP_WINDOW_NANOS: i64 = 60_000_000_000;

/// A message together with its HMAC under one of the hashed pre-shared keys.
#[derive(Debug)]
pub struct Hmac {
    pub hmac: [u8; 64],
    pub message: Vec<u8>,
}

/// The HMAC of `message` at `timestamp` under `hashed_key`: BLAKE2b keyed
/// with the hashed key, over the message followed by the decimal text of the
/// timestamp in nanoseconds.
pub open spec fn hmac_of(hashed_key: Seq<u8>, message: Seq<u8>, timestamp: i64) -> Seq<u8> {
    blake2b_512(Some(hashed_key), message + decimal_i64(timestamp))
}

/// A timestamp is accepted when it lies strictly within the handshake
/// window on either side of `now`.
pub open spec fn timestamp_in_window(timestamp: i64, now: i64) -> bool {
    -TIMESTAMP_WINDOW_NANOS < now - timestamp < TIMESTAMP_WINDOW_NANOS
}

/// Whether `h` authenticates `timestamp` under `hashed_key`.
pub open spec fn hmac_validates(h: Hmac, timestamp: i64, hashed_key: Seq<u8>) -> bool {
    h.hmac@ == hmac_of(hashed_key, h.message@, timestamp)
}

impl Hmac {
    /// The HMAC of `message` at `timestamp` under `hashed_key`.
    fn calculate_hmac(hashed_key: &[u8; 64], message: &[u8], timestamp: i64) -> (r: [u8; 64])
        ensures
            r@ == hmac_of(hashed_key@, message@, timestamp),
    {
        let mut data = copy_bytes(message);
        let ts = decimal_bytes(timestamp);
        append_bytes(&mut data, ts.as_slice());
        generic_hash(data.as_slice(), Some(hashed_key))
    }

    /// An HMAC over `len` fresh random bytes.
    pub fn new(hashed_key: &[u8; 64], timestamp: i64, len: usize) -> (r: Self)
        ensures
            r.message.len() == len,
            hmac_validates(r, timestamp, hashed_key@),
    {
        let message = random_bytes(len);
        let hmac = Self::calculate_hmac(hashed_key, message.as_slice(), timestamp);
        Hmac { hmac, message }
    }

    /// Whether `timestamp` is within the handshake window around `now`.
    pub fn is_valid_timestamp_for(timestamp: i64, now: i64) -> (r: bool)
        ensures
            r == timestamp_in_window(timestamp, now),
    {
        let d: i128 = now as i128 - timestamp as i128;
        -(TIMESTAMP_WINDOW_NANOS as i128) < d && d < TIMESTAMP_WINDOW_NANOS as i128
    }

    /// Whether this HMAC authenticates `timestamp` under `hashed_key`.
    pub fn valid_for_key(&self, timestamp: i64, hashed_key: &[u8; 64]) -> (r: bool)
        ensures
            r == hmac_validates(*self, timestamp, hashed_key@),
    {
        let hmac = Self::calculate_hmac(hashed_key, self.message.as_slice(), timestamp);
        bytes_eq(&hmac, &self.hmac)
    }
}

/// The big-endian bytes of a 128-bit id.
pub open spec fn id_bytes(id: u128) -> Seq<u8> {
    Seq::new(16, |i: int| (id >> ((120 - 8 * i) as u128)) as u8)
}

/// Appends the big-endian bytes of `id`.
fn push_id_bytes(out: &mut Vec<u8>, id: u128)
    ensures
        final(out)@ == old(out)@ + id_bytes(id),
{
    let ghost start = out@;
    let mut i: u32 = 0;
    while i < 16
        invariant
            i <= 16,
            out@ == start + id_bytes(id).subrange(0, i as int),
        decreases 16 - i,
    {
        let shift: u32 = 120 - 8 * i;
        out.push((id >> shift) as u8);
        proof {
            assert(id_bytes(id)[i as int] == (id >> ((120 - 8 * i) as u128)) as u8);
        }
        i = i + 1;
        assert(out@ =~= start + id_bytes(id).subrange(0, i as int));
    }
    assert(id_bytes(id).subrange(0, 16) =~= id_bytes(id));
}

/// The response to a challenge for one pre-shared key: the 64-byte BLAKE2b
/// digest of the key's UTF-8 bytes, the challenge, the responder's public
/// key and the handshake id.
pub open spec fn response_for(key: Seq<char>, challenge: Seq<u8>, public_key: Seq<u8>, id: u128) -> Seq<
    u8,
> {
    blake2b_512(None, vstd::utf8::encode_utf8(key) + challenge + public_key + id_bytes(id))
}

/// `responses[i]` answers the challenge with `keys[i]`, for every key.
pub open spec fn responses_for(
    responses: Seq<Vec<u8>>,
    keys: Seq<String>,
    challenge: Seq<u8>,
    public_key: Seq<u8>,
    id: u128,
) -> bool {
    &&& responses.len() == keys.len()
    &&& forall|i: int|
        0 <= i < keys.len() ==> #[trigger] responses[i]@ == response_for(
            keys[i]@,
            challenge,
            public_key,
            id,
        )
}

/// The response to `challenge` for each of `keys`.
pub fn compute_response(id: u128, public_key: &[u8; 32], challenge: &[u8], keys: &Vec<String>) -> (r:
    Vec<Vec<u8>>)
    ensures
        responses_for(r@, keys@, challenge@, public_key@, id),
{
    let mut r: Vec<Vec<u8>> = Vec::new();
    let mut i: usize = 0;
    while i < keys.len()
        invariant
            i <= keys.len(),
            r.len() == i,
            forall|j: int|
                0 <= j < i ==> #[trigger] r@[j]@ == response_for(
                    keys@[j]@,
                    challenge@,
                    public_key@,
                    id,
                ),
        decreases keys.len() - i,
    {
        let key_bytes = keys[i].as_str().as_bytes();
        let mut data = copy_bytes(key_bytes);
        append_bytes(&mut data, challenge);
        append_bytes(&mut data, public_key);
        push_id_bytes(&mut data, id);
        let h = generic_hash(data.as_slice(), None);
        let v = copy_bytes(&h);
        r.push(v);
        i = i + 1;
    }
    r
}

/// A received response is accepted when at least one of its entries equals
/// an expected response for one of `keys`.
pub open spec fn response_accepted(
    received: Seq<Vec<u8>>,
    keys: Seq<String>,
    challenge: Seq<u8>,
    public_key: Seq<u8>,
    id: u128,
) -> bool {
    exists|i: int, j: int|
        0 <= i < keys.len() && 0 <= j < received.len() && #[trigger] received[j]@
            == response_for(#[trigger] keys[i]@, challenge, public_key, id)
}

/// Whether `received` shares an entry with `expected`.
fn intersects(expected: &Vec<Vec<u8>>, received: &Vec<Vec<u8>>) -> (r: bool)
    ensures
        r == exists|i: int, j: int|
            0 <= i < expected.len() && 0 <= j < received.len() && #[trigger] expected@[i]@
                == #[trigger] received@[j]@,
{
    let mut i: usize = 0;
    while i < expected.len()
        invariant
            i <= expected.len(),
            forall|a: int, b: int|
                0 <= a < i && 0 <= b < received.len() ==> #[trigger] expected@[a]@
                    != #[trigger] received@[b]@,
        decreases expected.len() - i,
    {
        let mut j: usize = 0;
        while j < received.len()
            invariant
                i < expected.len(),
                j <= received.len(),
                forall|a: int, b: int|
                    0 <= a < i && 0 <= b < received.len() ==> #[trigger] expected@[a]@
                        != #[trigger] received@[b]@,
                forall|b: int| 0 <= b < j ==> expected@[i as int]@ != #[trigger] received@[b]@,
            decreases received.len() - j,
        {
            if bytes_eq(expected[i].as_slice(), received[j].as_slice()) {
                return true;
            }
            j = j + 1;
        }
        i = i + 1;
    }
    false
}

/// Whether `received` answers `challenge` for any of `keys`.
pub fn check_response(
    id: u128,
    public_key: &[u8; 32],
    challenge: &[u8],
    received: &Vec<Vec<u8>>,
    keys: &Vec<String>,
) -> (r: bool)
    ensures
        r == response_accepted(received@, keys@, challenge@, public_key@, id),
{
    let expected = compute_response(id, public_key, challenge, keys);
    let r = intersects(&expected, received);
    proof {
        if r {
            let (i, j) = choose|i: int, j: int|
                0 <= i < expected.len() && 0 <= j < received.len() && #[trigger] expected@[i]@
                    == #[trigger] received@[j]@;
            assert(received@[j]@ == response_for(keys@[i]@, challenge@, public_key@, id));
        }
        if response_accepted(received@, keys@, challenge@, public_key@, id) {
            let (i, j) = choose|i: int, j: int|
                0 <= i < keys.len() && 0 <= j < received.len() && #[trigger] received@[j]@
                    == response_for(#[trigger] keys@[i]@, challenge@, public_key@, id);
            assert(expected@[i]@ == received@[j]@);
        }
    }
    r
}

/// Two nodes that share a pre-shared key complete the challenge: the
/// responses computed with one node's keys are accepted by a node holding
/// any of those keys.
pub proof fn law_shared_key_accepted(
    responses: Seq<Vec<u8>>,
    initiator_keys: Seq<String>,
    responder_keys: Seq<String>,
    challenge: Seq<u8>,
    public_key: Seq<u8>,
    id: u128,
    i: int,
    j: int,
)
    requires
        responses_for(responses, initiator_keys, challenge, public_key, id),
        0 <= i < initiator_keys.len(),
        0 <= j < responder_keys.len(),
        initiator_keys[i]@ == responder_keys[j]@,
    ensures
        response_accepted(responses, responder_keys, challenge, public_key, id),
{
    assert(responses[i]@ == response_for(responder_keys[j]@, challenge, public_key, id));
}

} // verus!

verus! {

use crate::table::{KeyEq, Table};
use crate::peer::{Peer, SockAddr, clone_strings, clone_zone};
use crate::nodeinfo::NodeInfo;
use crate::outside::{gen_range_u64, new_std_rng, new_uuid, now_nanos, key_view};

/// One step of a handshake, as it travels between nodes.
#[derive(Debug)]
pub enum HandshakeStep {
    /// The initiator's greeting: its public key, zone, HMACs over the
    /// timestamp and the timestamp.
    Hello { pk: [u8; 32], zone: Option<String>, hmacs: Vec<Hmac>, timestamp: i64 },
    /// The responder's answer: its public key, zone, HMACs and a challenge.
    Ohai { pk: [u8; 32], zone: Option<String>, hmacs: Vec<Hmac>, challenge: Vec<u8> },
    /// The initiator's responses to the challenge, one per pre-shared key.
    OkBoss { response: Vec<Vec<u8>> },
    /// The responder accepted the responses.
    GoTeam,
    /// The handshake timed out.
    Dead,
}

/// A handshake message.
#[derive(Debug)]
pub struct Handshake {
    pub id: u128,
    pub step: HandshakeStep,
}

/// A handshake in progress is identified by its id and the peer's address.
#[derive(Debug, Clone, Copy, PartialEq, Eq, Structural)]
pub struct HandshakeKey {
    pub id: u128,
    pub addr: SockAddr,
}

impl KeyEq for HandshakeKey {
    fn key_eq(&self, other: &Self) -> (r: bool) {
        self.id == other.id && self.addr.key_eq(&other.addr)
    }
}

/// Which table a handshake in progress is held in.
#[derive(Debug, Clone, Copy, PartialEq, Eq, Structural)]
pub enum Stage {
    /// This node sent a hello and waits for the ohai.
    Hello,
    /// This node sent an ohai and waits for the okboss.
    Ohai,
    /// This node sent an okboss and waits for the goteam.
    OkBoss,
}

/// A handshake in progress. `C` is what runs once it completes.
#[derive(Debug)]
pub struct HandshakeState<C> {
    pub id: u128,
    pub peer: Peer,
    pub challenge: Option<Vec<u8>>,
    pub response: Option<Vec<Vec<u8>>>,
    pub and_then: Option<C>,
    pub timestamp: i64,
}

/// What the handshaker is asked to do.
pub enum HandshakerMessage<C> {
    Bootstrap,
    Packet(SockAddr, Handshake, u128),
    SendHello(SockAddr, Option<C>),
}

/// What the handshaker asks the rest of the node to do, in order.
#[derive(Debug)]
pub enum HandshakeAction<C> {
    /// Send `handshake` to `to` once `delay_millis` have passed.
    Send { to: SockAddr, handshake: Handshake, delay_millis: u64 },
    /// Report `peer` as up to the membership service.
    PeerUp(Peer),
    /// Run the continuation of a completed handshake.
    Continue(C),
    /// Arm the timer that reports this handshake dead after
    /// `HANDSHAKE_TIMEOUT_MILLIS`.
    StartTimer(Stage, HandshakeKey),
    /// Disarm that timer.
    StopTimer(Stage, HandshakeKey),
    /// After `delay_millis`, resolve each address and send a hello to the
    /// first address it resolves to.
    Greet { peers: Vec<String>, delay_millis: u64 },
}

/// The handshake service of one node.
pub struct Handshaker<C> {
    pub node_id: u128,
    pub keys: Vec<String>,
    pub peers: Vec<String>,
    pub zone: Option<String>,
    pub hellos: Table<HandshakeKey, HandshakeState<C>>,
    pub ohais: Table<HandshakeKey, HandshakeState<C>>,
    pub okboss: Table<HandshakeKey, HandshakeState<C>>,
    pub inflight: Table<SockAddr, ()>,
    pub rng: rand::rngs::StdRng,
    pub hashed_keys: Option<Vec<[u8; 64]>>,
}

/// The hash of a pre-shared key, as used for HMACs.
pub open spec fn hashed_key_of(key: Seq<char>) -> Seq<u8> {
    blake2b_512(None, vstd::utf8::encode_utf8(key))
}

/// `hmacs` holds one fresh HMAC over `timestamp` per hashed key, each over a
/// message of a length in `HMAC_MESSAGE_LEN_MIN..HMAC_MESSAGE_LEN_MAX`.
pub open spec fn fresh_hmacs(hashed_keys: Option<Vec<[u8; 64]>>, hmacs: Seq<Hmac>, timestamp: i64) -> bool {
    match hashed_keys {
        None => hmacs.len() == 0,
        Some(ks) => {
            &&& hmacs.len() == ks@.len()
            &&& forall|i: int|
                0 <= i < hmacs.len() ==> {
                    &&& hmac_validates(#[trigger] hmacs[i], timestamp, ks@[i]@)
                    &&& HMAC_MESSAGE_LEN_MIN <= hmacs[i].message@.len() < HMAC_MESSAGE_LEN_MAX
                }
        },
    }
}

/// Some HMAC authenticates `timestamp` under some hashed key.
pub open spec fn some_hmac_validates(hmacs: Seq<Hmac>, timestamp: i64, hashed_keys: Seq<[u8; 64]>) -> bool {
    exists|i: int, j: int|
        0 <= i < hmacs.len() && 0 <= j < hashed_keys.len() && hmac_validates(
            #[trigger] hmacs[i],
            timestamp,
            #[trigger] hashed_keys[j]@,
        )
}

/// A fresh handshake state: its timer is the caller's business.
pub open spec fn fresh_state<C>(
    st: HandshakeState<C>,
    id: u128,
    addr: SockAddr,
    peer_id: u128,
    their_public_key: Option<[u8; 32]>,
    timestamp: i64,
    zone: Option<String>,
) -> bool {
    &&& st.id == id
    &&& st.peer.our_keypair is Some
    &&& st.peer.their_public_key == their_public_key
    &&& st.peer.sockaddr == addr
    &&& st.peer.id == peer_id
    &&& st.peer.handshake_timestamp == Some(timestamp)
    &&& st.peer.zone == zone
    &&& st.response is None
    &&& st.timestamp == timestamp
}

impl<C> Handshaker<C> {
    pub open spec fn wf(&self) -> bool {
        &&& self.hellos.wf()
        &&& self.ohais.wf()
        &&& self.okboss.wf()
        &&& self.inflight.wf()
        &&& forall|k: HandshakeKey| #[trigger]
            self.hellos@.dom().contains(k) ==> {
                &&& self.hellos@[k].peer.our_keypair is Some
                &&& self.hellos@[k].id == k.id
            }
        &&& forall|k: HandshakeKey| #[trigger]
            self.ohais@.dom().contains(k) ==> {
                &&& self.ohais@[k].peer.our_keypair is Some
                &&& self.ohais@[k].challenge is Some
                &&& self.ohais@[k].id == k.id
            }
        &&& forall|k: HandshakeKey| #[trigger]
            self.okboss@.dom().contains(k) ==> self.okboss@[k].id == k.id
    }

    /// Whether `hmacs` authenticate `timestamp` at time `now`: the
    /// pre-shared keys have been hashed, the timestamp is within the window,
    /// and some HMAC is valid under some hashed key.
    pub open spec fn spec_has_valid_hmac(&self, timestamp: i64, hmacs: Seq<Hmac>, now: i64) -> bool {
        match self.hashed_keys {
            None => false,
            Some(ks) => timestamp_in_window(timestamp, now) && some_hmac_validates(
                hmacs,
                timestamp,
                ks@,
            ),
        }
    }

    /// Everything but the handshake tables and the generator is unchanged.
    pub open spec fn same_settings(&self, other: &Self) -> bool {
        &&& other.node_id == self.node_id
        &&& other.keys == self.keys
        &&& other.peers == self.peers
        &&& other.zone == self.zone
        &&& other.hashed_keys == self.hashed_keys
    }

    /// The handshaker of a node, before it has bootstrapped.
    pub fn new(nodeinfo: &NodeInfo) -> (r: Self)
        ensures
            r.wf(),
            r.node_id == nodeinfo.id,
            r.keys@ == nodeinfo.keys@,
            r.peers@ == nodeinfo.peers@,
            r.zone == nodeinfo.zone,
            r.hellos@ == Map::<HandshakeKey, HandshakeState<C>>::empty(),
            r.ohais@ == Map::<HandshakeKey, HandshakeState<C>>::empty(),
            r.okboss@ == Map::<HandshakeKey, HandshakeState<C>>::empty(),
            r.inflight@ == Map::<SockAddr, ()>::empty(),
            r.hashed_keys is None,
    {
        Handshaker {
            node_id: nodeinfo.id,
            keys: clone_strings(&nodeinfo.keys),
            peers: clone_strings(&nodeinfo.peers),
            zone: clone_zone(&nodeinfo.zone),
            hellos: Table::new(),
            ohais: Table::new(),
            okboss: Table::new(),
            inflight: Table::new(),
            rng: new_std_rng(),
            hashed_keys: None,
        }
    }
}

} // verus!

verus! {

use crate::bytes::copy_byte_lists;

/// Bootstrapping hashes the pre-shared keys once and schedules a greeting of
/// every configured peer after a random delay; nothing else changes.
pub open spec fn bootstrapped<C>(pre: Handshaker<C>, post: Handshaker<C>, actions: Seq<HandshakeAction<C>>) -> bool {
    &&& post.node_id == pre.node_id
    &&& post.keys == pre.keys
    &&& post.peers == pre.peers
    &&& post.zone == pre.zone
    &&& post.hellos == pre.hellos
    &&& post.ohais == pre.ohais
    &&& post.okboss == pre.okboss
    &&& post.inflight == pre.inflight
    &&& (pre.hashed_keys is Some ==> post.hashed_keys == pre.hashed_keys)
    &&& (pre.hashed_keys is None ==> (post.hashed_keys matches Some(ks) && ks@.len()
        == pre.keys@.len() && forall|i: int|
        0 <= i < ks@.len() ==> #[trigger] ks@[i]@ == hashed_key_of(pre.keys@[i]@)))
    &&& actions.len() == 1
    &&& actions[0] matches HandshakeAction::Greet { peers, delay_millis }
    &&& peers@ == pre.peers@
    &&& HANDSHAKE_BOOTSTRAP_DELAY_MILLIS_MIN <= delay_millis < HANDSHAKE_BOOTSTRAP_DELAY_MILLIS_MAX
}

/// The state a hello turns into once its ohai arrived: the peer learns the
/// responder's id, public key and zone, and the responses to the challenge
/// are computed with the responder's public key.
fn got_ohai<C>(
    st: HandshakeState<C>,
    node_id: u128,
    public_key: &[u8; 32],
    challenge: &[u8],
    keys: &Vec<String>,
    zone: Option<String>,
) -> (r: HandshakeState<C>)
    ensures
        r.id == st.id,
        r.peer == (Peer {
            their_public_key: Some(*public_key),
            id: node_id,
            zone: zone,
            ..st.peer
        }),
        r.response matches Some(resp) && responses_for(resp@, keys@, challenge@, public_key@, st.id),
        r.challenge == st.challenge,
        r.and_then == st.and_then,
        r.timestamp == st.timestamp,
{
    let mut peer = st.peer;
    peer.set_their_public_key(*public_key);
    peer.set_id(node_id);
    peer.set_zone(zone);
    let response = compute_response(st.id, public_key, challenge, keys);
    HandshakeState {
        id: st.id,
        peer,
        response: Some(response),
        challenge: st.challenge,
        and_then: st.and_then,
        timestamp: st.timestamp,
    }
}

/// Whether the okboss `response` answers the challenge this responder sent,
/// with its own public key, for one of `keys`.
fn got_okboss<C>(st: &HandshakeState<C>, response: &Vec<Vec<u8>>, keys: &Vec<String>) -> (r: bool)
    requires
        st.peer.our_keypair is Some,
        st.challenge is Some,
    ensures
        r == response_accepted(
            response@,
            keys@,
            st.challenge->Some_0@,
            st.peer.our_keypair->Some_0.public_key@,
            st.id,
        ),
{
    let pk = st.peer.our_keypair.unwrap().public_key;
    match &st.challenge {
        Some(challenge) => check_response(st.id, &pk, challenge.as_slice(), response, keys),
        None => false,
    }
}

impl<C> Handshaker<C> {
    /// Hashes the pre-shared keys (once) and schedules a hello to every
    /// configured peer after a random delay.
    pub fn bootstrap(&mut self) -> (actions: Vec<HandshakeAction<C>>)
        requires
            old(self).wf(),
        ensures
            final(self).wf(),
            bootstrapped(*old(self), *final(self), actions@),
    {
        if self.hashed_keys.is_none() {
            let mut hashed: Vec<[u8; 64]> = Vec::new();
            let mut i: usize = 0;
            while i < self.keys.len()
                invariant
                    i <= self.keys@.len(),
                    hashed@.len() == i,
                    forall|j: int| 0 <= j < i ==> #[trigger] hashed@[j]@ == hashed_key_of(self.keys@[j]@),
                decreases self.keys@.len() - i,
            {
                let h = generic_hash(self.keys[i].as_str().as_bytes(), None);
                hashed.push(h);
                i = i + 1;
            }
            self.hashed_keys = Some(hashed);
        }
        let peers = clone_strings(&self.peers);
        let delay_millis = gen_range_u64(
            &mut self.rng,
            HANDSHAKE_BOOTSTRAP_DELAY_MILLIS_MIN,
            HANDSHAKE_BOOTSTRAP_DELAY_MILLIS_MAX,
        );
        let mut actions: Vec<HandshakeAction<C>> = Vec::new();
        actions.push(HandshakeAction::Greet { peers, delay_millis });
        actions
    }

    /// One fresh HMAC over `timestamp` per hashed key, each over a random
    /// message; none before the keys are hashed.
    pub fn compute_hmacs(&mut self, timestamp: i64) -> (r: Vec<Hmac>)
        ensures
            fresh_hmacs(old(self).hashed_keys, r@, timestamp),
            final(self).node_id == old(self).node_id,
            final(self).keys == old(self).keys,
            final(self).peers == old(self).peers,
            final(self).zone == old(self).zone,
            final(self).hashed_keys == old(self).hashed_keys,
            final(self).hellos == old(self).hellos,
            final(self).ohais == old(self).ohais,
            final(self).okboss == old(self).okboss,
            final(self).inflight == old(self).inflight,
    {
        let mut r: Vec<Hmac> = Vec::new();
        match &self.hashed_keys {
            Some(ks) => {
                let mut i: usize = 0;
                while i < ks.len()
                    invariant
                        self.hashed_keys == Some(*ks),
                        self.node_id == old(self).node_id,
                        self.keys == old(self).keys,
                        self.peers == old(self).peers,
                        self.zone == old(self).zone,
                        self.hashed_keys == old(self).hashed_keys,
                        self.hellos == old(self).hellos,
                        self.ohais == old(self).ohais,
                        self.okboss == old(self).okboss,
                        self.inflight == old(self).inflight,
                        i <= ks@.len(),
                        r@.len() == i,
                        forall|j: int|
                            0 <= j < i ==> {
                                &&& hmac_validates(#[trigger] r@[j], timestamp, ks@[j]@)
                                &&& HMAC_MESSAGE_LEN_MIN <= r@[j].message@.len() < HMAC_MESSAGE_LEN_MAX
                            },
                    decreases ks@.len() - i,
                {
                    let len = gen_range_u64(&mut self.rng, HMAC_MESSAGE_LEN_MIN, HMAC_MESSAGE_LEN_MAX);
                    r.push(Hmac::new(&ks[i], timestamp, len as usize));
                    i = i + 1;
                }
            },
            None => {},
        }
        r
    }

    /// Whether `hmacs` authenticate `timestamp` at time `now`.
    pub fn has_valid_hmac(&self, timestamp: i64, hmacs: &Vec<Hmac>, now: i64) -> (r: bool)
        ensures
            r == self.spec_has_valid_hmac(timestamp, hmacs@, now),
    {
        match &self.hashed_keys {
            Some(ks) => {
                if !Hmac::is_valid_timestamp_for(timestamp, now) {
                    return false;
                }
                let mut i: usize = 0;
                while i < hmacs.len()
                    invariant
                        self.hashed_keys == Some(*ks),
                        timestamp_in_window(timestamp, now),
                        i <= hmacs@.len(),
                        forall|a: int, b: int|
                            0 <= a < i && 0 <= b < ks@.len() ==> !hmac_validates(
                                #[trigger] hmacs@[a],
                                timestamp,
                                #[trigger] ks@[b]@,
                            ),
                    decreases hmacs@.len() - i,
                {
                    let mut j: usize = 0;
                    while j < ks.len()
                        invariant
                            self.hashed_keys == Some(*ks),
                            timestamp_in_window(timestamp, now),
                            i < hmacs@.len(),
                            j <= ks@.len(),
                            forall|a: int, b: int|
                                0 <= a < i && 0 <= b < ks@.len() ==> !hmac_validates(
                                    #[trigger] hmacs@[a],
                                    timestamp,
                                    #[trigger] ks@[b]@,
                                ),
                            forall|b: int|
                                0 <= b < j ==> !hmac_validates(hmacs@[i as int], timestamp, #[trigger] ks@[b]@),
                        decreases ks@.len() - j,
                    {
                        if hmacs[i].valid_for_key(timestamp, &ks[j]) {
                            assert(hmac_validates(hmacs@[i as int], timestamp, ks@[j as int]@));
                            assert(some_hmac_validates(hmacs@, timestamp, ks@));
                            return true;
                        }
                        j = j + 1;
                    }
                    i = i + 1;
                }
                false
            },
            None => false,
        }
    }
}

} // verus!

verus! {

/// Sending a hello to `addr` at `now` records an initiator state with a
/// fresh key pair under a fresh id, marks the address in flight, arms the
/// state's timer and sends the hello.
pub open spec fn hello_sent<C>(
    pre: Handshaker<C>,
    post: Handshaker<C>,
    addr: SockAddr,
    and_then: Option<C>,
    now: i64,
    actions: Seq<HandshakeAction<C>>,
) -> bool {
    &&& pre.same_settings(&post)
    &&& post.ohais == pre.ohais
    &&& post.okboss == pre.okboss
    &&& post.inflight@ == pre.inflight@.insert(addr, ())
    &&& actions.len() == 2
    &&& actions[0] matches HandshakeAction::StartTimer(stage, key)
    &&& stage == Stage::Hello
    &&& key.addr == addr
    &&& post.hellos@ == pre.hellos@.insert(key, post.hellos@[key])
    &&& fresh_state(post.hellos@[key], key.id, addr, 0, None, now, None)
    &&& post.hellos@[key].challenge is None
    &&& post.hellos@[key].and_then == and_then
    &&& actions[1] matches HandshakeAction::Send { to, handshake, delay_millis }
    &&& to == addr
    &&& delay_millis == 0
    &&& handshake.id == key.id
    &&& handshake.step matches HandshakeStep::Hello { pk, zone, hmacs, timestamp }
    &&& pk == post.hellos@[key].peer.our_keypair->Some_0.public_key
    &&& zone == pre.zone
    &&& timestamp == now
    &&& fresh_hmacs(pre.hashed_keys, hmacs@, now)
}

/// `a` asks to send `step` of handshake `id` to `to` after `delay_millis`.
pub open spec fn sends<C>(a: HandshakeAction<C>, to: SockAddr, id: u128) -> bool {
    a matches HandshakeAction::Send { to: t, handshake, delay_millis } && t == to && handshake.id
        == id
}

impl<C> Handshaker<C> {
    /// Starts a handshake with `addr` at time `now`: a fresh key pair and
    /// handshake id, a hello with this node's public key, zone and HMACs, and
    /// a timer. The address is marked in flight.
    pub fn send_hello(&mut self, addr: SockAddr, and_then: Option<C>, now: i64) -> (actions: Vec<
        HandshakeAction<C>,
    >)
        requires
            old(self).wf(),
        ensures
            final(self).wf(),
            hello_sent(*old(self), *final(self), addr, and_then, now, actions@),
    {
        let id = new_uuid();
        let key = HandshakeKey { id, addr };
        let peer = Peer::new(None, addr, 0, Some(now), None);
        let pk = peer.our_keypair.unwrap().public_key;
        let state = HandshakeState { id, peer, challenge: None, response: None, and_then, timestamp: now };
        let mut actions: Vec<HandshakeAction<C>> = Vec::new();
        actions.push(HandshakeAction::StartTimer(Stage::Hello, key));
        let hmacs = self.compute_hmacs(now);
        let step = HandshakeStep::Hello { pk, zone: clone_zone(&self.zone), hmacs, timestamp: now };
        self.inflight.insert(addr, ());
        self.hellos.insert(key, state);
        actions.push(
            HandshakeAction::Send { to: addr, handshake: Handshake { id, step }, delay_millis: 0 },
        );
        proof {
            assert(final(self).hellos@ =~= old(self).hellos@.insert(key, final(self).hellos@[key]));
        }
        actions
    }

    /// The ohai answering hello `id` from `addr`; it is sent after a random
    /// delay when a handshake with `addr` was already in flight.
    pub fn send_ohai(
        &mut self,
        id: u128,
        addr: SockAddr,
        public_key: [u8; 32],
        challenge: Vec<u8>,
        timestamp: i64,
        inflight: bool,
    ) -> (r: HandshakeAction<C>)
        ensures
            old(self).same_settings(&*final(self)),
            final(self).hellos == old(self).hellos,
            final(self).ohais == old(self).ohais,
            final(self).okboss == old(self).okboss,
            final(self).inflight == old(self).inflight,
            r matches HandshakeAction::Send { to, handshake, delay_millis } && to == addr
                && handshake.id == id && (inflight ==> HANDSHAKE_BOOTSTRAP_DELAY_MILLIS_MIN
                <= delay_millis < HANDSHAKE_BOOTSTRAP_DELAY_MILLIS_MAX) && (!inflight
                ==> delay_millis == 0) && (handshake.step matches HandshakeStep::Ohai {
                pk,
                zone,
                hmacs,
                challenge: c,
            } && pk == public_key && zone == old(self).zone && c == challenge && fresh_hmacs(
                old(self).hashed_keys,
                hmacs@,
                timestamp,
            )),
    {
        let hmacs = self.compute_hmacs(timestamp);
        let step = HandshakeStep::Ohai {
            pk: public_key,
            zone: clone_zone(&self.zone),
            hmacs,
            challenge,
        };
        let delay_millis = if inflight {
            gen_range_u64(
                &mut self.rng,
                HANDSHAKE_BOOTSTRAP_DELAY_MILLIS_MIN,
                HANDSHAKE_BOOTSTRAP_DELAY_MILLIS_MAX,
            )
        } else {
            0
        };
        HandshakeAction::Send { to: addr, handshake: Handshake { id, step }, delay_millis }
    }

    /// The okboss carrying `response` for handshake `id`.
    pub fn send_okboss(&self, id: u128, addr: SockAddr, response: Vec<Vec<u8>>) -> (r:
        HandshakeAction<C>)
        ensures
            r matches HandshakeAction::Send { to, handshake, delay_millis } && to == addr
                && handshake.id == id && delay_millis == 0 && (handshake.step matches HandshakeStep::OkBoss {
                response: resp,
            } && resp == response),
    {
        HandshakeAction::Send {
            to: addr,
            handshake: Handshake { id, step: HandshakeStep::OkBoss { response } },
            delay_millis: 0,
        }
    }

    /// The goteam completing handshake `id`.
    pub fn send_goteam(&self, id: u128, addr: SockAddr) -> (r: HandshakeAction<C>)
        ensures
            r matches HandshakeAction::Send { to, handshake, delay_millis } && to == addr
                && handshake.id == id && delay_millis == 0 && handshake.step is GoTeam,
    {
        HandshakeAction::Send {
            to: addr,
            handshake: Handshake { id, step: HandshakeStep::GoTeam },
            delay_millis: 0,
        }
    }

    /// Reports a peer up once its handshake completed.
    pub fn send_peer_up(&self, peer: Peer) -> (r: HandshakeAction<C>)
        ensures
            r == HandshakeAction::<C>::PeerUp(peer),
    {
        HandshakeAction::PeerUp(peer)
    }

    /// A new message asking peer `id` for the peers it knows, with the peer
    /// to send it to.
    pub fn request_peerlist(&self, id: u128) -> (r: (u128, crate::message::Message))
        ensures
            r.0 == id,
            r.1.body == crate::message::Body::PeerRequest(
                Box::new(crate::peer_manager::PeerRequest::PeerList),
            ),
            (r.1.id >> 76u128) & 0xfu128 == 4u128,
    {
        (
            id,
            crate::message::Message::with_fresh_id(
                crate::message::Body::PeerRequest(Box::new(crate::peer_manager::PeerRequest::PeerList)),
            ),
        )
    }
}

} // verus!

verus! {

/// A hello from `node_id` at `addr`: when it comes from another node and its
/// HMACs are valid, a responder state with a fresh key pair and a random
/// challenge is recorded and an ohai is sent; otherwise nothing happens.
pub open spec fn hello_handled<C>(
    pre: Handshaker<C>,
    post: Handshaker<C>,
    addr: SockAddr,
    id: u128,
    node_id: u128,
    pk: [u8; 32],
    zone: Option<String>,
    hmacs: Seq<Hmac>,
    timestamp: i64,
    now: i64,
    actions: Seq<HandshakeAction<C>>,
) -> bool {
    let key = HandshakeKey { id, addr };
    if node_id != pre.node_id && pre.spec_has_valid_hmac(timestamp, hmacs, now) {
        let st = post.ohais@[key];
        &&& post.hellos == pre.hellos
        &&& post.okboss == pre.okboss
        &&& post.inflight@ == pre.inflight@.insert(addr, ())
        &&& post.ohais@ == pre.ohais@.insert(key, st)
        &&& fresh_state(st, id, addr, node_id, Some(pk), timestamp, zone)
        &&& st.and_then is None
        &&& st.challenge matches Some(c) && c@.len() == CHALLENGE_LEN
        &&& actions.len() == 2
        &&& actions[0] == HandshakeAction::<C>::StartTimer(Stage::Ohai, key)
        &&& actions[1] matches HandshakeAction::Send { to, handshake, delay_millis }
        &&& to == addr
        &&& handshake.id == id
        &&& (pre.inflight@.dom().contains(addr) ==> HANDSHAKE_BOOTSTRAP_DELAY_MILLIS_MIN
            <= delay_millis < HANDSHAKE_BOOTSTRAP_DELAY_MILLIS_MAX)
        &&& (!pre.inflight@.dom().contains(addr) ==> delay_millis == 0)
        &&& handshake.step matches HandshakeStep::Ohai { pk: p, zone: z, hmacs: h, challenge: c }
        &&& p == st.peer.our_keypair->Some_0.public_key
        &&& z == pre.zone
        &&& c@ == st.challenge->Some_0@
        &&& fresh_hmacs(pre.hashed_keys, h@, timestamp)
    } else {
        &&& post.hellos == pre.hellos
        &&& post.ohais == pre.ohais
        &&& post.okboss == pre.okboss
        &&& post.inflight == pre.inflight
        &&& actions.len() == 0
    }
}

/// An ohai for a hello this node sent: the hello's timer stops; when the
/// ohai's HMACs are valid for the hello's timestamp, the peer learns the
/// responder's id, public key and zone, and an okboss with the responses to
/// the challenge is sent.
pub open spec fn ohai_handled<C>(
    pre: Handshaker<C>,
    post: Handshaker<C>,
    addr: SockAddr,
    id: u128,
    node_id: u128,
    pk: [u8; 32],
    zone: Option<String>,
    hmacs: Seq<Hmac>,
    challenge: Seq<u8>,
    now: i64,
    actions: Seq<HandshakeAction<C>>,
) -> bool {
    let key = HandshakeKey { id, addr };
    if pre.hellos@.dom().contains(key) {
        let st = pre.hellos@[key];
        &&& post.hellos@ == pre.hellos@.remove(key)
        &&& post.ohais == pre.ohais
        &&& post.inflight == pre.inflight
        &&& actions.len() >= 1
        &&& actions[0] == HandshakeAction::<C>::StopTimer(Stage::Hello, key)
        &&& if pre.spec_has_valid_hmac(st.timestamp, hmacs, now) {
            let ns = post.okboss@[key];
            &&& post.okboss@ == pre.okboss@.insert(key, ns)
            &&& ns.id == id
            &&& ns.peer == (Peer { their_public_key: Some(pk), id: node_id, zone: zone, ..st.peer })
            &&& ns.peer.spec_is_handshaken()
            &&& ns.response matches Some(resp) && responses_for(resp@, pre.keys@, challenge, pk@, id)
            &&& ns.challenge == st.challenge
            &&& ns.and_then == st.and_then
            &&& ns.timestamp == st.timestamp
            &&& actions.len() == 2
            &&& actions[1] matches HandshakeAction::Send { to, handshake, delay_millis }
            &&& to == addr
            &&& handshake.id == id
            &&& delay_millis == 0
            &&& handshake.step matches HandshakeStep::OkBoss { response }
            &&& responses_for(response@, pre.keys@, challenge, pk@, id)
        } else {
            &&& post.okboss == pre.okboss
            &&& actions.len() == 1
        }
    } else {
        &&& post.hellos == pre.hellos
        &&& post.ohais == pre.ohais
        &&& post.okboss == pre.okboss
        &&& post.inflight == pre.inflight
        &&& actions.len() == 0
    }
}

/// An okboss for an ohai this node sent: the ohai's timer stops; when the
/// responses answer the challenge for one of this node's keys, the peer is
/// reported up, a goteam is sent and the continuation runs.
pub open spec fn okboss_handled<C>(
    pre: Handshaker<C>,
    post: Handshaker<C>,
    addr: SockAddr,
    id: u128,
    response: Seq<Vec<u8>>,
    actions: Seq<HandshakeAction<C>>,
) -> bool {
    let key = HandshakeKey { id, addr };
    if pre.ohais@.dom().contains(key) {
        let st = pre.ohais@[key];
        let accepted = response_accepted(
            response,
            pre.keys@,
            st.challenge->Some_0@,
            st.peer.our_keypair->Some_0.public_key@,
            id,
        );
        &&& post.ohais@ == pre.ohais@.remove(key)
        &&& post.hellos == pre.hellos
        &&& post.okboss == pre.okboss
        &&& post.inflight == pre.inflight
        &&& actions.len() >= 1
        &&& actions[0] == HandshakeAction::<C>::StopTimer(Stage::Ohai, key)
        &&& if accepted {
            &&& actions.len() == if st.and_then is Some { 4int } else { 3int }
            &&& actions[1] == HandshakeAction::<C>::PeerUp(st.peer)
            &&& actions[2] matches HandshakeAction::Send { to, handshake, delay_millis }
            &&& to == addr && handshake.id == id && delay_millis == 0 && handshake.step is GoTeam
            &&& (st.and_then matches Some(c) ==> actions[3] == HandshakeAction::<C>::Continue(c))
        } else {
            actions.len() == 1
        }
    } else {
        &&& post.hellos == pre.hellos
        &&& post.ohais == pre.ohais
        &&& post.okboss == pre.okboss
        &&& post.inflight == pre.inflight
        &&& actions.len() == 0
    }
}

/// A goteam for an okboss this node sent: the peer is reported up and the
/// continuation runs.
pub open spec fn goteam_handled<C>(
    pre: Handshaker<C>,
    post: Handshaker<C>,
    addr: SockAddr,
    id: u128,
    actions: Seq<HandshakeAction<C>>,
) -> bool {
    let key = HandshakeKey { id, addr };
    if pre.okboss@.dom().contains(key) {
        let st = pre.okboss@[key];
        &&& post.okboss@ == pre.okboss@.remove(key)
        &&& post.hellos == pre.hellos
        &&& post.ohais == pre.ohais
        &&& post.inflight == pre.inflight
        &&& actions.len() == if st.and_then is Some { 2int } else { 1int }
        &&& actions[0] == HandshakeAction::<C>::PeerUp(st.peer)
        &&& (st.and_then matches Some(c) ==> actions[1] == HandshakeAction::<C>::Continue(c))
    } else {
        &&& post.hellos == pre.hellos
        &&& post.ohais == pre.ohais
        &&& post.okboss == pre.okboss
        &&& post.inflight == pre.inflight
        &&& actions.len() == 0
    }
}

/// A handshake reported dead: it is forgotten in every stage, the address is
/// no longer in flight, and the timers of its hello and ohai stop.
pub open spec fn dead_handled<C>(
    pre: Handshaker<C>,
    post: Handshaker<C>,
    addr: SockAddr,
    id: u128,
    actions: Seq<HandshakeAction<C>>,
) -> bool {
    let key = HandshakeKey { id, addr };
    let h = pre.hellos@.dom().contains(key);
    let o = pre.ohais@.dom().contains(key);
    &&& post.hellos@ == pre.hellos@.remove(key)
    &&& post.ohais@ == pre.ohais@.remove(key)
    &&& post.okboss@ == pre.okboss@.remove(key)
    &&& post.inflight@ == pre.inflight@.remove(addr)
    &&& actions.len() == (if h { 1int } else { 0int }) + (if o { 1int } else { 0int })
    &&& (h ==> actions[0] == HandshakeAction::<C>::StopTimer(Stage::Hello, key))
    &&& (o ==> actions[actions.len() - 1] == HandshakeAction::<C>::StopTimer(Stage::Ohai, key))
}

/// What handling `handshake` from `node_id` at `addr` at time `now` does.
pub open spec fn handshake_handled<C>(
    pre: Handshaker<C>,
    post: Handshaker<C>,
    addr: SockAddr,
    handshake: Handshake,
    node_id: u128,
    now: i64,
    actions: Seq<HandshakeAction<C>>,
) -> bool {
    &&& pre.same_settings(&post)
    &&& match handshake.step {
        HandshakeStep::Hello { pk, zone, hmacs, timestamp } => hello_handled(
            pre,
            post,
            addr,
            handshake.id,
            node_id,
            pk,
            zone,
            hmacs@,
            timestamp,
            now,
            actions,
        ),
        HandshakeStep::Ohai { pk, zone, hmacs, challenge } => ohai_handled(
            pre,
            post,
            addr,
            handshake.id,
            node_id,
            pk,
            zone,
            hmacs@,
            challenge@,
            now,
            actions,
        ),
        HandshakeStep::OkBoss { response } => okboss_handled(
            pre,
            post,
            addr,
            handshake.id,
            response@,
            actions,
        ),
        HandshakeStep::GoTeam => goteam_handled(pre, post, addr, handshake.id, actions),
        HandshakeStep::Dead => dead_handled(pre, post, addr, handshake.id, actions),
    }
}

impl<C> Handshaker<C> {
    /// Advances the handshake that `handshake` belongs to, at time `now`.
    pub fn handle_handshake(&mut self, addr: SockAddr, handshake: Handshake, node_id: u128, now: i64) -> (actions:
        Vec<HandshakeAction<C>>)
        requires
            old(self).wf(),
        ensures
            final(self).wf(),
            handshake_handled(*old(self), *final(self), addr, handshake, node_id, now, actions@),
    {
        let ghost pre = *self;
        let id = handshake.id;
        let key = HandshakeKey { id, addr };
        let mut actions: Vec<HandshakeAction<C>> = Vec::new();
        match handshake.step {
            HandshakeStep::Hello { pk, zone, hmacs, timestamp } => {
                if node_id != self.node_id && self.has_valid_hmac(timestamp, &hmacs, now) {
                    let peer = Peer::new(Some(pk), addr, node_id, Some(timestamp), zone);
                    let our_pk = peer.our_keypair.unwrap().public_key;
                    let challenge = random_bytes(CHALLENGE_LEN);
                    let sent_challenge = copy_bytes(challenge.as_slice());
                    let state = HandshakeState {
                        id,
                        peer,
                        challenge: Some(challenge),
                        response: None,
                        and_then: None,
                        timestamp,
                    };
                    actions.push(HandshakeAction::StartTimer(Stage::Ohai, key));
                    let inflight = self.inflight.contains_key(&addr);
                    let send = self.send_ohai(id, addr, our_pk, sent_challenge, timestamp, inflight);
                    actions.push(send);
                    self.inflight.insert(addr, ());
                    self.ohais.insert(key, state);
                    proof {
                        assert(self.ohais@ =~= pre.ohais@.insert(key, self.ohais@[key]));
                    }
                }
            },
            HandshakeStep::Ohai { pk, zone, hmacs, challenge } => {
                match self.hellos.remove(&key) {
                    Some(st) => {
                        actions.push(HandshakeAction::StopTimer(Stage::Hello, key));
                        if self.has_valid_hmac(st.timestamp, &hmacs, now) {
                            let ns = got_ohai(st, node_id, &pk, challenge.as_slice(), &self.keys, zone);
                            let resp = match &ns.response {
                                Some(r) => copy_byte_lists(r),
                                None => Vec::new(),
                            };
                            let send = self.send_okboss(ns.id, addr, resp);
                            actions.push(send);
                            self.okboss.insert(key, ns);
                            proof {
                                assert(self.okboss@ =~= pre.okboss@.insert(key, self.okboss@[key]));
                            }
                        }
                    },
                    None => {},
                }
            },
            HandshakeStep::OkBoss { response } => {
                match self.ohais.remove(&key) {
                    Some(st) => {
                        actions.push(HandshakeAction::StopTimer(Stage::Ohai, key));
                        if got_okboss(&st, &response, &self.keys) {
                            actions.push(self.send_peer_up(st.peer));
                            actions.push(self.send_goteam(id, addr));
                            match st.and_then {
                                Some(c) => actions.push(HandshakeAction::Continue(c)),
                                None => {},
                            }
                        }
                    },
                    None => {},
                }
            },
            HandshakeStep::GoTeam => {
                match self.okboss.remove(&key) {
                    Some(st) => {
                        actions.push(self.send_peer_up(st.peer));
                        match st.and_then {
                            Some(c) => actions.push(HandshakeAction::Continue(c)),
                            None => {},
                        }
                    },
                    None => {},
                }
            },
            HandshakeStep::Dead => {
                if self.hellos.remove(&key).is_some() {
                    actions.push(HandshakeAction::StopTimer(Stage::Hello, key));
                }
                if self.ohais.remove(&key).is_some() {
                    actions.push(HandshakeAction::StopTimer(Stage::Ohai, key));
                }
                self.okboss.remove(&key);
                self.inflight.remove(&addr);
            },
        }
        actions
    }
}

} // verus!

verus! {

impl<C> Handshaker<C> {
    /// Handles one request: a bootstrap, a handshake packet received from
    /// `node_id` at an address, or a request to greet an address. Packets and
    /// greetings are handled at the current time.
    pub fn handle_message(&mut self, message: HandshakerMessage<C>) -> (actions: Vec<HandshakeAction<C>>)
        requires
            old(self).wf(),
        ensures
            final(self).wf(),
            match message {
                HandshakerMessage::Bootstrap => bootstrapped(*old(self), *final(self), actions@),
                HandshakerMessage::Packet(addr, handshake, node_id) => exists|now: i64|
                    handshake_handled(*old(self), *final(self), addr, handshake, node_id, now, actions@),
                HandshakerMessage::SendHello(addr, and_then) => exists|now: i64|
                    hello_sent(*old(self), *final(self), addr, and_then, now, actions@),
            },
    {
        match message {
            HandshakerMessage::Bootstrap => self.bootstrap(),
            HandshakerMessage::Packet(addr, handshake, node_id) => {
                let now = now_nanos();
                self.handle_handshake(addr, handshake, node_id, now)
            },
            HandshakerMessage::SendHello(addr, and_then) => {
                let now = now_nanos();
                self.send_hello(addr, and_then, now)
            },
        }
    }
}

} // verus!

verus! {

/// The pre-shared keys of `h` have been hashed, one hash per key, in order.
pub open spec fn keys_hashed<C>(h: Handshaker<C>) -> bool {
    h.hashed_keys matches Some(ks) && ks@.len() == h.keys@.len() && forall|k: int|
        0 <= k < ks@.len() ==> #[trigger] ks@[k]@ == hashed_key_of(h.keys@[k]@)
}

/// Two nodes that share a pre-shared key complete a handshake. The
/// initiator `a` sends a hello to `b`; each step's reply is handed to the
/// other node, the hello's timestamp still within the window when `b` reads
/// the hello and when `a` reads the ohai. Then `b` reports `a` up, and `a`
/// reports `b` up, both with the keys of both sides known, and runs the
/// continuation it started the handshake with.
pub proof fn law_handshake_completes<C>(
    a0: Handshaker<C>,
    a1: Handshaker<C>,
    a2: Handshaker<C>,
    a3: Handshaker<C>,
    b0: Handshaker<C>,
    b1: Handshaker<C>,
    b2: Handshaker<C>,
    a_addr: SockAddr,
    b_addr: SockAddr,
    and_then: Option<C>,
    t_hello: i64,
    t_ohai: i64,
    t_okboss: i64,
    t_goteam: i64,
    t_done: i64,
    s1: Seq<HandshakeAction<C>>,
    s2: Seq<HandshakeAction<C>>,
    s3: Seq<HandshakeAction<C>>,
    s4: Seq<HandshakeAction<C>>,
    s5: Seq<HandshakeAction<C>>,
    i: int,
    j: int,
)
    requires
        keys_hashed(a0),
        keys_hashed(b0),
        0 <= i < a0.keys@.len(),
        0 <= j < b0.keys@.len(),
        a0.keys@[i]@ == b0.keys@[j]@,
        a0.node_id != b0.node_id,
        hello_sent(a0, a1, b_addr, and_then, t_hello, s1),
        timestamp_in_window(t_hello, t_ohai),
        timestamp_in_window(t_hello, t_okboss),
        handshake_handled(b0, b1, a_addr, s1[1]->handshake, a0.node_id, t_ohai, s2),
        handshake_handled(a1, a2, b_addr, s2[1]->handshake, b0.node_id, t_okboss, s3),
        handshake_handled(b1, b2, a_addr, s3[1]->handshake, a0.node_id, t_goteam, s4),
        handshake_handled(a2, a3, b_addr, s4[2]->handshake, b0.node_id, t_done, s5),
    ensures
        s4[1] matches HandshakeAction::PeerUp(p) && p.id == a0.node_id && p.spec_is_handshaken(),
        s5[0] matches HandshakeAction::PeerUp(p) && p.id == b0.node_id && p.spec_is_handshaken(),
        and_then matches Some(c) ==> s5[1] == HandshakeAction::<C>::Continue(c),
{
    let ka = a0.hashed_keys->Some_0;
    let kb = b0.hashed_keys->Some_0;
    assert(ka@[i]@ == kb@[j]@);
    // the hello
    let hello = s1[1]->handshake;
    let id = hello.id;
    let key_a = HandshakeKey { id, addr: b_addr };
    let key_b = HandshakeKey { id, addr: a_addr };
    let hmacs_a = hello.step->Hello_hmacs;
    assert(hmac_validates(hmacs_a@[i], t_hello, ka@[i]@));
    assert(hmac_validates(hmacs_a@[i], t_hello, kb@[j]@));
    assert(some_hmac_validates(hmacs_a@, t_hello, kb@));
    assert(b0.spec_has_valid_hmac(t_hello, hmacs_a@, t_ohai));
    // the ohai
    let ohai = s2[1]->handshake;
    let st_b = b1.ohais@[key_b];
    let hmacs_b = ohai.step->Ohai_hmacs;
    assert(ohai.id == id);
    assert(a1.hellos@.dom().contains(key_a));
    assert(a1.hellos@[key_a].timestamp == t_hello);
    assert(hmac_validates(hmacs_b@[j], t_hello, kb@[j]@));
    assert(hmac_validates(hmacs_b@[j], t_hello, ka@[i]@));
    assert(some_hmac_validates(hmacs_b@, t_hello, ka@));
    assert(a1.spec_has_valid_hmac(a1.hellos@[key_a].timestamp, hmacs_b@, t_okboss));
    // the okboss
    let okboss = s3[1]->handshake;
    let response = okboss.step->OkBoss_response;
    let challenge = ohai.step->Ohai_challenge;
    let pk = ohai.step->Ohai_pk;
    assert(okboss.id == id);
    assert(b1.ohais@.dom().contains(key_b));
    assert(responses_for(response@, a0.keys@, challenge@, pk@, id));
    law_shared_key_accepted(response@, a0.keys@, b0.keys@, challenge@, pk@, id, i, j);
    assert(challenge@ == st_b.challenge->Some_0@);
    assert(pk == st_b.peer.our_keypair->Some_0.public_key);
    // the goteam
    let goteam = s4[2]->handshake;
    assert(goteam.id == id);
    assert(a2.okboss@.dom().contains(key_a));
}

} // verus!

verus! {

use crate::bytes::lemma_decimal_i64_injective;

/// BLAKE2b gives distinct digests for distinct keys or data: the premise of
/// the laws below, which nothing here assumes or proves.
pub open spec fn blake2b_collision_free() -> bool {
    forall|k1: Option<Seq<u8>>, d1: Seq<u8>, k2: Option<Seq<u8>>, d2: Seq<u8>|
        #[trigger] blake2b_512(k1, d1) == #[trigger] blake2b_512(k2, d2) ==> k1 == k2 && d1 == d2
}

/// With a collision-free BLAKE2b, an HMAC that validates for one key and
/// timestamp validates for no other key and no other timestamp.
pub proof fn law_hmac_binds_key_and_timestamp(h: Hmac, ts1: i64, k1: Seq<u8>, ts2: i64, k2: Seq<u8>)
    requires
        blake2b_collision_free(),
        hmac_validates(h, ts1, k1),
        hmac_validates(h, ts2, k2),
    ensures
        ts1 == ts2,
        k1 == k2,
{
    let m = h.message@;
    let d1 = m + decimal_i64(ts1);
    let d2 = m + decimal_i64(ts2);
    assert(blake2b_512(Some(k1), d1) == blake2b_512(Some(k2), d2));
    assert(d1 == d2);
    assert(d1.subrange(m.len() as int, d1.len() as int) =~= decimal_i64(ts1));
    assert(d2.subrange(m.len() as int, d2.len() as int) =~= decimal_i64(ts2));
    lemma_decimal_i64_injective(ts1, ts2);
}

/// With a collision-free BLAKE2b, an okboss is accepted only when the two
/// nodes share a key: responses computed with the initiator's keys are
/// accepted for the responder's keys only if some key is in both.
pub proof fn law_accepted_only_with_shared_key(
    responses: Seq<Vec<u8>>,
    initiator_keys: Seq<String>,
    responder_keys: Seq<String>,
    challenge: Seq<u8>,
    public_key: Seq<u8>,
    id: u128,
)
    requires
        blake2b_collision_free(),
        responses_for(responses, initiator_keys, challenge, public_key, id),
        response_accepted(responses, responder_keys, challenge, public_key, id),
    ensures
        exists|i: int, j: int|
            0 <= i < initiator_keys.len() && 0 <= j < responder_keys.len() && #[trigger] initiator_keys[i]@
                == #[trigger] responder_keys[j]@,
{
    let (i, j) = choose|i: int, j: int|
        0 <= i < responder_keys.len() && 0 <= j < responses.len() && #[trigger] responses[j]@
            == response_for(#[trigger] responder_keys[i]@, challenge, public_key, id);
    let ka = initiator_keys[j]@;
    let kb = responder_keys[i]@;
    assert(responses[j]@ == response_for(ka, challenge, public_key, id));
    let rest = challenge + public_key + id_bytes(id);
    let ea = vstd::utf8::encode_utf8(ka);
    let eb = vstd::utf8::encode_utf8(kb);
    assert(ea + challenge + public_key + id_bytes(id) =~= ea + rest);
    assert(eb + challenge + public_key + id_bytes(id) =~= eb + rest);
    assert(ea + rest == eb + rest);
    assert(ea =~= (ea + rest).subrange(0, ea.len() as int));
    assert(eb =~= (eb + rest).subrange(0, eb.len() as int));
    assert(ea == eb);
    vstd::utf8::encode_utf8_decode_utf8(ka);
    vstd::utf8::encode_utf8_decode_utf8(kb);
    assert(ka == kb);
}

} // verus!

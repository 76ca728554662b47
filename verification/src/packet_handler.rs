//! Packet bookkeeping of one node: sequence numbers and pacing per address,
//! rate control, encryption, and what becomes of each received packet.
use vstd::prelude::*;
use crate::handshake::Handshake;
use crate::message::{Body, Message, SeqRange};
use crate::packet::{Packet, Payload};
use crate::peer::{PeerKeys, SockAddr};
use crate::peer_manager::{PeerRequest, PeerStatus, same_request};
use crate::bytes::copy_bytes;
use crate::sequence::{Seq32, Sequence, next_seq};
use crate::table::Table;
use crate::outside::{
    box_open, box_seal, lru_after_put, lru_capacity, lru_keys, lru_new, lru_put, new_nonce, new_std_rng,
    open_box, seal_box, gen_range_u64, lru_contains, x25519_public,
};

verus! {

/// The pacing interval of an address before rate control has seen it:
/// about 100,000 packets per second.
pub const RC_DEFAULT_PACKET_INTERVAL_NANOS: u64 = 10_000;

/// How often rate control runs.
pub const RC_TIMER_MS: u64 = 60_000;

/// Pacing eases for an address while fewer than one packet in this many
/// was reported lost.
pub const RC_LOSS_RATE_INVERSE: u64 = 1_000;

/// How much easing shortens the pacing interval, in nanoseconds.
pub const RC_DELAY_DECREASE: u64 = 100;

/// Bounds, in thousandths, of the random factor a loss report stretches the
/// pacing interval by.
pub const RC_DELAY_INCREASE_MIN_PERMILLE: u64 = 2_000;

pub const RC_DELAY_INCREASE_MAX_PERMILLE: u64 = 8_000;

/// How many message ids are remembered to drop repeats.
pub const SEEN_CAPACITY: usize = 10_000;

/// A packet ready for the wire, and the earliest time (in nanoseconds on
/// the caller's monotonic clock) at which it may leave.
#[derive(Debug)]
pub struct Transmission {
    pub to: SockAddr,
    pub packet: Packet,
    pub not_before: Option<u128>,
}

/// What the packet handler asks the rest of the node to do, in order.
#[derive(Debug)]
pub enum PacketAction {
    /// Put a packet on the wire.
    Transmit(Transmission),
    /// Hand a handshake step to the handshaker.
    Handshake { from: SockAddr, handshake: Handshake, id: u128 },
    /// The plaintext of an encrypted packet: decode it into a message and
    /// hand it back, with the rest, to `recv_message`.
    Opened { plaintext: Vec<u8>, from: SockAddr, packet_id: u128, nak: Option<SeqRange> },
    /// Hand a broadcast to the application's handler.
    Deliver(Vec<u8>),
    /// Encode `message`, then encrypt and send it to each of `targets`.
    SendMessage { targets: Vec<u128>, message: Message },
    /// Hand a peer's request to the membership service.
    PeerRequest { from_id: u128, request: Box<PeerRequest> },
}

/// The packet handler of one node.
pub struct PacketHandler {
    pub node_id: u128,
    /// Whether the socket is bound and packets can be sent.
    pub started: bool,
    /// The last sequence number sent to each address.
    pub tx_sequences: Table<SockAddr, Seq32>,
    /// The last sequence number received from each address.
    pub rx_sequences: Table<SockAddr, Seq32>,
    /// When the last packet to each address was sent, in nanoseconds.
    pub last_tx: Table<SockAddr, u64>,
    /// How many packets each address reported lost.
    pub nak_count: Table<SockAddr, u32>,
    /// The pacing interval of each address, in nanoseconds.
    pub tx_delay: Table<SockAddr, u64>,
    /// The sequence numbers rate control counts from.
    pub rc_sequences: Table<SockAddr, Seq32>,
    /// The keys of each handshaken peer.
    pub keys: Table<u128, PeerKeys>,
    pub subscribers: Vec<u128>,
    /// The ids of recently handled messages.
    pub seen: lru::LruCache<u128, ()>,
    /// Whether the application installed a broadcast handler.
    pub has_handler: bool,
    pub rng: rand::rngs::StdRng,
}

/// The last sequence number in `m` for `a`, zero when there is none.
pub open spec fn seq_in(m: Map<SockAddr, Seq32>, a: SockAddr) -> u32 {
    if m.dom().contains(a) {
        m[a].0
    } else {
        0
    }
}

/// The pacing interval in `m` for `a`, the default when there is none.
pub open spec fn delay_in(m: Map<SockAddr, u64>, a: SockAddr) -> u64 {
    if m.dom().contains(a) {
        m[a]
    } else {
        RC_DEFAULT_PACKET_INTERVAL_NANOS
    }
}

impl PacketHandler {
    pub open spec fn wf(&self) -> bool {
        &&& self.tx_sequences.wf()
        &&& self.rx_sequences.wf()
        &&& self.last_tx.wf()
        &&& self.nak_count.wf()
        &&& self.tx_delay.wf()
        &&& self.rc_sequences.wf()
        &&& self.keys.wf()
        &&& lru_capacity(self.seen) == SEEN_CAPACITY
    }

    /// A packet handler that knows nothing yet and has no socket.
    pub fn new(node_id: u128) -> (r: Self)
        ensures
            r.wf(),
            r.node_id == node_id,
            !r.started,
            r.tx_sequences@ == Map::<SockAddr, Seq32>::empty(),
            r.rx_sequences@ == Map::<SockAddr, Seq32>::empty(),
            r.last_tx@ == Map::<SockAddr, u64>::empty(),
            r.nak_count@ == Map::<SockAddr, u32>::empty(),
            r.tx_delay@ == Map::<SockAddr, u64>::empty(),
            r.rc_sequences@ == Map::<SockAddr, Seq32>::empty(),
            r.keys@ == Map::<u128, PeerKeys>::empty(),
            r.subscribers@ == Seq::<u128>::empty(),
            lru_keys(r.seen) == Seq::<u128>::empty(),
            lru_capacity(r.seen) == SEEN_CAPACITY,
            !r.has_handler,
    {
        PacketHandler {
            node_id,
            started: false,
            tx_sequences: Table::new(),
            rx_sequences: Table::new(),
            last_tx: Table::new(),
            nak_count: Table::new(),
            tx_delay: Table::new(),
            rc_sequences: Table::new(),
            keys: Table::new(),
            subscribers: Vec::new(),
            seen: lru_new(SEEN_CAPACITY),
            has_handler: false,
            rng: new_std_rng(),
        }
    }

    /// The socket is bound: packets can be sent from now on.
    pub fn start(&mut self)
        ensures
            *final(self) == (PacketHandler { started: true, ..*old(self) }),
    {
        self.started = true;
    }

    /// Records whether the application has a broadcast handler.
    pub fn set_broadcast_handler(&mut self, has_handler: bool)
        ensures
            *final(self) == (PacketHandler { has_handler, ..*old(self) }),
    {
        self.has_handler = has_handler;
    }
}

/// How many packets went to `a` since rate control's mark, counted in the
/// wrapping 32-bit sequence space.
pub open spec fn sent_count(ph: PacketHandler, a: SockAddr) -> int {
    let s = seq_in(ph.tx_sequences@, a);
    let m = seq_in(ph.rc_sequences@, a);
    if s >= m {
        s - m
    } else {
        s - m + 0x1_0000_0000
    }
}

/// How many packets `a` reported lost.
pub open spec fn nak_of(ph: PacketHandler, a: SockAddr) -> u32 {
    if ph.nak_count@.dom().contains(a) {
        ph.nak_count@[a]
    } else {
        0
    }
}

/// Pacing to `a` eases when packets went to it and its loss rate (losses
/// over packets sent, zero when none were sent) is below one in
/// `RC_LOSS_RATE_INVERSE`.
pub open spec fn eases(ph: PacketHandler, a: SockAddr) -> bool {
    &&& ph.tx_sequences@.dom().contains(a)
    &&& sent_count(ph, a) == 0 || RC_LOSS_RATE_INVERSE * nak_of(ph, a) < sent_count(ph, a)
}

/// An eased pacing interval: shorter by `RC_DELAY_DECREASE` down to zero,
/// or the default where there was none.
pub open spec fn eased(d: Option<u64>) -> u64 {
    match d {
        Some(d) => if d > RC_DELAY_DECREASE {
            (d - RC_DELAY_DECREASE) as u64
        } else {
            0
        },
        None => RC_DEFAULT_PACKET_INTERVAL_NANOS,
    }
}

/// The pacing intervals after rate control.
pub open spec fn eased_delays(ph: PacketHandler) -> Map<SockAddr, u64> {
    Map::new(
        |a: SockAddr| ph.tx_delay@.dom().contains(a) || eases(ph, a),
        |a: SockAddr|
            if eases(ph, a) {
                eased(ph.tx_delay@.get(a))
            } else {
                ph.tx_delay@[a]
            },
    )
}

/// What rate control does: the pacing intervals are eased, and a new
/// interval starts from the sequence numbers sent so far, with no losses.
pub open spec fn rate_controlled(pre: PacketHandler, post: PacketHandler) -> bool {
    &&& post == (PacketHandler {
        tx_delay: post.tx_delay,
        rc_sequences: post.rc_sequences,
        nak_count: post.nak_count,
        ..pre
    })
    &&& post.tx_delay@ == eased_delays(pre)
    &&& post.rc_sequences@ == pre.tx_sequences@
    &&& post.nak_count@ == Map::<SockAddr, u32>::empty()
}

/// The pacing intervals once the addresses of `done` were eased.
pub open spec fn partly_eased(ph: PacketHandler, done: Seq<SockAddr>) -> Map<SockAddr, u64> {
    Map::new(
        |a: SockAddr| ph.tx_delay@.dom().contains(a) || (done.contains(a) && eases(ph, a)),
        |a: SockAddr|
            if done.contains(a) && eases(ph, a) {
                eased(ph.tx_delay@.get(a))
            } else {
                ph.tx_delay@[a]
            },
    )
}

proof fn lemma_partly_eased_step(ph: PacketHandler, done: Seq<SockAddr>, a: SockAddr)
    requires
        !done.contains(a),
    ensures
        partly_eased(ph, done.push(a)) == if eases(ph, a) {
            partly_eased(ph, done).insert(a, eased(ph.tx_delay@.get(a)))
        } else {
            partly_eased(ph, done)
        },
        partly_eased(ph, done).dom().contains(a) == ph.tx_delay@.dom().contains(a),
        ph.tx_delay@.dom().contains(a) ==> partly_eased(ph, done)[a] == ph.tx_delay@[a],
{
    let next = done.push(a);
    assert forall|x: SockAddr| x != a implies (next.contains(x) == done.contains(x)) by {
        if next.contains(x) {
            let j = choose|j: int| 0 <= j < next.len() && next[j] == x;
            assert(j < done.len());
            assert(done[j] == x);
        }
        if done.contains(x) {
            let j = choose|j: int| 0 <= j < done.len() && done[j] == x;
            assert(next[j] == x);
        }
    }
    assert(next[done.len() as int] == a);
    if eases(ph, a) {
        assert(partly_eased(ph, next) =~= partly_eased(ph, done).insert(a, eased(ph.tx_delay@.get(a))));
    } else {
        assert(partly_eased(ph, next) =~= partly_eased(ph, done));
    }
}

impl PacketHandler {
    /// Eases the pacing of every address whose loss rate over the interval
    /// since the previous run is low, then starts the next interval: the
    /// sequence numbers sent so far become the mark, and the loss counts
    /// start again from zero.
    pub fn update_rate_control(&mut self)
        requires
            old(self).wf(),
        ensures
            final(self).wf(),
            rate_controlled(*old(self), *final(self)),
    {
        let ghost pre = *self;
        let ghost keys = self.tx_sequences.key_seq();
        proof {
            self.tx_sequences.lemma_len();
        }
        let mut i: usize = 0;
        while i < self.tx_sequences.len()
            invariant
                self.wf(),
                *self == (PacketHandler { tx_delay: self.tx_delay, ..pre }),
                keys == pre.tx_sequences.key_seq(),
                keys.no_duplicates(),
                i <= keys.len(),
                self.tx_delay@ == partly_eased(pre, keys.subrange(0, i as int)),
            decreases keys.len() - i,
        {
            let a = self.tx_sequences.key_at(i);
            let s = self.tx_sequences.value_at(i).0;
            proof {
                pre.tx_sequences.lemma_entry(i as int);
                assert(!keys.subrange(0, i as int).contains(a)) by {
                    if keys.subrange(0, i as int).contains(a) {
                        let j = choose|j: int| 0 <= j < i && keys.subrange(0, i as int)[j] == a;
                        assert(keys[j] == keys[i as int]);
                    }
                }
            }
            let mark: u32 = match self.rc_sequences.get(&a) {
                Some(m) => m.0,
                None => 0,
            };
            let count: u32 = s.wrapping_sub(mark);
            let naks: u32 = match self.nak_count.get(&a) {
                Some(n) => *n,
                None => 0,
            };
            let low = count == 0 || RC_LOSS_RATE_INVERSE * (naks as u64) < count as u64;
            proof {
                assert(low == eases(pre, a));
            }
            let ghost before = self.tx_delay@;
            if low {
                let d = match self.tx_delay.get(&a) {
                    Some(d) => if *d > RC_DELAY_DECREASE {
                        *d - RC_DELAY_DECREASE
                    } else {
                        0
                    },
                    None => RC_DEFAULT_PACKET_INTERVAL_NANOS,
                };
                proof {
                    assert(before.get(a) == pre.tx_delay@.get(a));
                }
                self.tx_delay.insert(a, d);
            }
            proof {
                let done = keys.subrange(0, i as int);
                let sub = keys.subrange(0, i as int + 1);
                assert(sub =~= done.push(a));
                lemma_partly_eased_step(pre, done, a);
            }
            i = i + 1;
        }
        proof {
            assert(keys.subrange(0, i as int) =~= keys);
            assert forall|a: SockAddr| keys.contains(a) <==> pre.tx_sequences@.dom().contains(a) by {
                pre.tx_sequences.lemma_len();
                assert(pre.tx_sequences@.dom() == keys.to_set());
            }
            assert(partly_eased(pre, keys) =~= eased_delays(pre));
        }
        self.rc_sequences = self.tx_sequences.copy();
        self.nak_count.clear();
    }
}

} // verus!

verus! {

/// The sequence numbers after one packet to each of `addrs`, in order.
pub open spec fn seqs_after(m: Map<SockAddr, Seq32>, addrs: Seq<SockAddr>) -> Map<SockAddr, Seq32>
    decreases addrs.len(),
{
    if addrs.len() == 0 {
        m
    } else {
        let p = seqs_after(m, addrs.drop_last());
        let a = addrs.last();
        p.insert(a, Sequence(next_seq(seq_in(p, a))))
    }
}

/// The addresses of a list of payloads.
pub open spec fn addrs_of(payloads: Seq<(Payload, SockAddr)>) -> Seq<SockAddr> {
    payloads.map_values(|p: (Payload, SockAddr)| p.1)
}

/// What `send` does: when started, the packet gets the next sequence number
/// for `to`, and may leave once the pacing interval has passed since the
/// previous packet to `to`.
pub open spec fn sent(
    pre: PacketHandler,
    post: PacketHandler,
    payload: Payload,
    to: SockAddr,
    now: u64,
    r: Option<Transmission>,
) -> bool {
    if pre.started {
        let s = next_seq(seq_in(pre.tx_sequences@, to));
        &&& post.wf()
        &&& post == (PacketHandler { tx_sequences: post.tx_sequences, last_tx: post.last_tx, ..pre })
        &&& post.tx_sequences@ == pre.tx_sequences@.insert(to, Sequence(s))
        &&& post.last_tx@ == pre.last_tx@.insert(to, now)
        &&& r matches Some(t) && t.to == to && t.packet.s == Sequence(s) && t.packet.id == pre.node_id
            && t.packet.p == payload && t.not_before == if pre.last_tx@.dom().contains(to) {
            Some((pre.last_tx@[to] + delay_in(pre.tx_delay@, to)) as u128)
        } else {
            None::<u128>
        }
    } else {
        post == pre && r is None
    }
}

/// What `multisend` does: when started, each payload gets the next sequence
/// number for its address and may leave at once.
pub open spec fn multisent(
    pre: PacketHandler,
    post: PacketHandler,
    payloads: Seq<(Payload, SockAddr)>,
    r: Seq<Transmission>,
) -> bool {
    if pre.started {
        let addrs = addrs_of(payloads);
        &&& post.wf()
        &&& post == (PacketHandler { tx_sequences: post.tx_sequences, ..pre })
        &&& post.tx_sequences@ == seqs_after(pre.tx_sequences@, addrs)
        &&& r.len() == payloads.len()
        &&& forall|i: int|
            0 <= i < r.len() ==> {
                &&& #[trigger] r[i].to == payloads[i].1
                &&& r[i].packet.p == payloads[i].0
                &&& r[i].packet.id == pre.node_id
                &&& r[i].packet.s == seqs_after(pre.tx_sequences@, addrs.take(i + 1))[addrs[i]]
                &&& r[i].not_before is None
            }
    } else {
        post == pre && r.len() == 0
    }
}

impl PacketHandler {
    /// Advances the sequence number for `to` and returns it.
    fn bump_tx_seq(&mut self, to: SockAddr) -> (r: Seq32)
        requires
            old(self).wf(),
        ensures
            final(self).wf(),
            r == Sequence(next_seq(seq_in(old(self).tx_sequences@, to))),
            final(self).tx_sequences@ == old(self).tx_sequences@.insert(to, r),
            *final(self) == (PacketHandler { tx_sequences: final(self).tx_sequences, ..*old(self) }),
    {
        let mut s: Seq32 = match self.tx_sequences.get(&to) {
            Some(s) => *s,
            None => Sequence::new(),
        };
        s.inc();
        self.tx_sequences.insert(to, s);
        s
    }

    /// Numbers `payload` for `to` and paces it after the previous packet to
    /// `to`; `now` is the current time in nanoseconds on a monotonic clock.
    /// Nothing is sent before the socket is bound.
    pub fn send(&mut self, payload: Payload, to: SockAddr, now: u64) -> (r: Option<Transmission>)
        requires
            old(self).wf(),
        ensures
            final(self).wf(),
            sent(*old(self), *final(self), payload, to, now, r),
    {
        if !self.started {
            return None;
        }
        let s = self.bump_tx_seq(to);
        let packet = Packet { s, id: self.node_id, p: payload };
        let prev_tx = self.last_tx.insert(to, now);
        let delay: u64 = match self.tx_delay.get(&to) {
            Some(d) => *d,
            None => RC_DEFAULT_PACKET_INTERVAL_NANOS,
        };
        let not_before: Option<u128> = match prev_tx {
            Some(p) => Some(p as u128 + delay as u128),
            None => None,
        };
        Some(Transmission { to, packet, not_before })
    }

    /// Numbers each payload for its address; they may all leave at once.
    /// Nothing is sent before the socket is bound.
    pub fn multisend(&mut self, payloads: Vec<(Payload, SockAddr)>) -> (r: Vec<Transmission>)
        requires
            old(self).wf(),
        ensures
            final(self).wf(),
            multisent(*old(self), *final(self), payloads@, r@),
    {
        let ghost pre = *self;
        let ghost all = payloads@;
        let ghost addrs = addrs_of(all);
        let mut out: Vec<Transmission> = Vec::new();
        if !self.started {
            return out;
        }
        let mut rest = payloads;
        while rest.len() > 0
            invariant
                self.wf(),
                pre.started,
                *self == (PacketHandler { tx_sequences: self.tx_sequences, ..pre }),
                out@.len() <= all.len(),
                rest@ == all.skip(out@.len() as int),
                addrs == addrs_of(all),
                self.tx_sequences@ == seqs_after(pre.tx_sequences@, addrs.take(out@.len() as int)),
                forall|i: int|
                    0 <= i < out@.len() ==> {
                        &&& #[trigger] out@[i].to == all[i].1
                        &&& out@[i].packet.p == all[i].0
                        &&& out@[i].packet.id == pre.node_id
                        &&& out@[i].packet.s == seqs_after(pre.tx_sequences@, addrs.take(i + 1))[addrs[i]]
                        &&& out@[i].not_before is None
                    },
            decreases rest@.len(),
        {
            let n = out.len();
            let ghost before = rest@;
            let (p, a) = rest.remove(0);
            proof {
                assert(before[0] == all[n as int]);
            }
            let s = self.bump_tx_seq(a);
            proof {
                let t = addrs.take(n as int + 1);
                assert(t.drop_last() =~= addrs.take(n as int));
                assert(t.last() == a);
                assert(addrs[n as int] == a);
            }
            out.push(Transmission { to: a, packet: Packet { s, id: self.node_id, p }, not_before: None });
            proof {
                assert(rest@ =~= all.skip(out@.len() as int));
            }
        }
        proof {
            assert(addrs.take(all.len() as int) =~= addrs);
        }
        out
    }
}

} // verus!

verus! {

/// The keys of those of `targets` that have keys, in order.
pub open spec fn keyed(keys: Map<u128, PeerKeys>, targets: Seq<u128>) -> Seq<PeerKeys>
    decreases targets.len(),
{
    if targets.len() == 0 {
        Seq::empty()
    } else {
        let rest = keyed(keys, targets.drop_last());
        if keys.dom().contains(targets.last()) {
            rest.push(keys[targets.last()])
        } else {
            rest
        }
    }
}

/// The box of `plain` for the peer of `k` under `nonce`.
pub open spec fn sealed_for(plain: Seq<u8>, k: PeerKeys, nonce: [u8; 24]) -> Option<Seq<u8>> {
    box_seal(plain, nonce@, k.their_public_key@, k.keypair.secret_key@)
}

/// `r` holds, in order, an encrypted payload for each attempt (keys and
/// nonce) whose sealing succeeded, addressed to that peer.
pub open spec fn seals(plain: Seq<u8>, attempts: Seq<(PeerKeys, [u8; 24])>, r: Seq<(Payload, SockAddr)>) -> bool
    decreases attempts.len(),
{
    if attempts.len() == 0 {
        r.len() == 0
    } else {
        let k = attempts.last().0;
        let n = attempts.last().1;
        match sealed_for(plain, k, n) {
            Some(c) => {
                &&& r.len() > 0
                &&& r.last().1 == k.sockaddr
                &&& r.last().0 matches Payload::B(b, m) && b@ == c && m == n
                &&& seals(plain, attempts.drop_last(), r.drop_last())
            },
            None => seals(plain, attempts.drop_last(), r),
        }
    }
}

/// What the packet handler opens a box from peer `id` to, if anything.
pub open spec fn opened(ph: PacketHandler, id: u128, boxed: Seq<u8>, nonce: Seq<u8>) -> Option<Seq<u8>> {
    if ph.keys@.dom().contains(id) {
        box_open(boxed, nonce, ph.keys@[id].their_public_key@, ph.keys@[id].keypair.secret_key@)
    } else {
        None
    }
}

/// A box sealed, for the public key of this handler's own key pair for peer
/// `id`, by the holder of the secret key behind the public key held for
/// `id`, opens to what was sealed.
pub open spec fn opens_what_was_sealed(ph: PacketHandler, id: u128, boxed: Seq<u8>, nonce: Seq<u8>) -> bool {
    ph.keys@.dom().contains(id) ==> forall|m: Seq<u8>, sender_secret_key: Seq<u8>|
        x25519_public(sender_secret_key) == ph.keys@[id].their_public_key@ && #[trigger] box_seal(
            m,
            nonce,
            x25519_public(ph.keys@[id].keypair.secret_key@),
            sender_secret_key,
        ) == Some(boxed) ==> opened(ph, id, boxed, nonce) == Some(m)
}

/// What `decrypt` gives: what the box opens to with the keys held for
/// `id`, if any.
pub open spec fn decrypted(
    ph: PacketHandler,
    id: u128,
    boxed: Seq<u8>,
    nonce: Seq<u8>,
    r: Option<Vec<u8>>,
) -> bool {
    &&& match r {
        Some(m) => opened(ph, id, boxed, nonce) == Some(m@),
        None => opened(ph, id, boxed, nonce) is None,
    }
    &&& opens_what_was_sealed(ph, id, boxed, nonce)
}

/// What `encrypt_and_send_messages` does: the message id is remembered as
/// seen, the message is sealed under a fresh nonce for each target that has
/// keys, and what was sealed is sent.
pub open spec fn messages_sent(
    pre: PacketHandler,
    post: PacketHandler,
    targets: Seq<u128>,
    message_id: u128,
    plain: Seq<u8>,
    r: Seq<Transmission>,
) -> bool {
    let mid = PacketHandler { seen: post.seen, ..pre };
    &&& lru_keys(post.seen) == lru_after_put(lru_keys(pre.seen), lru_capacity(pre.seen), message_id)
    &&& lru_capacity(post.seen) == lru_capacity(pre.seen)
    &&& exists|attempts: Seq<(PeerKeys, [u8; 24])>, payloads: Seq<(Payload, SockAddr)>|
        {
            &&& attempts.map_values(|a: (PeerKeys, [u8; 24])| a.0) == keyed(pre.keys@, targets)
            &&& seals(plain, attempts, payloads)
            &&& multisent(mid, post, payloads, r)
        }
}

impl PacketHandler {
    /// Seals `plain` for the peer of `k` under a fresh nonce.
    pub fn encrypt(plain: &[u8], k: &PeerKeys) -> (r: Option<(Vec<u8>, [u8; 24])>)
        ensures
            match r {
                Some((c, n)) => sealed_for(plain@, *k, n) == Some(c@),
                None => exists|n: [u8; 24]| sealed_for(plain@, *k, n) is None,
            },
    {
        let nonce = new_nonce();
        match seal_box(plain, &nonce, &k.their_public_key, &k.keypair.secret_key) {
            Some(c) => Some((c, nonce)),
            None => {
                assert(sealed_for(plain@, *k, nonce) is None);
                None
            },
        }
    }

    /// Opens a box from peer `id` with the keys held for it.
    pub fn decrypt(&self, id: u128, boxed: &[u8], nonce: &[u8; 24]) -> (r: Option<Vec<u8>>)
        requires
            self.wf(),
        ensures
            decrypted(*self, id, boxed@, nonce@, r),
    {
        match self.keys.get(&id) {
            Some(k) => open_box(boxed, nonce, &k.their_public_key, &k.keypair.secret_key),
            None => None,
        }
    }

    /// Seals `plain` for each of `targets` that has keys.
    fn seal_for(&self, targets: &Vec<u128>, plain: &[u8]) -> (r: Vec<(Payload, SockAddr)>)
        requires
            self.wf(),
        ensures
            exists|attempts: Seq<(PeerKeys, [u8; 24])>|
                attempts.map_values(|a: (PeerKeys, [u8; 24])| a.0) == keyed(self.keys@, targets@)
                    && seals(plain@, attempts, r@),
    {
        let mut r: Vec<(Payload, SockAddr)> = Vec::new();
        let ghost mut attempts: Seq<(PeerKeys, [u8; 24])> = Seq::empty();
        let mut i: usize = 0;
        while i < targets.len()
            invariant
                self.wf(),
                i <= targets@.len(),
                attempts.map_values(|a: (PeerKeys, [u8; 24])| a.0) == keyed(
                    self.keys@,
                    targets@.subrange(0, i as int),
                ),
                seals(plain@, attempts, r@),
            decreases targets@.len() - i,
        {
            let ghost sub = targets@.subrange(0, i as int + 1);
            proof {
                assert(sub.drop_last() =~= targets@.subrange(0, i as int));
                assert(sub.last() == targets@[i as int]);
            }
            match self.keys.get(&targets[i]) {
                Some(k) => {
                    let ghost prev = r@;
                    match Self::encrypt(plain, k) {
                        Some((c, n)) => {
                            r.push((Payload::B(c, n), k.sockaddr));
                            proof {
                                let na = attempts.push((*k, n));
                                assert(na.drop_last() =~= attempts);
                                assert(r@.drop_last() =~= prev);
                                attempts = na;
                            }
                        },
                        None => {
                            proof {
                                let n = choose|n: [u8; 24]| sealed_for(plain@, *k, n) is None;
                                let na = attempts.push((*k, n));
                                assert(na.drop_last() =~= attempts);
                                attempts = na;
                            }
                        },
                    }
                    proof {
                        assert(attempts.map_values(|a: (PeerKeys, [u8; 24])| a.0) =~= keyed(
                            self.keys@,
                            sub,
                        ));
                    }
                },
                None => {},
            }
            i = i + 1;
        }
        proof {
            assert(targets@.subrange(0, i as int) =~= targets@);
        }
        r
    }

    /// Remembers `message_id` as seen, then seals the encoded message
    /// `plain` for each of `targets` that has keys and sends it.
    pub fn encrypt_and_send_messages(&mut self, targets: &Vec<u128>, message_id: u128, plain: &[u8]) -> (r:
        Vec<Transmission>)
        requires
            old(self).wf(),
        ensures
            final(self).wf(),
            messages_sent(*old(self), *final(self), targets@, message_id, plain@, r@),
    {
        lru_put(&mut self.seen, message_id);
        let payloads = self.seal_for(targets, plain);
        let ghost pl = payloads@;
        let r = self.multisend(payloads);
        proof {
            let attempts = choose|attempts: Seq<(PeerKeys, [u8; 24])>|
                attempts.map_values(|a: (PeerKeys, [u8; 24])| a.0) == keyed(old(self).keys@, targets@)
                    && seals(plain@, attempts, pl);
            assert(multisent(PacketHandler { seen: self.seen, ..*old(self) }, *self, pl, r@));
        }
        r
    }

    /// As `encrypt_and_send_messages`, for one target.
    pub fn encrypt_and_send_message(&mut self, target: u128, message_id: u128, plain: &[u8]) -> (r: Vec<
        Transmission,
    >)
        requires
            old(self).wf(),
        ensures
            final(self).wf(),
            messages_sent(*old(self), *final(self), seq![target], message_id, plain@, r@),
    {
        let mut targets: Vec<u128> = Vec::new();
        targets.push(target);
        assert(targets@ =~= seq![target]);
        self.encrypt_and_send_messages(&targets, message_id, plain)
    }
}

} // verus!

verus! {

/// Whether a packet numbered `s` comes after the one following `p`, in the
/// wrapping 32-bit sequence space: it is ahead of `p` by at least two and by
/// less than half the space (a number behind `p`, or equal to it, is a late
/// or repeated packet).
pub open spec fn skips_after(p: u32, s: u32) -> bool {
    2 <= s.wrapping_sub(p) < 0x8000_0000
}

/// The range of sequence numbers skipped between the previous packet from
/// an address and one numbered `s`: from the one after the previous
/// (wrapping) up to, not including, `s`. There is none when no packet came
/// before, or when `s` follows the previous one directly, is equal to it or
/// is behind it.
pub open spec fn missed_range(prev: Option<Seq32>, s: Seq32) -> Option<SeqRange> {
    match prev {
        Some(p) => if skips_after(p.0, s.0) {
            Some(SeqRange { start: p.0.wrapping_add(1), end: s.0 })
        } else {
            None
        },
        None => None,
    }
}

/// What `recv` does: the packet's sequence number becomes the last one from
/// its address; a handshake step goes to the handshaker; an encrypted
/// message is opened, and its plaintext is handed out together with the
/// range of sequence numbers missed before it.
pub open spec fn received(
    pre: PacketHandler,
    post: PacketHandler,
    packet: Packet,
    from: SockAddr,
    actions: Seq<PacketAction>,
) -> bool {
    &&& post.wf()
    &&& post == (PacketHandler { rx_sequences: post.rx_sequences, ..pre })
    &&& post.rx_sequences@ == pre.rx_sequences@.insert(from, packet.s)
    &&& match packet.p {
        Payload::H(h) => actions == seq![PacketAction::Handshake { from, handshake: h, id: packet.id }],
        Payload::B(c, n) => opens_what_was_sealed(pre, packet.id, c@, n@) && match opened(
            pre,
            packet.id,
            c@,
            n@,
        ) {
            Some(m) => {
                &&& actions.len() == 1
                &&& actions[0] matches PacketAction::Opened { plaintext, from: f, packet_id, nak }
                    && plaintext@ == m && f == from && packet_id == packet.id && nak == missed_range(
                    pre.rx_sequences@.get(from),
                    packet.s,
                )
            },
            None => actions.len() == 0,
        },
    }
}

/// A pacing interval stretched by `k` thousandths, saturating.
pub open spec fn scaled(d: u64, k: u64) -> u64 {
    if d * k / 1000 > u64::MAX {
        u64::MAX
    } else {
        (d * k / 1000) as u64
    }
}

/// The number of sequence numbers in a range, wrapping.
pub open spec fn range_len(r: SeqRange) -> u32 {
    r.end.wrapping_sub(r.start)
}

/// `action` asks to send `message`'s broadcast on to every subscriber.
pub open spec fn forwards_to_subscribers(ph: PacketHandler, action: PacketAction, id: u128, body: Body) -> bool {
    action matches PacketAction::SendMessage { targets, message } && targets@ == ph.subscribers@
        && message.id == id && match (message.body, body) {
        (Body::Broadcast(x), Body::Broadcast(y)) => x@ == y@,
        (Body::PeerRequest(x), Body::PeerRequest(y)) => same_request(*x, *y),
        _ => false,
    }
}

/// The id of a message now counts as seen; nothing else changed.
pub open spec fn marked_seen(pre: PacketHandler, post: PacketHandler, id: u128) -> bool {
    &&& post == (PacketHandler { seen: post.seen, ..pre })
    &&& lru_keys(post.seen) == lru_after_put(lru_keys(pre.seen), lru_capacity(pre.seen), id)
    &&& lru_capacity(post.seen) == lru_capacity(pre.seen)
}

/// What `recv_message` does with a decoded message from `from` (a packet of
/// peer `packet_id`): a message already seen is dropped; otherwise a
/// broadcast goes to the handler (if any) and on to the subscribers, a
/// peer's request goes on to the subscribers and to the membership service,
/// and a loss report raises the loss count of `from` and stretches its
/// pacing by a random factor between 2 and 8. Either way, a range of skipped
/// sequence numbers, if any, is reported back to the sender in a new message.
pub open spec fn message_received(
    pre: PacketHandler,
    post: PacketHandler,
    message: Message,
    from: SockAddr,
    packet_id: u128,
    nak: Option<SeqRange>,
    actions: Seq<PacketAction>,
) -> bool {
    let n: int = if nak is Some { 1 } else { 0 };
    let own = actions.take(actions.len() - n);
    &&& post.wf()
    &&& actions.len() >= n
    &&& nak matches Some(range) ==> actions.last() matches PacketAction::SendMessage { targets, message: m }
        && targets@ == seq![packet_id] && m.body == Body::Nak(range) && (m.id >> 76u128) & 0xfu128
        == 4u128
    &&& if lru_keys(pre.seen).contains(message.id) {
        post == pre && own.len() == 0
    } else {
        match message.body {
            Body::Broadcast(data) => {
                let d: int = if pre.has_handler { 1 } else { 0 };
                &&& marked_seen(pre, post, message.id)
                &&& own.len() == d + 1
                &&& d == 1 ==> (own[0] matches PacketAction::Deliver(x) && x@ == data@)
                &&& forwards_to_subscribers(pre, own[d], message.id, message.body)
            },
            Body::PeerRequest(request) => {
                &&& marked_seen(pre, post, message.id)
                &&& own.len() == 2
                &&& forwards_to_subscribers(pre, own[0], message.id, message.body)
                &&& own[1] == PacketAction::PeerRequest { from_id: packet_id, request }
            },
            Body::Frame(_) => post == pre && own.len() == 0,
            Body::Nak(range) => {
                &&& post.wf()
                &&& post == (PacketHandler {
                    nak_count: post.nak_count,
                    tx_delay: post.tx_delay,
                    rng: post.rng,
                    ..pre
                })
                &&& post.nak_count@ == pre.nak_count@.insert(
                    from,
                    nak_of(pre, from).wrapping_add(range_len(range)),
                )
                &&& if pre.tx_delay@.dom().contains(from) {
                    exists|k: u64|
                        RC_DELAY_INCREASE_MIN_PERMILLE <= k <= RC_DELAY_INCREASE_MAX_PERMILLE
                            && post.tx_delay@ == pre.tx_delay@.insert(
                            from,
                            scaled(pre.tx_delay@[from], k),
                        )
                } else {
                    post.tx_delay@ == pre.tx_delay@.insert(from, RC_DEFAULT_PACKET_INTERVAL_NANOS)
                }
                &&& own.len() == 0
            },
        }
    }
}

/// A copy of a list of ids.
pub fn copy_ids(ids: &Vec<u128>) -> (r: Vec<u128>)
    ensures
        r@ == ids@,
{
    let mut r: Vec<u128> = Vec::new();
    let mut i: usize = 0;
    while i < ids.len()
        invariant
            i <= ids@.len(),
            r@ == ids@.subrange(0, i as int),
        decreases ids@.len() - i,
    {
        r.push(ids[i]);
        i = i + 1;
        assert(r@ =~= ids@.subrange(0, i as int));
    }
    assert(ids@.subrange(0, i as int) =~= ids@);
    r
}

/// `d` stretched by `k` thousandths, saturating.
fn scale_delay(d: u64, k: u64) -> (r: u64)
    requires
        k <= RC_DELAY_INCREASE_MAX_PERMILLE,
    ensures
        r == scaled(d, k),
{
    assert((d as u128) * (k as u128) <= 0xffff_ffff_ffff_ffff * 8000) by (nonlinear_arith)
        requires
            k <= 8000,
    ;
    let p: u128 = (d as u128) * (k as u128) / 1000;
    if p > u64::MAX as u128 {
        u64::MAX
    } else {
        p as u64
    }
}

impl PacketHandler {
    /// Asks to send `message` to every subscriber.
    pub fn send_broadcast_to_subscribers(&self, message: Message) -> (r: PacketAction)
        ensures
            r matches PacketAction::SendMessage { targets, message: m } && targets@ == self.subscribers@
                && m == message,
    {
        PacketAction::SendMessage { targets: copy_ids(&self.subscribers), message }
    }

    /// Broadcasts `data` to the subscribers in a new message.
    pub fn send_broadcast(&self, data: Vec<u8>) -> (r: PacketAction)
        ensures
            r matches PacketAction::SendMessage { targets, message: m } && targets@ == self.subscribers@
                && m.body == Body::Broadcast(data) && (m.id >> 76u128) & 0xfu128 == 4u128,
    {
        self.send_broadcast_to_subscribers(Message::with_fresh_id(Body::Broadcast(data)))
    }

    /// Announces a peer status to the subscribers in a new message.
    pub fn send_peer_status(&self, peer_status: PeerStatus) -> (r: PacketAction)
        ensures
            r matches PacketAction::SendMessage { targets, message: m } && targets@ == self.subscribers@
                && m.body == Body::PeerRequest(Box::new(PeerRequest::PeerStatus(peer_status))) && (m.id
                >> 76u128) & 0xfu128 == 4u128,
    {
        self.send_broadcast_to_subscribers(
            Message::with_fresh_id(Body::PeerRequest(Box::new(PeerRequest::PeerStatus(peer_status)))),
        )
    }

    /// A broadcast goes to the handler, if any, and on to the subscribers.
    pub fn recv_broadcast(&self, id: u128, data: Vec<u8>) -> (r: Vec<PacketAction>)
        ensures
            r@.len() == if self.has_handler { 2int } else { 1int },
            self.has_handler ==> (r@[0] matches PacketAction::Deliver(x) && x@ == data@),
            forwards_to_subscribers(
                *self,
                r@.last(),
                id,
                Body::Broadcast(data),
            ),
    {
        let mut r: Vec<PacketAction> = Vec::new();
        if self.has_handler {
            r.push(PacketAction::Deliver(copy_bytes(data.as_slice())));
        }
        let ghost d = data;
        r.push(self.send_broadcast_to_subscribers(Message { id, body: Body::Broadcast(data) }));
        r
    }

    /// A peer's request goes on to the subscribers and to the membership
    /// service.
    pub fn recv_peer_request(
        &self,
        message_id: u128,
        from_id: u128,
        request: Box<PeerRequest>,
    ) -> (r: Vec<PacketAction>)
        ensures
            r@.len() == 2,
            forwards_to_subscribers(*self, r@[0], message_id, Body::PeerRequest(request)),
            r@[1] == (PacketAction::PeerRequest { from_id, request }),
    {
        let mut r: Vec<PacketAction> = Vec::new();
        let copy = request.copy();
        r.push(
            self.send_broadcast_to_subscribers(
                Message { id: message_id, body: Body::PeerRequest(Box::new(copy)) },
            ),
        );
        r.push(PacketAction::PeerRequest { from_id, request });
        r
    }

    /// Takes in a packet from `from`; the sequence numbers skipped before it,
    /// if any, are handed out with an opened message so that they are
    /// reported back to the sender.
    pub fn recv(&mut self, packet: Packet, from: SockAddr) -> (actions: Vec<PacketAction>)
        requires
            old(self).wf(),
        ensures
            received(*old(self), *final(self), packet, from, actions@),
    {
        let ghost pre = *self;
        let prev = self.rx_sequences.insert(from, packet.s);
        let nak: Option<SeqRange> = match prev {
            Some(p) => {
                let ahead = packet.s.0.wrapping_sub(p.0);
                if 2 <= ahead && ahead < 0x8000_0000 {
                    Some(SeqRange { start: p.0.wrapping_add(1), end: packet.s.0 })
                } else {
                    None
                }
            },
            None => None,
        };
        let mut actions: Vec<PacketAction> = Vec::new();
        match packet.p {
            Payload::H(handshake) => {
                actions.push(PacketAction::Handshake { from, handshake, id: packet.id });
            },
            Payload::B(boxed, nonce) => {
                match pre_decrypt(&*self, packet.id, boxed.as_slice(), &nonce) {
                    Some(plaintext) => {
                        actions.push(
                            PacketAction::Opened { plaintext, from, packet_id: packet.id, nak },
                        );
                    },
                    None => {},
                }
            },
        }
        proof {
            assert(pre.rx_sequences@.get(from) == prev);
        }
        actions
    }
}

impl PacketHandler {
    /// Raises the loss count of `from` by the length of `range`, and
    /// stretches its pacing by a random factor between 2 and 8 (or starts it
    /// at the default).
    fn record_nak(&mut self, from: SockAddr, range: SeqRange)
        requires
            old(self).wf(),
        ensures
            final(self).wf(),
            *final(self) == (PacketHandler {
                nak_count: final(self).nak_count,
                tx_delay: final(self).tx_delay,
                rng: final(self).rng,
                ..*old(self)
            }),
            final(self).nak_count@ == old(self).nak_count@.insert(
                from,
                nak_of(*old(self), from).wrapping_add(range_len(range)),
            ),
            if old(self).tx_delay@.dom().contains(from) {
                exists|k: u64|
                    RC_DELAY_INCREASE_MIN_PERMILLE <= k <= RC_DELAY_INCREASE_MAX_PERMILLE
                        && final(self).tx_delay@ == old(self).tx_delay@.insert(
                        from,
                        scaled(old(self).tx_delay@[from], k),
                    )
            } else {
                final(self).tx_delay@ == old(self).tx_delay@.insert(from, RC_DEFAULT_PACKET_INTERVAL_NANOS)
            },
    {
        let diff: u32 = range.end.wrapping_sub(range.start);
        let count: u32 = match self.nak_count.get(&from) {
            Some(c) => c.wrapping_add(diff),
            None => diff,
        };
        self.nak_count.insert(from, count);
        let current: Option<u64> = match self.tx_delay.get(&from) {
            Some(d) => Some(*d),
            None => None,
        };
        match current {
            Some(d) => {
                let k = gen_range_u64(
                    &mut self.rng,
                    RC_DELAY_INCREASE_MIN_PERMILLE,
                    RC_DELAY_INCREASE_MAX_PERMILLE + 1,
                );
                let nd = scale_delay(d, k);
                self.tx_delay.insert(from, nd);
                assert(self.tx_delay@ == old(self).tx_delay@.insert(from, scaled(old(self).tx_delay@[from], k)));
            },
            None => {
                self.tx_delay.insert(from, RC_DEFAULT_PACKET_INTERVAL_NANOS);
            },
        }
    }

    /// Handles a decoded message from `from`, carried in a packet of peer
    /// `packet_id`; `nak` is the range of sequence numbers missed before
    /// that packet, if any.
    pub fn recv_message(
        &mut self,
        message: Message,
        from: SockAddr,
        packet_id: u128,
        nak: Option<SeqRange>,
    ) -> (actions: Vec<PacketAction>)
        requires
            old(self).wf(),
        ensures
            message_received(*old(self), *final(self), message, from, packet_id, nak, actions@),
    {
        let ghost pre = *self;
        let ghost body = message.body;
        let id = message.id;
        let mut actions: Vec<PacketAction> = Vec::new();
        if !lru_contains(&self.seen, id) {
            match message.body {
                Body::Broadcast(data) => {
                    actions = self.recv_broadcast(id, data);
                    lru_put(&mut self.seen, id);
                },
                Body::PeerRequest(request) => {
                    actions = self.recv_peer_request(id, packet_id, request);
                    lru_put(&mut self.seen, id);
                },
                Body::Frame(_) => {},
                Body::Nak(range) => {
                    self.record_nak(from, range);
                },
            }
        }
        let ghost own = actions@;
        match nak {
            Some(range) => {
                let mut targets: Vec<u128> = Vec::new();
                targets.push(packet_id);
                assert(targets@ =~= seq![packet_id]);
                actions.push(
                    PacketAction::SendMessage {
                        targets,
                        message: Message::with_fresh_id(Body::Nak(range)),
                    },
                );
            },
            None => {},
        }
        proof {
            let n: int = if nak is Some { 1 } else { 0 };
            assert(actions@.take(actions@.len() - n) =~= own);
        }
        actions
    }
}

/// Opening does not depend on the receive sequence numbers.
fn pre_decrypt(ph: &PacketHandler, id: u128, boxed: &[u8], nonce: &[u8; 24]) -> (r: Option<Vec<u8>>)
    requires
        ph.wf(),
    ensures
        match r {
            Some(m) => opened(*ph, id, boxed@, nonce@) == Some(m@),
            None => opened(*ph, id, boxed@, nonce@) is None,
        },
        opens_what_was_sealed(*ph, id, boxed@, nonce@),
{
    ph.decrypt(id, boxed, nonce)
}

} // verus!

verus! {

/// What the packet handler is asked to do.
pub enum PacketHandlerMessage {
    /// The socket is bound.
    Start,
    /// Send a payload to an address; the last field is the current time in
    /// nanoseconds on a monotonic clock.
    Send(SockAddr, Payload, u64),
    /// A packet arrived from an address.
    Recv(SockAddr, Packet),
    /// A message decoded from an opened packet, with what `recv` handed out
    /// along with the plaintext.
    Decoded { message: Message, from: SockAddr, packet_id: u128, nak: Option<SeqRange> },
    /// The keys of every handshaken peer.
    KeysUpdated(Vec<PeerKeys>),
    /// Encrypt and send to a peer an encoded message: the peer's id, the
    /// message's id and the message's bytes.
    SendMessage(u128, u128, Vec<u8>),
    /// The peers subscribed to this node.
    SubscribersUpdated(Vec<u128>),
    /// Broadcast data to the subscribers.
    SendBroadcast(Vec<u8>),
    /// Announce a peer status to the subscribers.
    BroadcastPeerStatus(PeerStatus),
    /// Whether the application has a broadcast handler.
    SetBroadcastHandler(bool),
    /// Run rate control.
    RateControl,
}

/// The keys of a list, by peer id; a later entry for an id wins.
pub open spec fn keys_from(ks: Seq<PeerKeys>) -> Map<u128, PeerKeys>
    decreases ks.len(),
{
    if ks.len() == 0 {
        Map::empty()
    } else {
        keys_from(ks.drop_last()).insert(ks.last().id, ks.last())
    }
}

/// Transmissions as actions.
pub open spec fn transmits(r: Seq<Transmission>) -> Seq<PacketAction> {
    r.map_values(|t: Transmission| PacketAction::Transmit(t))
}

/// What handling a request does.
pub open spec fn packet_message_handled(
    pre: PacketHandler,
    post: PacketHandler,
    message: PacketHandlerMessage,
    actions: Seq<PacketAction>,
) -> bool {
    &&& post.wf()
    &&& match message {
        PacketHandlerMessage::Start => post == (PacketHandler { started: true, ..pre }) && actions.len()
            == 0,
        PacketHandlerMessage::Send(to, payload, now) => {
            &&& actions.len() <= 1
            &&& actions.len() == 1 ==> (actions[0] matches PacketAction::Transmit(t) && sent(
                pre,
                post,
                payload,
                to,
                now,
                Some(t),
            ))
            &&& actions.len() == 0 ==> sent(pre, post, payload, to, now, None)
        },
        PacketHandlerMessage::Recv(from, packet) => received(pre, post, packet, from, actions),
        PacketHandlerMessage::Decoded { message, from, packet_id, nak } => message_received(
            pre,
            post,
            message,
            from,
            packet_id,
            nak,
            actions,
        ),
        PacketHandlerMessage::KeysUpdated(ks) => {
            &&& post == (PacketHandler { keys: post.keys, ..pre })
            &&& post.keys@ == keys_from(ks@)
            &&& actions.len() == 0
        },
        PacketHandlerMessage::SendMessage(target, id, plain) => exists|r: Seq<Transmission>|
            messages_sent(pre, post, seq![target], id, plain@, r) && actions == transmits(r),
        PacketHandlerMessage::SubscribersUpdated(ids) => post == (PacketHandler {
            subscribers: ids,
            ..pre
        }) && actions.len() == 0,
        PacketHandlerMessage::SendBroadcast(data) => {
            &&& post == pre
            &&& actions.len() == 1
            &&& actions[0] matches PacketAction::SendMessage { targets, message: m } && targets@
                == pre.subscribers@ && m.body == Body::Broadcast(data) && (m.id >> 76u128) & 0xfu128
                == 4u128
        },
        PacketHandlerMessage::BroadcastPeerStatus(ps) => {
            &&& post == pre
            &&& actions.len() == 1
            &&& actions[0] matches PacketAction::SendMessage { targets, message: m } && targets@
                == pre.subscribers@ && m.body == Body::PeerRequest(
                Box::new(PeerRequest::PeerStatus(ps)),
            ) && (m.id >> 76u128) & 0xfu128 == 4u128
        },
        PacketHandlerMessage::SetBroadcastHandler(b) => post == (PacketHandler {
            has_handler: b,
            ..pre
        }) && actions.len() == 0,
        PacketHandlerMessage::RateControl => rate_controlled(pre, post) && actions.len() == 0,
    }
}

impl PacketHandler {
    /// Replaces the keys with those of `ks`.
    pub fn set_keys(&mut self, ks: Vec<PeerKeys>)
        requires
            old(self).wf(),
        ensures
            final(self).wf(),
            *final(self) == (PacketHandler { keys: final(self).keys, ..*old(self) }),
            final(self).keys@ == keys_from(ks@),
    {
        let mut keys: Table<u128, PeerKeys> = Table::new();
        let mut i: usize = 0;
        while i < ks.len()
            invariant
                keys.wf(),
                i <= ks@.len(),
                keys@ == keys_from(ks@.subrange(0, i as int)),
            decreases ks@.len() - i,
        {
            let ghost sub = ks@.subrange(0, i as int + 1);
            proof {
                assert(sub.drop_last() =~= ks@.subrange(0, i as int));
                assert(sub.last() == ks@[i as int]);
            }
            keys.insert(ks[i].id, ks[i]);
            i = i + 1;
        }
        proof {
            assert(ks@.subrange(0, i as int) =~= ks@);
        }
        self.keys = keys;
    }

    /// Transmissions as actions.
    fn transmit_all(r: Vec<Transmission>) -> (actions: Vec<PacketAction>)
        ensures
            actions@ == transmits(r@),
    {
        let ghost all = r@;
        let mut rest = r;
        let mut actions: Vec<PacketAction> = Vec::new();
        while rest.len() > 0
            invariant
                actions@.len() <= all.len(),
                rest@ == all.skip(actions@.len() as int),
                actions@ == transmits(all.take(actions@.len() as int)),
            decreases rest@.len(),
        {
            let ghost before = rest@;
            let t = rest.remove(0);
            proof {
                assert(before[0] == all[actions@.len() as int]);
            }
            actions.push(PacketAction::Transmit(t));
            proof {
                assert(rest@ =~= all.skip(actions@.len() as int));
                assert(actions@ =~= transmits(all.take(actions@.len() as int)));
            }
        }
        proof {
            assert(all.take(all.len() as int) =~= all);
        }
        actions
    }

    /// Handles one request, listing what the rest of the node is to do, in
    /// order.
    pub fn handle_message(&mut self, message: PacketHandlerMessage) -> (actions: Vec<PacketAction>)
        requires
            old(self).wf(),
        ensures
            packet_message_handled(*old(self), *final(self), message, actions@),
    {
        match message {
            PacketHandlerMessage::Start => {
                self.start();
                Vec::new()
            },
            PacketHandlerMessage::Send(to, payload, now) => {
                let mut actions: Vec<PacketAction> = Vec::new();
                match self.send(payload, to, now) {
                    Some(t) => actions.push(PacketAction::Transmit(t)),
                    None => {},
                }
                actions
            },
            PacketHandlerMessage::Recv(from, packet) => self.recv(packet, from),
            PacketHandlerMessage::Decoded { message, from, packet_id, nak } => self.recv_message(
                message,
                from,
                packet_id,
                nak,
            ),
            PacketHandlerMessage::KeysUpdated(ks) => {
                self.set_keys(ks);
                Vec::new()
            },
            PacketHandlerMessage::SendMessage(target, id, plain) => {
                let r = self.encrypt_and_send_message(target, id, plain.as_slice());
                let ghost rs = r@;
                let actions = Self::transmit_all(r);
                actions
            },
            PacketHandlerMessage::SubscribersUpdated(ids) => {
                self.subscribers = ids;
                Vec::new()
            },
            PacketHandlerMessage::SendBroadcast(data) => {
                let mut actions: Vec<PacketAction> = Vec::new();
                actions.push(self.send_broadcast(data));
                actions
            },
            PacketHandlerMessage::BroadcastPeerStatus(ps) => {
                let mut actions: Vec<PacketAction> = Vec::new();
                actions.push(self.send_peer_status(ps));
                actions
            },
            PacketHandlerMessage::SetBroadcastHandler(b) => {
                self.set_broadcast_handler(b);
                Vec::new()
            },
            PacketHandlerMessage::RateControl => {
                self.update_rate_control();
                Vec::new()
            },
        }
    }
}

} // verus!

verus! {

/// A message whose id was already seen changes nothing and is neither
/// delivered nor passed on; at most the missed range is reported.
pub proof fn law_seen_message_dropped(
    pre: PacketHandler,
    post: PacketHandler,
    message: Message,
    from: SockAddr,
    packet_id: u128,
    nak: Option<SeqRange>,
    actions: Seq<PacketAction>,
)
    requires
        message_received(pre, post, message, from, packet_id, nak, actions),
        lru_keys(pre.seen).contains(message.id),
    ensures
        post == pre,
        actions.len() == if nak is Some { 1int } else { 0int },
        forall|i: int| 0 <= i < actions.len() ==> !(#[trigger] actions[i] is Deliver),
{
    let n: int = if nak is Some { 1 } else { 0 };
    let own = actions.take(actions.len() - n);
    assert(own.len() == 0);
    assert forall|i: int| 0 <= i < actions.len() implies !(#[trigger] actions[i] is Deliver) by {
        assert(i == actions.len() - 1);
    }
}

/// A broadcast is delivered at most once: once a node handled it, the same
/// message again (by id) changes nothing and is not delivered.
pub proof fn law_broadcast_handled_once(
    pre: PacketHandler,
    mid: PacketHandler,
    post: PacketHandler,
    first: Message,
    again: Message,
    from: SockAddr,
    packet_id: u128,
    nak1: Option<SeqRange>,
    nak2: Option<SeqRange>,
    actions1: Seq<PacketAction>,
    actions2: Seq<PacketAction>,
)
    requires
        pre.wf(),
        first.body is Broadcast,
        again.id == first.id,
        message_received(pre, mid, first, from, packet_id, nak1, actions1),
        message_received(mid, post, again, from, packet_id, nak2, actions2),
    ensures
        post == mid,
        forall|i: int| 0 <= i < actions2.len() ==> !(#[trigger] actions2[i] is Deliver),
{
    if !lru_keys(pre.seen).contains(first.id) {
        lemma_put_remembers(lru_keys(pre.seen), lru_capacity(pre.seen), first.id);
    }
    law_seen_message_dropped(mid, post, again, from, packet_id, nak2, actions2);
}

/// Rate control never lengthens a pacing interval it already had.
pub proof fn law_rate_control_never_slows(ph: PacketHandler, a: SockAddr)
    requires
        ph.tx_delay@.dom().contains(a),
    ensures
        eased_delays(ph).dom().contains(a),
        eased_delays(ph)[a] <= ph.tx_delay@[a],
{
}

/// A loss report stretches a pacing interval to between two and eight
/// times what it was, saturating at the largest interval.
pub proof fn law_loss_report_stretch(d: u64, k: u64)
    requires
        RC_DELAY_INCREASE_MIN_PERMILLE <= k <= RC_DELAY_INCREASE_MAX_PERMILLE,
    ensures
        scaled(d, k) == u64::MAX || 2 * d <= scaled(d, k) <= 8 * d,
{
    assert(2000 * d <= d * k <= 8000 * d) by (nonlinear_arith)
        requires
            2000 <= k <= 8000,
    ;
    assert(2 * d <= d * k / 1000 <= 8 * d) by (nonlinear_arith)
        requires
            2000 * d <= d * k <= 8000 * d,
    ;
}

/// Two packets sent in a row to one address get consecutive sequence
/// numbers, and the second may leave only once the pacing interval has
/// passed since the first.
pub proof fn law_consecutive_sends(
    pre: PacketHandler,
    mid: PacketHandler,
    post: PacketHandler,
    p1: Payload,
    p2: Payload,
    to: SockAddr,
    t1: u64,
    t2: u64,
    first: Transmission,
    second: Transmission,
)
    requires
        sent(pre, mid, p1, to, t1, Some(first)),
        sent(mid, post, p2, to, t2, Some(second)),
    ensures
        second.packet.s.0 == next_seq(first.packet.s.0),
        second.not_before == Some((t1 + delay_in(pre.tx_delay@, to)) as u128),
{
}

} // verus!

verus! {

/// What one node encrypts for another, the other reads back: when `a`
/// holds keys for `b` and `b` for `a`, each side's public key being the one
/// the other's secret key gives, every packet `a` sends for a message to
/// `b` opens at `b` to the encoded message, reported as coming from `a`.
pub proof fn law_encrypted_round_trip(
    a: PacketHandler,
    a2: PacketHandler,
    b: PacketHandler,
    b2: PacketHandler,
    b_id: u128,
    message_id: u128,
    plain: Seq<u8>,
    sent: Seq<Transmission>,
    k: int,
    from: SockAddr,
    actions: Seq<PacketAction>,
)
    requires
        a.keys@.dom().contains(b_id),
        b.keys@.dom().contains(a.node_id),
        a.keys@[b_id].their_public_key@ == x25519_public(b.keys@[a.node_id].keypair.secret_key@),
        b.keys@[a.node_id].their_public_key@ == x25519_public(a.keys@[b_id].keypair.secret_key@),
        messages_sent(a, a2, seq![b_id], message_id, plain, sent),
        0 <= k < sent.len(),
        received(b, b2, sent[k].packet, from, actions),
    ensures
        actions.len() == 1,
        actions[0] matches PacketAction::Opened { plaintext, from: f, packet_id, nak } && plaintext@
            == plain && f == from && packet_id == a.node_id,
{
    let mid = PacketHandler { seen: a2.seen, ..a };
    let (attempts, payloads) = choose|
        attempts: Seq<(PeerKeys, [u8; 24])>,
        payloads: Seq<(Payload, SockAddr)>,
    |
        {
            &&& attempts.map_values(|x: (PeerKeys, [u8; 24])| x.0) == keyed(a.keys@, seq![b_id])
            &&& seals(plain, attempts, payloads)
            &&& multisent(mid, a2, payloads, sent)
        };
    let t = seq![b_id];
    assert(t.drop_last() =~= Seq::<u128>::empty());
    assert(t.last() == b_id);
    assert(keyed(a.keys@, t.drop_last()) == Seq::<PeerKeys>::empty());
    assert(keyed(a.keys@, t) =~= seq![a.keys@[b_id]]);
    let keys_seq = attempts.map_values(|x: (PeerKeys, [u8; 24])| x.0);
    assert(keys_seq.len() == 1);
    assert(attempts.len() == 1);
    assert(keys_seq[0] == attempts[0].0);
    assert(attempts[0].0 == a.keys@[b_id]);
    assert(attempts.drop_last() =~= Seq::<(PeerKeys, [u8; 24])>::empty());
    let ka = a.keys@[b_id];
    let n = attempts[0].1;
    assert(mid.started);
    assert(payloads.len() == sent.len());
    assert(attempts.last() == attempts[0]);
    reveal_with_fuel(seals, 2);
    match sealed_for(plain, ka, n) {
        Some(c) => {
            assert(payloads.drop_last().len() == 0);
            assert(k == 0);
            assert(sent[0].to == payloads[0].1);
            assert(sent[0].packet.p == payloads[0].0);
            assert(sent[0].packet.id == a.node_id);
            let kb = b.keys@[a.node_id];
            assert(box_seal(plain, n@, x25519_public(kb.keypair.secret_key@), ka.keypair.secret_key@)
                == Some(c));
        },
        None => {
            assert(false);
        },
    }
}

} // verus!

verus! {

/// The id of a message a node sends is remembered as seen, so the node
/// drops the message if it comes back.
pub proof fn law_sent_message_is_seen(
    pre: PacketHandler,
    post: PacketHandler,
    targets: Seq<u128>,
    message_id: u128,
    plain: Seq<u8>,
    r: Seq<Transmission>,
)
    requires
        pre.wf(),
        messages_sent(pre, post, targets, message_id, plain, r),
    ensures
        lru_keys(post.seen).contains(message_id),
{
    lemma_put_remembers(lru_keys(pre.seen), lru_capacity(pre.seen), message_id);
}

/// A key put into a cache that holds any keys at all is in it afterwards.
proof fn lemma_put_remembers(keys: Seq<u128>, cap: nat, k: u128)
    requires
        cap > 0,
    ensures
        lru_after_put(keys, cap, k).contains(k),
{
    assert(lru_after_put(keys, cap, k)[0] == k);
}

} // verus!

verus! {

/// Decryption undoes encryption: a message that `encrypt` sealed with the
/// sender's keys for a peer opens, at a handler holding the matching keys
/// for the sender, to that message; with no keys for the sender nothing
/// opens.
pub proof fn law_decrypt_opens_encrypted(
    ph: PacketHandler,
    id: u128,
    sender: PeerKeys,
    plain: Seq<u8>,
    boxed: Seq<u8>,
    nonce: [u8; 24],
    r: Option<Vec<u8>>,
)
    requires
        sealed_for(plain, sender, nonce) == Some(boxed),
        decrypted(ph, id, boxed, nonce@, r),
        ph.keys@.dom().contains(id) ==> {
            &&& sender.their_public_key@ == x25519_public(ph.keys@[id].keypair.secret_key@)
            &&& ph.keys@[id].their_public_key@ == x25519_public(sender.keypair.secret_key@)
        },
    ensures
        ph.keys@.dom().contains(id) ==> (r matches Some(m) && m@ == plain),
        !ph.keys@.dom().contains(id) ==> r is None,
{
    if ph.keys@.dom().contains(id) {
        let k = ph.keys@[id];
        assert(box_seal(plain, nonce@, x25519_public(k.keypair.secret_key@), sender.keypair.secret_key@)
            == Some(boxed));
    }
}

} // verus!

verus! {

/// Loss reports are for skipped numbers only: a packet that repeats the
/// last number, or directly follows it, reports nothing, and a reported
/// range is never empty and covers less than half the sequence space.
pub proof fn law_reports_only_skips(p: Seq32, s: Seq32)
    ensures
        s.0 == p.0 ==> missed_range(Some(p), s) is None,
        s.0 == p.0.wrapping_add(1) ==> missed_range(Some(p), s) is None,
        missed_range(Some(p), s) matches Some(r) ==> 1 <= range_len(r) < 0x7fff_ffff,
{
    let a = p.0;
    let b = s.0;
    assert(b == a ==> b.wrapping_sub(a) == 0) by (bit_vector);
    assert(b == a.wrapping_add(1) ==> b.wrapping_sub(a) == 1) by (bit_vector);
    assert(2 <= b.wrapping_sub(a) < 0x8000_0000 ==> 1 <= b.wrapping_sub(a.wrapping_add(1))
        < 0x7fff_ffff) by (bit_vector);
}

} // verus!

verus! {

/// A packet to an address that was sent to before may leave once that
/// address's pacing interval has passed since the previous packet to it: the
/// interval held for the address, or the default interval only where none
/// is held. The first packet to an address may leave at once.
pub proof fn law_send_paced_by_address_interval(
    pre: PacketHandler,
    post: PacketHandler,
    payload: Payload,
    to: SockAddr,
    now: u64,
    t: Transmission,
)
    requires
        sent(pre, post, payload, to, now, Some(t)),
    ensures
        pre.last_tx@.dom().contains(to) && pre.tx_delay@.dom().contains(to) ==> t.not_before == Some(
            (pre.last_tx@[to] + pre.tx_delay@[to]) as u128,
        ),
        pre.last_tx@.dom().contains(to) && !pre.tx_delay@.dom().contains(to) ==> t.not_before == Some(
            (pre.last_tx@[to] + RC_DEFAULT_PACKET_INTERVAL_NANOS) as u128,
        ),
        !pre.last_tx@.dom().contains(to) ==> t.not_before is None,
        post.last_tx@.dom().contains(to) && post.last_tx@[to] == now,
{
}

} // verus!

verus! {

/// Rate control measures an address's loss rate over the packets sent to it
/// since its previous run: the sequence number sent last, less the number
/// it marked then (zero for an address it had not marked), in the wrapping
/// 32-bit space. Pacing to the address eases (the interval shortens by
/// `RC_DELAY_DECREASE`, down to zero, or the default interval is set where
/// there was none) when no packet went to it or its losses, times
/// `RC_LOSS_RATE_INVERSE`, are below that count; otherwise its interval is
/// left as it was. Addresses never sent to keep their intervals.
pub proof fn law_rate_control_measures_since_last_run(pre: PacketHandler, post: PacketHandler, a: SockAddr)
    requires
        rate_controlled(pre, post),
    ensures
        ({
            let sent_now: u32 = if pre.tx_sequences@.dom().contains(a) {
                pre.tx_sequences@[a].0
            } else {
                0u32
            };
            let mark: u32 = if pre.rc_sequences@.dom().contains(a) {
                pre.rc_sequences@[a].0
            } else {
                0u32
            };
            let count: u32 = sent_now.wrapping_sub(mark);
            let naks: int = if pre.nak_count@.dom().contains(a) {
                pre.nak_count@[a] as int
            } else {
                0
            };
            if pre.tx_sequences@.dom().contains(a) && (count == 0 || RC_LOSS_RATE_INVERSE * naks < count) {
                &&& post.tx_delay@.dom().contains(a)
                &&& post.tx_delay@[a] == if !pre.tx_delay@.dom().contains(a) {
                    RC_DEFAULT_PACKET_INTERVAL_NANOS as int
                } else if pre.tx_delay@[a] > RC_DELAY_DECREASE {
                    pre.tx_delay@[a] - RC_DELAY_DECREASE
                } else {
                    0
                }
            } else {
                &&& post.tx_delay@.dom().contains(a) == pre.tx_delay@.dom().contains(a)
                &&& pre.tx_delay@.dom().contains(a) ==> post.tx_delay@[a] == pre.tx_delay@[a]
            }
        }),
{
}

} // verus!

verus! {

/// Those of `targets` that the key table holds keys for, in order.
pub open spec fn with_keys(keys: Map<u128, PeerKeys>, targets: Seq<u128>) -> Seq<u128> {
    targets.filter(has_keys(keys))
}

/// Whether the key table holds keys for a target.
pub open spec fn has_keys(keys: Map<u128, PeerKeys>) -> spec_fn(u128) -> bool {
    |t: u128| keys.dom().contains(t)
}

/// The keys that sealing is attempted with are those of every target that
/// has keys, in order.
proof fn lemma_keyed_is_every_keyed_target(keys: Map<u128, PeerKeys>, targets: Seq<u128>)
    ensures
        keyed(keys, targets) == with_keys(keys, targets).map_values(|t: u128| keys[t]),
    decreases targets.len(),
{
    reveal(Seq::filter);
    if targets.len() == 0 {
        assert(with_keys(keys, targets).map_values(|t: u128| keys[t]) =~= Seq::<PeerKeys>::empty());
    } else {
        lemma_keyed_is_every_keyed_target(keys, targets.drop_last());
        let f = with_keys(keys, targets.drop_last());
        let x = targets.last();
        if keys.dom().contains(x) {
            assert(with_keys(keys, targets) == f.push(x));
            assert(f.push(x).map_values(|t: u128| keys[t]) =~= f.map_values(|t: u128| keys[t]).push(keys[x]));
        } else {
            assert(with_keys(keys, targets) == f);
        }
    }
}

/// Where every sealing attempt succeeds, there is one payload per attempt,
/// in order, addressed to the attempt's peer and holding its box.
proof fn lemma_every_seal_sent(
    plain: Seq<u8>,
    attempts: Seq<(PeerKeys, [u8; 24])>,
    payloads: Seq<(Payload, SockAddr)>,
)
    requires
        seals(plain, attempts, payloads),
        forall|i: int| 0 <= i < attempts.len() ==> (#[trigger] sealed_for(plain, attempts[i].0, attempts[i].1)) is Some,
    ensures
        payloads.len() == attempts.len(),
        forall|i: int|
            0 <= i < payloads.len() ==> {
                &&& #[trigger] payloads[i].1 == attempts[i].0.sockaddr
                &&& payloads[i].0 matches Payload::B(b, n) && n == attempts[i].1 && sealed_for(
                    plain,
                    attempts[i].0,
                    n,
                ) == Some(b@)
            },
    decreases attempts.len(),
{
    if attempts.len() > 0 {
        let last = attempts.len() - 1;
        assert(sealed_for(plain, attempts[last].0, attempts[last].1) is Some);
        let rest = attempts.drop_last();
        assert forall|i: int| 0 <= i < rest.len() implies (#[trigger] sealed_for(
            plain,
            rest[i].0,
            rest[i].1,
        )) is Some by {
            assert(rest[i] == attempts[i]);
            assert(sealed_for(plain, attempts[i].0, attempts[i].1) is Some);
        }
        lemma_every_seal_sent(plain, rest, payloads.drop_last());
        assert forall|i: int| 0 <= i < payloads.len() implies {
            &&& #[trigger] payloads[i].1 == attempts[i].0.sockaddr
            &&& payloads[i].0 matches Payload::B(b, n) && n == attempts[i].1 && sealed_for(plain, attempts[i].0, n)
                == Some(b@)
        } by {
            if i < last {
                assert(payloads.drop_last()[i] == payloads[i]);
                assert(rest[i] == attempts[i]);
            }
        }
    }
}

/// Every target that has keys gets the message: where sealing succeeds for
/// each of them, one packet goes to each, in the order of `targets`, to
/// the address held with its keys and carrying the message sealed for it.
pub proof fn law_every_keyed_target_gets_the_message(
    pre: PacketHandler,
    post: PacketHandler,
    targets: Seq<u128>,
    message_id: u128,
    plain: Seq<u8>,
    r: Seq<Transmission>,
)
    requires
        pre.started,
        messages_sent(pre, post, targets, message_id, plain, r),
        forall|t: u128, n: [u8; 24]|
            targets.contains(t) && pre.keys@.dom().contains(t) ==> (#[trigger] sealed_for(
                plain,
                pre.keys@[t],
                n,
            )) is Some,
    ensures
        r.len() == with_keys(pre.keys@, targets).len(),
        forall|i: int|
            0 <= i < r.len() ==> {
                let t = with_keys(pre.keys@, targets)[i];
                &&& targets.contains(t)
                &&& pre.keys@.dom().contains(t)
                &&& #[trigger] r[i].to == pre.keys@[t].sockaddr
                &&& r[i].packet.p matches Payload::B(b, n) && sealed_for(plain, pre.keys@[t], n) == Some(b@)
            },
{
    let mid = PacketHandler { seen: post.seen, ..pre };
    let (attempts, payloads) = choose|
        attempts: Seq<(PeerKeys, [u8; 24])>,
        payloads: Seq<(Payload, SockAddr)>,
    |
        {
            &&& attempts.map_values(|x: (PeerKeys, [u8; 24])| x.0) == keyed(pre.keys@, targets)
            &&& seals(plain, attempts, payloads)
            &&& multisent(mid, post, payloads, r)
        };
    let kt = with_keys(pre.keys@, targets);
    let pred = has_keys(pre.keys@);
    lemma_keyed_is_every_keyed_target(pre.keys@, targets);
    let ks = attempts.map_values(|x: (PeerKeys, [u8; 24])| x.0);
    assert(ks.len() == attempts.len());
    assert(ks == kt.map_values(|t: u128| pre.keys@[t]));
    assert forall|i: int| 0 <= i < kt.len() implies targets.contains(#[trigger] kt[i]) && pre.keys@.dom().contains(
        kt[i],
    ) && attempts[i].0 == pre.keys@[kt[i]] by {
        targets.lemma_filter_pred(pred, i);
        assert(kt.contains(kt[i]));
        targets.lemma_filter_contains_rev(pred, kt[i]);
        assert(ks[i] == attempts[i].0);
    }
    assert forall|i: int| 0 <= i < attempts.len() implies (#[trigger] sealed_for(
        plain,
        attempts[i].0,
        attempts[i].1,
    )) is Some by {
        assert(targets.contains(kt[i]));
        assert(sealed_for(plain, pre.keys@[kt[i]], attempts[i].1) is Some);
    }
    lemma_every_seal_sent(plain, attempts, payloads);
    assert forall|i: int| 0 <= i < r.len() implies {
        let t = kt[i];
        &&& targets.contains(t)
        &&& pre.keys@.dom().contains(t)
        &&& #[trigger] r[i].to == pre.keys@[t].sockaddr
        &&& r[i].packet.p matches Payload::B(b, n) && sealed_for(plain, pre.keys@[t], n) == Some(b@)
    } by {
        assert(targets.contains(kt[i]));
        assert(r[i].to == payloads[i].1);
        assert(payloads[i].1 == attempts[i].0.sockaddr);
    }
}

} // verus!

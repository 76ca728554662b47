//! Membership: known peers, subscriptions in both directions, heartbeats and
//! the choice of which peers to subscribe to.
use vstd::prelude::*;
use crate::peer::Peer;

verus! {

/// Requests peers send each other about membership.
#[derive(Debug)]
pub enum PeerRequest {
    PeerList,
    Peers(Vec<Peer>),
    PeerStatus(PeerStatus),
    StartSubscription,
    SubscriptionStarted,
    EndSubscription,
    Heartbeat,
}

/// Whether a peer is reachable.
#[derive(Debug, Clone, Copy, PartialEq, Eq, Structural)]
pub enum PeerState {
    Up,
    Down,
}

/// A peer together with its state.
#[derive(Debug)]
pub struct PeerStatus {
    pub peer: Peer,
    pub state: PeerState,
}

impl PeerStatus {
    pub fn new(peer: Peer, state: PeerState) -> (r: Self)
        ensures
            r.peer == peer,
            r.state == state,
    {
        PeerStatus { peer, state }
    }
}

impl Clone for PeerStatus {
    fn clone(&self) -> (r: Self)
        ensures
            r == *self,
    {
        PeerStatus { peer: self.peer.clone(), state: self.state }
    }
}

/// Two requests say the same: equal, with peer lists compared by their
/// contents.
pub open spec fn same_request(a: PeerRequest, b: PeerRequest) -> bool {
    match (a, b) {
        (PeerRequest::Peers(x), PeerRequest::Peers(y)) => x@ == y@,
        _ => a == b,
    }
}

/// A copy of a list of peers.
pub fn clone_peers(ps: &Vec<Peer>) -> (r: Vec<Peer>)
    ensures
        r@ == ps@,
{
    let mut r: Vec<Peer> = Vec::new();
    let mut i: usize = 0;
    while i < ps.len()
        invariant
            i <= ps@.len(),
            r@ == ps@.subrange(0, i as int),
        decreases ps@.len() - i,
    {
        r.push(ps[i].clone());
        i = i + 1;
        assert(r@ =~= ps@.subrange(0, i as int));
    }
    assert(ps@.subrange(0, i as int) =~= ps@);
    r
}

impl PeerRequest {
    /// A copy of this request.
    pub fn copy(&self) -> (r: PeerRequest)
        ensures
            same_request(r, *self),
    {
        match self {
            PeerRequest::PeerList => PeerRequest::PeerList,
            PeerRequest::Peers(ps) => PeerRequest::Peers(clone_peers(ps)),
            PeerRequest::PeerStatus(st) => PeerRequest::PeerStatus(st.clone()),
            PeerRequest::StartSubscription => PeerRequest::StartSubscription,
            PeerRequest::SubscriptionStarted => PeerRequest::SubscriptionStarted,
            PeerRequest::EndSubscription => PeerRequest::EndSubscription,
            PeerRequest::Heartbeat => PeerRequest::Heartbeat,
        }
    }
}

/// What the membership service answers.
#[derive(Debug, Clone, Copy, PartialEq, Eq, Structural)]
pub enum PeerManagerResponse {
    SubscriberCount(usize),
    /// The request was handled.
    Done,
}

} // verus!

verus! {

use crate::DistributionStrategy;
use crate::peer::{same_zone, zone_eq};
use crate::outside::{
    chacha_choose, chacha_choose_weighted, choose_seeded, choose_weighted_seeded, min_len,
    picks_distinct_positions, weighted_ids,
};

/// A picked sequence from a sequence without repeats has no repeats, and all
/// its items come from that sequence.
pub proof fn lemma_picks(r: Seq<u128>, items: Seq<u128>)
    requires
        picks_distinct_positions(r, items),
        items.no_duplicates(),
    ensures
        r.no_duplicates(),
        forall|x: u128| r.contains(x) ==> items.contains(x),
{
    let pos = choose|pos: Seq<int>|
        {
            &&& pos.len() == r.len()
            &&& pos.no_duplicates()
            &&& forall|i: int|
                0 <= i < r.len() ==> 0 <= #[trigger] pos[i] < items.len() && r[i] == items[pos[i]]
        };
    assert forall|i: int, j: int| 0 <= i < r.len() && 0 <= j < r.len() && i != j implies r[i] != r[j] by {
        assert(0 <= pos[i] < items.len() && r[i] == items[pos[i]]);
        assert(0 <= pos[j] < items.len() && r[j] == items[pos[j]]);
    }
    assert forall|x: u128| r.contains(x) implies items.contains(x) by {
        let i = choose|i: int| 0 <= i < r.len() && r[i] == x;
        assert(0 <= pos[i] < items.len() && r[i] == items[pos[i]]);
    }
}

/// The ids of a sequence of peers.
pub open spec fn ids_of(ps: Seq<Peer>) -> Seq<u128> {
    ps.map_values(|p: Peer| p.id)
}

/// The peers other than `node_id`, in order.
pub open spec fn others_of(ps: Seq<Peer>, node_id: u128) -> Seq<Peer>
    decreases ps.len(),
{
    if ps.len() == 0 {
        Seq::empty()
    } else {
        let rest = others_of(ps.drop_last(), node_id);
        if ps.last().id != node_id {
            rest.push(ps.last())
        } else {
            rest
        }
    }
}

/// The peers other than `node_id` whose zone is (`local`) or is not
/// (`!local`) `zone`, in order.
pub open spec fn zoned_of(ps: Seq<Peer>, node_id: u128, zone: Option<String>, local: bool) -> Seq<Peer>
    decreases ps.len(),
{
    if ps.len() == 0 {
        Seq::empty()
    } else {
        let rest = zoned_of(ps.drop_last(), node_id, zone, local);
        if ps.last().id != node_id && same_zone(ps.last().zone, zone) == local {
            rest.push(ps.last())
        } else {
            rest
        }
    }
}

/// A zone setting as a plain value.
pub open spec fn zone_view(z: Option<String>) -> Option<Seq<char>> {
    match z {
        Some(s) => Some(s@),
        None => None,
    }
}

/// The zones of `ps`, each once, in the order they first occur.
pub open spec fn distinct_zones(ps: Seq<Peer>) -> Seq<Option<Seq<char>>>
    decreases ps.len(),
{
    if ps.len() == 0 {
        Seq::empty()
    } else {
        let rest = distinct_zones(ps.drop_last());
        let z = zone_view(ps.last().zone);
        if rest.contains(z) {
            rest
        } else {
            rest.push(z)
        }
    }
}

/// The ids of the peers of `ps` in zone `z`, in order.
pub open spec fn ids_in_zone(ps: Seq<Peer>, z: Option<Seq<char>>) -> Seq<u128>
    decreases ps.len(),
{
    if ps.len() == 0 {
        Seq::empty()
    } else {
        let rest = ids_in_zone(ps.drop_last(), z);
        if zone_view(ps.last().zone) == z {
            rest.push(ps.last().id)
        } else {
            rest
        }
    }
}

/// Ids in `ps` identify positions: no two peers share an id.
pub open spec fn unique_ids(ps: Seq<Peer>) -> bool {
    forall|i: int, j: int| 0 <= i < ps.len() && 0 <= j < ps.len() && i != j ==> ps[i].id != ps[j].id
}

/// Every peer of `others_of` is in `ps`, not `node_id`, and they keep
/// unique ids.
proof fn lemma_others(ps: Seq<Peer>, node_id: u128)
    requires
        unique_ids(ps),
    ensures
        unique_ids(others_of(ps, node_id)),
        forall|i: int|
            0 <= i < others_of(ps, node_id).len() ==> ps.contains(#[trigger] others_of(ps, node_id)[i])
                && others_of(ps, node_id)[i].id != node_id,
        forall|i: int|
            0 <= i < ps.len() && ps[i].id != node_id ==> others_of(ps, node_id).contains(#[trigger] ps[i]),
    decreases ps.len(),
{
    if ps.len() > 0 {
        let d = ps.drop_last();
        assert(unique_ids(d));
        lemma_others(d, node_id);
        let rest = others_of(d, node_id);
        if ps.last().id != node_id {
            assert forall|i: int| 0 <= i < rest.len() implies rest[i].id != ps.last().id by {
                assert(d.contains(rest[i]));
                let j = choose|j: int| 0 <= j < d.len() && d[j] == rest[i];
                assert(ps[j] == rest[i]);
            }
        }
        assert forall|i: int| 0 <= i < others_of(ps, node_id).len() implies ps.contains(
            #[trigger] others_of(ps, node_id)[i],
        ) && others_of(ps, node_id)[i].id != node_id by {
            if i < rest.len() {
                assert(d.contains(rest[i]));
                let j = choose|j: int| 0 <= j < d.len() && d[j] == rest[i];
                assert(ps[j] == rest[i]);
            } else {
                assert(ps[ps.len() - 1] == ps.last());
            }
        }
        assert forall|i: int| 0 <= i < ps.len() && ps[i].id != node_id implies others_of(
            ps,
            node_id,
        ).contains(#[trigger] ps[i]) by {
            if i < d.len() {
                assert(d[i] == ps[i]);
                assert(rest.contains(d[i]));
                let j = choose|j: int| 0 <= j < rest.len() && rest[j] == d[i];
                assert(others_of(ps, node_id)[j] == ps[i]);
            } else {
                assert(others_of(ps, node_id)[rest.len() as int] == ps[i]);
            }
        }
    }
}

/// As `lemma_others`, for the peers of one side of the zone split.
proof fn lemma_zoned(ps: Seq<Peer>, node_id: u128, zone: Option<String>, local: bool)
    requires
        unique_ids(ps),
    ensures
        unique_ids(zoned_of(ps, node_id, zone, local)),
        forall|i: int|
            0 <= i < zoned_of(ps, node_id, zone, local).len() ==> ps.contains(
                #[trigger] zoned_of(ps, node_id, zone, local)[i],
            ) && zoned_of(ps, node_id, zone, local)[i].id != node_id && same_zone(
                zoned_of(ps, node_id, zone, local)[i].zone,
                zone,
            ) == local,
    decreases ps.len(),
{
    if ps.len() > 0 {
        let d = ps.drop_last();
        assert(unique_ids(d));
        lemma_zoned(d, node_id, zone, local);
        let rest = zoned_of(d, node_id, zone, local);
        if ps.last().id != node_id && same_zone(ps.last().zone, zone) == local {
            assert forall|i: int| 0 <= i < rest.len() implies rest[i].id != ps.last().id by {
                assert(d.contains(rest[i]));
                let j = choose|j: int| 0 <= j < d.len() && d[j] == rest[i];
                assert(ps[j] == rest[i]);
            }
        }
        let z = zoned_of(ps, node_id, zone, local);
        assert forall|i: int| 0 <= i < z.len() implies ps.contains(#[trigger] z[i]) && z[i].id
            != node_id && same_zone(z[i].zone, zone) == local by {
            if i < rest.len() {
                assert(d.contains(rest[i]));
                let j = choose|j: int| 0 <= j < d.len() && d[j] == rest[i];
                assert(ps[j] == rest[i]);
            } else {
                assert(ps[ps.len() - 1] == ps.last());
            }
        }
    }
}

/// Peers with unique ids have ids without repeats.
proof fn lemma_unique_ids(ps: Seq<Peer>)
    requires
        unique_ids(ps),
    ensures
        ids_of(ps).no_duplicates(),
        ids_of(ps).len() == ps.len(),
        forall|i: int| 0 <= i < ps.len() ==> #[trigger] ids_of(ps)[i] == ps[i].id,
{
}

} // verus!

verus! {

use crate::table::Table;
use crate::nodeinfo::NodeInfo;
use crate::peer::clone_zone;
use crate::outside::new_std_rng;

/// The membership service of one node.
pub struct PeerManager {
    pub node_id: u128,
    pub peer_subscriptions: usize,
    pub zone: Option<String>,
    pub distribution_strategy: DistributionStrategy,
    /// All known peers, by id.
    pub known: Table<u128, Peer>,
    /// Peers subscribed to this node.
    pub subscribers: Table<u128, ()>,
    /// Peers this node is subscribed to.
    pub subscribed_to: Table<u128, ()>,
    pub rng: rand::rngs::StdRng,
    /// Whether someone waits to hear that this node's first subscription
    /// started.
    pub notify_ready: bool,
    /// Whether heartbeats are being sent.
    pub heartbeat: bool,
    /// The peers whose heartbeat watchdog is armed.
    pub heartbeat_watchdogs: Table<u128, ()>,
}

pub open spec fn sat_sub(a: nat, b: nat) -> nat {
    if a >= b { (a - b) as nat } else { 0 }
}

impl PeerManager {
    pub open spec fn wf(&self) -> bool {
        &&& self.known.wf()
        &&& self.subscribers.wf()
        &&& self.subscribed_to.wf()
        &&& self.heartbeat_watchdogs.wf()
        &&& forall|k: u128| #[trigger] self.known@.dom().contains(k) ==> self.known@[k].id == k
    }

    /// The known peers, in the order they became known.
    pub open spec fn known_peers(&self) -> Seq<Peer> {
        self.known.value_seq()
    }

    /// The known peers other than this node.
    pub open spec fn candidates(&self) -> Seq<Peer> {
        others_of(self.known_peers(), self.node_id)
    }

    /// The candidates in this node's zone.
    pub open spec fn local_candidates(&self) -> Seq<Peer> {
        zoned_of(self.known_peers(), self.node_id, self.zone, true)
    }

    /// The candidates in other zones.
    pub open spec fn remote_candidates(&self) -> Seq<Peer> {
        zoned_of(self.known_peers(), self.node_id, self.zone, false)
    }

    /// A peer manager with nothing known and no subscriptions.
    pub fn new(nodeinfo: &NodeInfo) -> (r: Self)
        ensures
            r.wf(),
            r.node_id == nodeinfo.id,
            r.peer_subscriptions == nodeinfo.peer_subscriptions,
            r.zone == nodeinfo.zone,
            r.distribution_strategy == nodeinfo.distribution_strategy,
            r.known@ == Map::<u128, Peer>::empty(),
            r.subscribers@ == Map::<u128, ()>::empty(),
            r.subscribed_to@ == Map::<u128, ()>::empty(),
            r.heartbeat_watchdogs@ == Map::<u128, ()>::empty(),
            !r.notify_ready,
            !r.heartbeat,
    {
        PeerManager {
            node_id: nodeinfo.id,
            peer_subscriptions: nodeinfo.peer_subscriptions,
            zone: clone_zone(&nodeinfo.zone),
            distribution_strategy: nodeinfo.distribution_strategy,
            known: Table::new(),
            subscribers: Table::new(),
            subscribed_to: Table::new(),
            rng: new_std_rng(),
            notify_ready: false,
            heartbeat: false,
            heartbeat_watchdogs: Table::new(),
        }
    }

    /// Known peers have unique ids, each a key of the table.
    pub proof fn lemma_known(&self)
        requires
            self.wf(),
        ensures
            unique_ids(self.known_peers()),
            forall|j: int|
                0 <= j < self.known_peers().len() ==> self.known@.dom().contains(
                    #[trigger] self.known_peers()[j].id,
                ),
            forall|x: u128| #[trigger]
                self.known@.dom().contains(x) ==> exists|j: int|
                    0 <= j < self.known_peers().len() && self.known_peers()[j].id == x,
    {
        self.known.lemma_len();
        assert forall|j: int| 0 <= j < self.known_peers().len() implies self.known_peers()[j].id
            == self.known.key_seq()[j] && self.known@.dom().contains(
            #[trigger] self.known_peers()[j].id,
        ) by {
            self.known.lemma_entry(j);
        }
        assert forall|x: u128| #[trigger] self.known@.dom().contains(x) implies exists|j: int|
            0 <= j < self.known_peers().len() && self.known_peers()[j].id == x by {
            assert(self.known.key_seq().to_set().contains(x));
            let j = choose|j: int| 0 <= j < self.known.key_seq().len() && self.known.key_seq()[j] == x;
            self.known.lemma_entry(j);
        }
    }

    /// The ids of the candidates, and the candidates with weight
    /// `local_weight` when in this node's zone and `remote_weight` otherwise.
    fn candidate_ids(&self, local_weight: u32, remote_weight: u32) -> (r: (Vec<u128>, Vec<(u128, u32)>))
        requires
            self.wf(),
        ensures
            r.0@ == ids_of(self.candidates()),
            weighted_ids(r.1@) == ids_of(self.candidates()),
            forall|i: int|
                0 <= i < r.1@.len() ==> #[trigger] r.1@[i].1 == if same_zone(
                    self.candidates()[i].zone,
                    self.zone,
                ) {
                    local_weight
                } else {
                    remote_weight
                },
    {
        let ghost vals = self.known_peers();
        proof {
            self.known.lemma_len();
        }
        let mut ids: Vec<u128> = Vec::new();
        let mut weighted: Vec<(u128, u32)> = Vec::new();
        let mut i: usize = 0;
        while i < self.known.len()
            invariant
                self.wf(),
                vals == self.known_peers(),
                vals.len() == self.known.key_seq().len(),
                i <= vals.len(),
                ids@ == ids_of(others_of(vals.subrange(0, i as int), self.node_id)),
                weighted_ids(weighted@) == ids@,
                weighted@.len() == others_of(vals.subrange(0, i as int), self.node_id).len(),
                forall|j: int|
                    0 <= j < weighted@.len() ==> #[trigger] weighted@[j].1 == if same_zone(
                        others_of(vals.subrange(0, i as int), self.node_id)[j].zone,
                        self.zone,
                    ) {
                        local_weight
                    } else {
                        remote_weight
                    },
            decreases vals.len() - i,
        {
            let p = self.known.value_at(i);
            let ghost sub = vals.subrange(0, i as int + 1);
            proof {
                assert(sub.drop_last() =~= vals.subrange(0, i as int));
                assert(sub.last() == vals[i as int]);
            }
            if p.id != self.node_id {
                let w = if zone_eq(&p.zone, &self.zone) {
                    local_weight
                } else {
                    remote_weight
                };
                ids.push(p.id);
                weighted.push((p.id, w));
                proof {
                    let o = others_of(vals.subrange(0, i as int), self.node_id);
                    assert(others_of(sub, self.node_id) == o.push(vals[i as int]));
                    assert(ids@ =~= ids_of(o.push(vals[i as int])));
                    assert(weighted_ids(weighted@) =~= ids@);
                }
            } else {
                proof {
                    assert(others_of(sub, self.node_id) == others_of(vals.subrange(0, i as int), self.node_id));
                }
            }
            i = i + 1;
        }
        proof {
            assert(vals.subrange(0, vals.len() as int) =~= vals);
        }
        (ids, weighted)
    }

    /// The ids of the candidates in this node's zone, and the candidates in
    /// other zones.
    fn split_by_zone(&self) -> (r: (Vec<u128>, Vec<Peer>))
        requires
            self.wf(),
        ensures
            r.0@ == ids_of(self.local_candidates()),
            r.1@ == self.remote_candidates(),
    {
        let ghost vals = self.known_peers();
        proof {
            self.known.lemma_len();
        }
        let mut local: Vec<u128> = Vec::new();
        let mut remote: Vec<Peer> = Vec::new();
        let mut i: usize = 0;
        while i < self.known.len()
            invariant
                self.wf(),
                vals == self.known_peers(),
                vals.len() == self.known.key_seq().len(),
                i <= vals.len(),
                local@ == ids_of(zoned_of(vals.subrange(0, i as int), self.node_id, self.zone, true)),
                remote@ == zoned_of(vals.subrange(0, i as int), self.node_id, self.zone, false),
            decreases vals.len() - i,
        {
            let p = self.known.value_at(i);
            let ghost sub = vals.subrange(0, i as int + 1);
            proof {
                assert(sub.drop_last() =~= vals.subrange(0, i as int));
                assert(sub.last() == vals[i as int]);
            }
            if p.id != self.node_id {
                if zone_eq(&p.zone, &self.zone) {
                    local.push(p.id);
                    proof {
                        let o = zoned_of(vals.subrange(0, i as int), self.node_id, self.zone, true);
                        assert(local@ =~= ids_of(o.push(vals[i as int])));
                    }
                } else {
                    remote.push(p.clone());
                }
            }
            i = i + 1;
        }
        proof {
            assert(vals.subrange(0, vals.len() as int) =~= vals);
        }
        (local, remote)
    }
}

} // verus!

verus! {

/// The zones of `ps` occur once each, each belongs to a peer of `ps`, and
/// every peer's zone is among them.
proof fn lemma_distinct_zones(ps: Seq<Peer>)
    ensures
        distinct_zones(ps).no_duplicates(),
        forall|j: int|
            0 <= j < distinct_zones(ps).len() ==> exists|k: int|
                0 <= k < ps.len() && zone_view(ps[k].zone) == #[trigger] distinct_zones(ps)[j],
        forall|k: int| 0 <= k < ps.len() ==> distinct_zones(ps).contains(zone_view(#[trigger] ps[k].zone)),
    decreases ps.len(),
{
    if ps.len() > 0 {
        let d = ps.drop_last();
        lemma_distinct_zones(d);
        let rest = distinct_zones(d);
        let dz = distinct_zones(ps);
        assert forall|j: int| 0 <= j < dz.len() implies exists|k: int|
            0 <= k < ps.len() && zone_view(ps[k].zone) == #[trigger] dz[j] by {
            if j < rest.len() {
                let k = choose|k: int| 0 <= k < d.len() && zone_view(d[k].zone) == rest[j];
                assert(ps[k] == d[k]);
            } else {
                assert(ps[ps.len() - 1] == ps.last());
            }
        }
        assert forall|k: int| 0 <= k < ps.len() implies dz.contains(zone_view(#[trigger] ps[k].zone)) by {
            if k < d.len() {
                assert(d[k] == ps[k]);
                assert(rest.contains(zone_view(d[k].zone)));
                let j = choose|j: int| 0 <= j < rest.len() && rest[j] == zone_view(d[k].zone);
                assert(dz[j] == rest[j]);
            } else {
                assert(ps[k] == ps.last());
                if !rest.contains(zone_view(ps.last().zone)) {
                    assert(dz[rest.len() as int] == zone_view(ps.last().zone));
                }
            }
        }
    }
}

/// The ids in a zone are the ids of the peers in that zone.
proof fn lemma_ids_in_zone(ps: Seq<Peer>, z: Option<Seq<char>>)
    ensures
        forall|x: u128|
            ids_in_zone(ps, z).contains(x) ==> exists|k: int|
                0 <= k < ps.len() && ps[k].id == x && zone_view(ps[k].zone) == z,
        forall|k: int|
            0 <= k < ps.len() && zone_view(ps[k].zone) == z ==> ids_in_zone(ps, z).contains(
                #[trigger] ps[k].id,
            ),
    decreases ps.len(),
{
    if ps.len() > 0 {
        let d = ps.drop_last();
        lemma_ids_in_zone(d, z);
        let rest = ids_in_zone(d, z);
        let r = ids_in_zone(ps, z);
        assert forall|x: u128| r.contains(x) implies exists|k: int|
            0 <= k < ps.len() && ps[k].id == x && zone_view(ps[k].zone) == z by {
            let i = choose|i: int| 0 <= i < r.len() && r[i] == x;
            if i < rest.len() {
                assert(rest.contains(x));
                let k = choose|k: int| 0 <= k < d.len() && d[k].id == x && zone_view(d[k].zone) == z;
                assert(ps[k] == d[k]);
            } else {
                assert(ps[ps.len() - 1] == ps.last());
            }
        }
        assert forall|k: int| 0 <= k < ps.len() && zone_view(ps[k].zone) == z implies r.contains(
            #[trigger] ps[k].id,
        ) by {
            if k < d.len() {
                assert(d[k] == ps[k]);
                assert(rest.contains(d[k].id));
                let i = choose|i: int| 0 <= i < rest.len() && rest[i] == d[k].id;
                assert(r[i] == rest[i]);
            } else {
                assert(ps[k] == ps.last());
                assert(r[rest.len() as int] == ps[k].id);
            }
        }
    }
}

/// The seed of the draw for the `j`-th remote zone.
pub open spec fn zone_seed(seed: u64, j: int) -> u64 {
    seed.wrapping_add(j as u64).wrapping_add(1)
}

/// One id drawn from each zone of `ps`, in the order of `distinct_zones`:
/// the draw for zone `j` picks one of its peers with a generator seeded with
/// `zone_seed(seed, j)`.
pub open spec fn zone_picks(seed: u64, ps: Seq<Peer>) -> Seq<u128> {
    Seq::new(
        distinct_zones(ps).len(),
        |j: int| chacha_choose(zone_seed(seed, j), ids_in_zone(ps, distinct_zones(ps)[j]), 1)[0],
    )
}

/// `r` holds, for each zone of `ps`, the id of one of its peers.
pub open spec fn picks_one_per_zone(ps: Seq<Peer>, r: Seq<u128>) -> bool {
    &&& r.len() == distinct_zones(ps).len()
    &&& forall|j: int| 0 <= j < r.len() ==> ids_in_zone(ps, distinct_zones(ps)[j]).contains(#[trigger] r[j])
}

/// The candidates with weight `local_weight` when in this node's zone and
/// `remote_weight` otherwise.
pub open spec fn weighted_candidates(pm: PeerManager, local_weight: u32, remote_weight: u32) -> Seq<
    (u128, u32),
> {
    pm.candidates().map_values(
        |p: Peer|
            (
                p.id,
                if same_zone(p.zone, pm.zone) {
                    local_weight
                } else {
                    remote_weight
                },
            ),
    )
}

/// The seed of the choice of peers: the low 64 bits of the node's id.
pub open spec fn chooser_seed(pm: PeerManager) -> u64 {
    pm.node_id as u64
}

/// What every choice of peers to subscribe to is: the seeded choice of the
/// strategy, with no repeats, only known peers other than this node, and as
/// many as the strategy asks for.
pub open spec fn peers_chosen(pm: PeerManager, r: Seq<u128>) -> bool {
    let n = pm.peer_subscriptions as nat;
    let seed = chooser_seed(pm);
    let zones = distinct_zones(pm.remote_candidates()).len();
    &&& r.no_duplicates()
    &&& forall|x: u128| r.contains(x) ==> pm.known@.dom().contains(x) && x != pm.node_id
    &&& match pm.distribution_strategy {
        DistributionStrategy::Uniform => {
            &&& r == chacha_choose(seed, ids_of(pm.candidates()), n)
            &&& r.len() == min_len(n, pm.candidates().len())
            &&& pm.candidates().len() <= n ==> r == ids_of(pm.candidates())
        },
        DistributionStrategy::HubAndSpoke => {
            let local = chacha_choose(seed, ids_of(pm.local_candidates()), sat_sub(n, zones));
            let remote = zone_picks(seed, pm.remote_candidates());
            &&& r == local + remote
            &&& r.len() == min_len(sat_sub(n, zones), pm.local_candidates().len()) + zones
            &&& forall|x: u128| local.contains(x) ==> ids_of(pm.local_candidates()).contains(x)
            &&& picks_one_per_zone(pm.remote_candidates(), remote)
        },
        DistributionStrategy::PreferLocal => {
            &&& r == chacha_choose_weighted(seed, weighted_candidates(pm, 2, 1), n)
            &&& r.len() == min_len(n, pm.candidates().len())
        },
        DistributionStrategy::PreferRemote => {
            &&& r == chacha_choose_weighted(seed, weighted_candidates(pm, 1, 2), n)
            &&& r.len() == min_len(n, pm.candidates().len())
        },
    }
}

/// Whether `z` is among `zones`.
fn contains_zone(zones: &Vec<Option<String>>, z: &Option<String>) -> (r: bool)
    ensures
        r == zones@.map_values(|x: Option<String>| zone_view(x)).contains(zone_view(*z)),
{
    let ghost v = zones@.map_values(|x: Option<String>| zone_view(x));
    let mut i: usize = 0;
    while i < zones.len()
        invariant
            v == zones@.map_values(|x: Option<String>| zone_view(x)),
            i <= zones@.len(),
            forall|k: int| 0 <= k < i ==> v[k] != zone_view(*z),
        decreases zones@.len() - i,
    {
        if zone_eq(&zones[i], z) {
            assert(v[i as int] == zone_view(*z));
            return true;
        }
        i = i + 1;
    }
    false
}

/// The zones of `ps`, each once, in the order they first occur.
fn zones_of(ps: &Vec<Peer>) -> (r: Vec<Option<String>>)
    ensures
        r@.map_values(|x: Option<String>| zone_view(x)) == distinct_zones(ps@),
{
    let mut r: Vec<Option<String>> = Vec::new();
    let mut i: usize = 0;
    while i < ps.len()
        invariant
            i <= ps@.len(),
            r@.map_values(|x: Option<String>| zone_view(x)) == distinct_zones(ps@.subrange(0, i as int)),
        decreases ps@.len() - i,
    {
        let ghost sub = ps@.subrange(0, i as int + 1);
        proof {
            assert(sub.drop_last() =~= ps@.subrange(0, i as int));
            assert(sub.last() == ps@[i as int]);
        }
        if !contains_zone(&r, &ps[i].zone) {
            r.push(clone_zone(&ps[i].zone));
            proof {
                assert(r@.map_values(|x: Option<String>| zone_view(x)) =~= distinct_zones(sub));
            }
        }
        i = i + 1;
    }
    proof {
        assert(ps@.subrange(0, i as int) =~= ps@);
    }
    r
}

/// The ids of the peers of `ps` in zone `z`, in order.
fn ids_with_zone(ps: &Vec<Peer>, z: &Option<String>) -> (r: Vec<u128>)
    ensures
        r@ == ids_in_zone(ps@, zone_view(*z)),
{
    let mut r: Vec<u128> = Vec::new();
    let mut i: usize = 0;
    while i < ps.len()
        invariant
            i <= ps@.len(),
            r@ == ids_in_zone(ps@.subrange(0, i as int), zone_view(*z)),
        decreases ps@.len() - i,
    {
        let ghost sub = ps@.subrange(0, i as int + 1);
        proof {
            assert(sub.drop_last() =~= ps@.subrange(0, i as int));
            assert(sub.last() == ps@[i as int]);
        }
        if zone_eq(&ps[i].zone, z) {
            r.push(ps[i].id);
        }
        i = i + 1;
    }
    proof {
        assert(ps@.subrange(0, i as int) =~= ps@);
    }
    r
}

impl PeerManager {
    /// One id from each zone of the remote candidates, drawn as
    /// `zone_picks` says.
    fn pick_one_per_zone(seed: u64, remote: &Vec<Peer>) -> (r: Vec<u128>)
        requires
            unique_ids(remote@),
        ensures
            r@ == zone_picks(seed, remote@),
            picks_one_per_zone(remote@, r@),
            r@.no_duplicates(),
            forall|x: u128| r@.contains(x) ==> ids_of(remote@).contains(x),
    {
        let zones = zones_of(remote);
        let ghost dz = distinct_zones(remote@);
        proof {
            lemma_distinct_zones(remote@);
        }
        let mut picks: Vec<u128> = Vec::new();
        let mut j: usize = 0;
        while j < zones.len()
            invariant
                dz == distinct_zones(remote@),
                zones@.map_values(|x: Option<String>| zone_view(x)) == dz,
                dz.no_duplicates(),
                forall|k: int|
                    0 <= k < dz.len() ==> exists|m: int|
                        0 <= m < remote@.len() && zone_view(remote@[m].zone) == #[trigger] dz[k],
                j <= zones@.len(),
                picks@ =~= zone_picks(seed, remote@).subrange(0, j as int),
                forall|k: int| 0 <= k < j ==> ids_in_zone(remote@, dz[k]).contains(#[trigger] picks@[k]),
            decreases zones@.len() - j,
        {
            let ids = ids_with_zone(remote, &zones[j]);
            proof {
                assert(zone_view(zones@[j as int]) == dz[j as int]);
                lemma_ids_in_zone(remote@, dz[j as int]);
                let m = choose|m: int| 0 <= m < remote@.len() && zone_view(remote@[m].zone) == dz[j as int];
                assert(ids@.contains(remote@[m].id));
            }
            let s = seed.wrapping_add(j as u64).wrapping_add(1);
            let c = choose_seeded(s, &ids, 1);
            proof {
                let q = choose|q: Seq<int>|
                    {
                        &&& q.len() == c@.len()
                        &&& q.no_duplicates()
                        &&& forall|k: int|
                            0 <= k < c@.len() ==> 0 <= #[trigger] q[k] < ids@.len() && c@[k] == ids@[q[k]]
                    };
                assert(0 <= q[0] < ids@.len() && c@[0] == ids@[q[0]]);
            }
            picks.push(c[0]);
            j = j + 1;
        }
        proof {
            assert(picks@ =~= zone_picks(seed, remote@));
            assert forall|a: int, b: int|
                0 <= a < picks@.len() && 0 <= b < picks@.len() && a != b implies picks@[a]
                != picks@[b] by {
                lemma_ids_in_zone(remote@, dz[a]);
                lemma_ids_in_zone(remote@, dz[b]);
                assert(ids_in_zone(remote@, dz[a]).contains(picks@[a]));
                assert(ids_in_zone(remote@, dz[b]).contains(picks@[b]));
                let ka = choose|k: int|
                    0 <= k < remote@.len() && remote@[k].id == picks@[a] && zone_view(remote@[k].zone)
                        == dz[a];
                let kb = choose|k: int|
                    0 <= k < remote@.len() && remote@[k].id == picks@[b] && zone_view(remote@[k].zone)
                        == dz[b];
                assert(dz[a] != dz[b]);
            }
            assert forall|x: u128| picks@.contains(x) implies ids_of(remote@).contains(x) by {
                let a = choose|a: int| 0 <= a < picks@.len() && picks@[a] == x;
                lemma_ids_in_zone(remote@, dz[a]);
                assert(ids_in_zone(remote@, dz[a]).contains(picks@[a]));
                let k = choose|k: int|
                    0 <= k < remote@.len() && remote@[k].id == x && zone_view(remote@[k].zone) == dz[a];
                assert(ids_of(remote@)[k] == x);
            }
        }
        picks
    }

    /// An id of a candidate is the id of a known peer other than this node.
    proof fn lemma_in_known(&self, s: Seq<Peer>, x: u128)
        requires
            self.wf(),
            forall|i: int|
                0 <= i < s.len() ==> self.known_peers().contains(#[trigger] s[i]) && s[i].id
                    != self.node_id,
            ids_of(s).contains(x),
        ensures
            self.known@.dom().contains(x),
            x != self.node_id,
    {
        self.lemma_known();
        let i = choose|i: int| 0 <= i < ids_of(s).len() && ids_of(s)[i] == x;
        assert(self.known_peers().contains(s[i]));
        let j = choose|j: int| 0 <= j < self.known_peers().len() && self.known_peers()[j] == s[i];
        assert(self.known@.dom().contains(self.known_peers()[j].id));
    }

    /// The peers this node should be subscribed to, by distribution
    /// strategy. Every draw uses a generator seeded from the low 64 bits of
    /// this node's id, so the choice depends only on the known peers and the
    /// settings, and asking again gives the same choice.
    /// - Uniform: up to `peer_subscriptions` candidates (all of them when
    ///   there are no more than that).
    /// - HubAndSpoke: one candidate from each zone other than this node's,
    ///   plus up to `peer_subscriptions` minus the number of those zones (at
    ///   least zero) candidates from this node's zone.
    /// - PreferLocal, PreferRemote: up to `peer_subscriptions` candidates,
    ///   chosen with weight 2 for the preferred side and 1 for the other.
    pub fn choose_peers(&self) -> (r: Vec<u128>)
        requires
            self.wf(),
        ensures
            peers_chosen(*self, r@),
    {
        let ghost vals = self.known_peers();
        proof {
            self.lemma_known();
            lemma_others(vals, self.node_id);
            lemma_unique_ids(self.candidates());
            lemma_zoned(vals, self.node_id, self.zone, true);
            lemma_zoned(vals, self.node_id, self.zone, false);
            lemma_unique_ids(self.local_candidates());
            lemma_unique_ids(self.remote_candidates());
        }
        let seed: u64 = #[verifier::truncate] (self.node_id as u64);
        let n = self.peer_subscriptions;
        let r = match self.distribution_strategy {
            DistributionStrategy::Uniform => {
                let (ids, _) = self.candidate_ids(1, 1);
                let r = choose_seeded(seed, &ids, n);
                proof {
                    lemma_picks(r@, ids@);
                    assert forall|x: u128| r@.contains(x) implies self.known@.dom().contains(x)
                        && x != self.node_id by {
                        self.lemma_in_known(self.candidates(), x);
                    }
                }
                r
            },
            DistributionStrategy::HubAndSpoke => {
                let (local, remote) = self.split_by_zone();
                let mut remote_picks = Self::pick_one_per_zone(seed, &remote);
                let remaining = n.saturating_sub(remote_picks.len());
                let mut local_picks = choose_seeded(seed, &local, remaining);
                proof {
                    lemma_picks(local_picks@, local@);
                    let lp = local_picks@;
                    let rp = remote_picks@;
                    assert forall|x: u128| lp.contains(x) implies !rp.contains(x) by {
                        if rp.contains(x) {
                            let a = choose|a: int| 0 <= a < local@.len() && local@[a] == x;
                            let b = choose|b: int| 0 <= b < ids_of(remote@).len() && ids_of(remote@)[b] == x;
                            let pl = self.local_candidates()[a];
                            let pr = self.remote_candidates()[b];
                            assert(vals.contains(pl));
                            assert(vals.contains(pr));
                            let ja = choose|j: int| 0 <= j < vals.len() && vals[j] == pl;
                            let jb = choose|j: int| 0 <= j < vals.len() && vals[j] == pr;
                            assert(vals[ja].id == vals[jb].id);
                        }
                    }
                }
                let ghost lp = local_picks@;
                let ghost rp = remote_picks@;
                local_picks.append(&mut remote_picks);
                proof {
                    let all = local_picks@;
                    assert(all =~= lp + rp);
                    assert forall|a: int, b: int|
                        0 <= a < all.len() && 0 <= b < all.len() && a != b implies all[a] != all[b] by {
                        if a < lp.len() && b >= lp.len() {
                            assert(lp.contains(all[a]));
                            assert(rp[b - lp.len()] == all[b]);
                            assert(rp.contains(all[b]));
                        } else if a >= lp.len() && b < lp.len() {
                            assert(lp.contains(all[b]));
                            assert(rp[a - lp.len()] == all[a]);
                            assert(rp.contains(all[a]));
                        } else if a >= lp.len() && b >= lp.len() {
                            assert(rp[a - lp.len()] == all[a]);
                            assert(rp[b - lp.len()] == all[b]);
                        }
                    }
                    assert forall|x: u128| all.contains(x) implies self.known@.dom().contains(x)
                        && x != self.node_id by {
                        let a = choose|a: int| 0 <= a < all.len() && all[a] == x;
                        if a < lp.len() {
                            assert(lp.contains(x));
                            self.lemma_in_known(self.local_candidates(), x);
                        } else {
                            assert(rp[a - lp.len()] == x);
                            assert(rp.contains(x));
                            self.lemma_in_known(self.remote_candidates(), x);
                        }
                    }
                }
                local_picks
            },
            DistributionStrategy::PreferLocal => {
                let (_, weighted) = self.candidate_ids(2, 1);
                let r = choose_weighted_seeded(seed, &weighted, n);
                proof {
                    let wc = weighted_candidates(*self, 2, 1);
                    assert(weighted_ids(weighted@).len() == ids_of(self.candidates()).len());
                    assert forall|i: int| 0 <= i < weighted@.len() implies weighted@[i] == wc[i] by {
                        assert(weighted_ids(weighted@)[i] == ids_of(self.candidates())[i]);
                        assert(weighted@[i].1 == wc[i].1);
                    }
                    assert(weighted@ =~= wc);
                    lemma_picks(r@, weighted_ids(weighted@));
                    assert forall|x: u128| r@.contains(x) implies self.known@.dom().contains(x)
                        && x != self.node_id by {
                        self.lemma_in_known(self.candidates(), x);
                    }
                }
                r
            },
            DistributionStrategy::PreferRemote => {
                let (_, weighted) = self.candidate_ids(1, 2);
                let r = choose_weighted_seeded(seed, &weighted, n);
                proof {
                    let wc = weighted_candidates(*self, 1, 2);
                    assert(weighted_ids(weighted@).len() == ids_of(self.candidates()).len());
                    assert forall|i: int| 0 <= i < weighted@.len() implies weighted@[i] == wc[i] by {
                        assert(weighted_ids(weighted@)[i] == ids_of(self.candidates())[i]);
                        assert(weighted@[i].1 == wc[i].1);
                    }
                    assert(weighted@ =~= wc);
                    lemma_picks(r@, weighted_ids(weighted@));
                    assert forall|x: u128| r@.contains(x) implies self.known@.dom().contains(x)
                        && x != self.node_id by {
                        self.lemma_in_known(self.candidates(), x);
                    }
                }
                r
            },
        };
        r
    }
}

} // verus!

verus! {

use crate::peer::{PeerKeys, SockAddr};
use crate::outside::gen_range_u64;

pub const REASSIGN_DELAY_HIGH_MILLIS: u64 = 5_000;

pub const REASSIGN_DELAY_LOW_MILLIS: u64 = 25;

pub const HEARTBEAT_INTERVAL_MILLIS: u64 = 5_000;

pub const HEARTBEAT_MISSED_INTERVAL_MILLIS: u64 = 15_000;

/// What the membership service is asked to do.
pub enum PeerManagerRequest {
    /// A request from peer `from_id` (or from this node itself).
    Request { from_id: u128, request: Box<PeerRequest> },
    /// Someone waits to hear that the first subscription started.
    SetNotify,
    Reassign,
    StartHeartbeats,
    SendHeartbeat,
    Shutdown,
    GetSubscriberCount,
}

/// What the membership service asks the rest of the node to do, in order.
#[derive(Debug)]
pub enum PeerManagerAction {
    /// Send `request` to peer `to` in a new message.
    SendRequest { to: u128, request: PeerRequest },
    /// Broadcast a peer status to this node's subscribers.
    BroadcastPeerStatus(PeerStatus),
    /// The keys of every handshaken peer, for encrypting messages.
    KeysUpdated(Vec<PeerKeys>),
    /// The peers subscribed to this node.
    SubscribersUpdated(Vec<u128>),
    /// Ask for a reassignment after `delay_millis`, replacing any pending
    /// request for one.
    ScheduleReassign(u64),
    /// Ask for a heartbeat every `HEARTBEAT_INTERVAL_MILLIS`.
    StartHeartbeats,
    /// Ask the handshaker to bootstrap.
    Bootstrap,
    /// Handshake with the peer at an address, then ask it for a subscription.
    GreetThenSubscribe(SockAddr, u128),
    /// Report `peer` down unless its watchdog is re-armed within
    /// `HEARTBEAT_MISSED_INTERVAL_MILLIS`; replaces its armed watchdog.
    ArmWatchdog(u128, Peer),
    /// Disarm the watchdog of a peer.
    DisarmWatchdog(u128),
    /// Tell the waiter that the first subscription started.
    NotifyReady,
}

/// The keys of the handshaken peers among `ps`, in order.
pub open spec fn keys_of(ps: Seq<Peer>) -> Seq<PeerKeys>
    decreases ps.len(),
{
    if ps.len() == 0 {
        Seq::empty()
    } else {
        let rest = keys_of(ps.drop_last());
        let p = ps.last();
        if p.spec_is_handshaken() {
            rest.push(
                PeerKeys {
                    id: p.id,
                    sockaddr: p.sockaddr,
                    keypair: p.our_keypair->Some_0,
                    their_public_key: p.their_public_key->Some_0,
                },
            )
        } else {
            rest
        }
    }
}

/// `actions` asks for a reassignment exactly when this node has fewer
/// subscriptions than it wants.
pub open spec fn reassign_scheduled(pm: PeerManager, actions: Seq<PeerManagerAction>) -> bool {
    if pm.subscribed_to@.dom().len() < pm.peer_subscriptions {
        &&& actions.len() == 1
        &&& actions[0] matches PeerManagerAction::ScheduleReassign(d)
        &&& REASSIGN_DELAY_LOW_MILLIS <= d < REASSIGN_DELAY_HIGH_MILLIS
    } else {
        actions.len() == 0
    }
}

/// What `reset_heartbeat_watchdog` does: the watchdog of a known peer this
/// node is subscribed to is (re-)armed; any other is disarmed.
pub open spec fn watchdog_reset(
    pre: PeerManager,
    post: PeerManager,
    id: u128,
    actions: Seq<PeerManagerAction>,
) -> bool {
    &&& post.wf()
    &&& pre.same_settings(&post)
    &&& post.known == pre.known
    &&& post.subscribers == pre.subscribers
    &&& post.subscribed_to == pre.subscribed_to
    &&& post.notify_ready == pre.notify_ready
    &&& post.heartbeat == pre.heartbeat
    &&& if pre.subscribed_to@.dom().contains(id) && pre.known@.dom().contains(id) {
        &&& post.heartbeat_watchdogs@ == pre.heartbeat_watchdogs@.insert(id, ())
        &&& actions == seq![PeerManagerAction::ArmWatchdog(id, pre.known@[id])]
    } else {
        &&& post.heartbeat_watchdogs@ == pre.heartbeat_watchdogs@.remove(id)
        &&& actions == if pre.heartbeat_watchdogs@.dom().contains(id) {
            seq![PeerManagerAction::DisarmWatchdog(id)]
        } else {
            Seq::empty()
        }
    }
}

impl PeerManager {
    /// The settings stay the same.
    pub open spec fn same_settings(&self, other: &Self) -> bool {
        &&& other.node_id == self.node_id
        &&& other.peer_subscriptions == self.peer_subscriptions
        &&& other.zone == self.zone
        &&& other.distribution_strategy == self.distribution_strategy
    }

    /// Asks for a reassignment after a random delay when this node has fewer
    /// subscriptions than it wants.
    pub fn start_reassign_timer(&mut self) -> (actions: Vec<PeerManagerAction>)
        requires
            old(self).wf(),
        ensures
            final(self).wf(),
            old(self).same_settings(&*final(self)),
            final(self).known == old(self).known,
            final(self).subscribers == old(self).subscribers,
            final(self).subscribed_to == old(self).subscribed_to,
            final(self).heartbeat_watchdogs == old(self).heartbeat_watchdogs,
            final(self).notify_ready == old(self).notify_ready,
            final(self).heartbeat == old(self).heartbeat,
            reassign_scheduled(*old(self), actions@),
    {
        let mut actions: Vec<PeerManagerAction> = Vec::new();
        if self.subscribed_to.len() < self.peer_subscriptions {
            let millis = gen_range_u64(&mut self.rng, REASSIGN_DELAY_LOW_MILLIS, REASSIGN_DELAY_HIGH_MILLIS);
            actions.push(PeerManagerAction::ScheduleReassign(millis));
        }
        actions
    }

    /// The keys of every handshaken known peer.
    pub fn update_keys(&self) -> (r: PeerManagerAction)
        requires
            self.wf(),
        ensures
            r matches PeerManagerAction::KeysUpdated(ks) && ks@ == keys_of(self.known_peers()),
    {
        let ghost vals = self.known_peers();
        proof {
            self.known.lemma_len();
        }
        let mut ks: Vec<PeerKeys> = Vec::new();
        let mut i: usize = 0;
        while i < self.known.len()
            invariant
                self.wf(),
                vals == self.known_peers(),
                vals.len() == self.known.key_seq().len(),
                i <= vals.len(),
                ks@ == keys_of(vals.subrange(0, i as int)),
            decreases vals.len() - i,
        {
            let p = self.known.value_at(i);
            let ghost sub = vals.subrange(0, i as int + 1);
            proof {
                assert(sub.drop_last() =~= vals.subrange(0, i as int));
                assert(sub.last() == vals[i as int]);
            }
            if p.is_handshaken() {
                ks.push(
                    PeerKeys {
                        id: p.id,
                        sockaddr: p.sockaddr,
                        keypair: p.our_keypair.unwrap(),
                        their_public_key: p.their_public_key.unwrap(),
                    },
                );
            }
            i = i + 1;
        }
        proof {
            assert(vals.subrange(0, vals.len() as int) =~= vals);
        }
        PeerManagerAction::KeysUpdated(ks)
    }

    /// The peers subscribed to this node.
    pub fn update_subscribers(&self) -> (r: PeerManagerAction)
        requires
            self.wf(),
        ensures
            r matches PeerManagerAction::SubscribersUpdated(ids) && ids@ == self.subscribers.key_seq(),
    {
        let mut ids: Vec<u128> = Vec::new();
        let mut i: usize = 0;
        while i < self.subscribers.len()
            invariant
                self.wf(),
                i <= self.subscribers.key_seq().len(),
                ids@ == self.subscribers.key_seq().subrange(0, i as int),
            decreases self.subscribers.key_seq().len() - i,
        {
            ids.push(self.subscribers.key_at(i));
            i = i + 1;
            assert(ids@ =~= self.subscribers.key_seq().subrange(0, i as int));
        }
        assert(self.subscribers.key_seq().subrange(0, i as int) =~= self.subscribers.key_seq());
        PeerManagerAction::SubscribersUpdated(ids)
    }

    /// Disarms the watchdog of `id`, if armed.
    pub fn stop_heartbeat_watchdog(&mut self, id: u128) -> (actions: Vec<PeerManagerAction>)
        requires
            old(self).wf(),
        ensures
            final(self).wf(),
            old(self).same_settings(&*final(self)),
            final(self).known == old(self).known,
            final(self).subscribers == old(self).subscribers,
            final(self).subscribed_to == old(self).subscribed_to,
            final(self).notify_ready == old(self).notify_ready,
            final(self).heartbeat == old(self).heartbeat,
            final(self).heartbeat_watchdogs@ == old(self).heartbeat_watchdogs@.remove(id),
            actions@ == if old(self).heartbeat_watchdogs@.dom().contains(id) {
                seq![PeerManagerAction::DisarmWatchdog(id)]
            } else {
                Seq::empty()
            },
    {
        let mut actions: Vec<PeerManagerAction> = Vec::new();
        if self.heartbeat_watchdogs.remove(&id).is_some() {
            actions.push(PeerManagerAction::DisarmWatchdog(id));
        }
        proof {
            assert(actions@ =~= if old(self).heartbeat_watchdogs@.dom().contains(id) {
                seq![PeerManagerAction::DisarmWatchdog(id)]
            } else {
                Seq::empty()
            });
        }
        actions
    }

    /// Re-arms the watchdog of `id` when this node is subscribed to that
    /// known peer; disarms it otherwise.
    pub fn reset_heartbeat_watchdog(&mut self, id: u128) -> (actions: Vec<PeerManagerAction>)
        requires
            old(self).wf(),
        ensures
            watchdog_reset(*old(self), *final(self), id, actions@),
    {
        if self.subscribed_to.contains_key(&id) {
            match self.known.get(&id) {
                Some(peer) => {
                    let peer = peer.clone();
                    self.heartbeat_watchdogs.insert(id, ());
                    let mut actions: Vec<PeerManagerAction> = Vec::new();
                    actions.push(PeerManagerAction::ArmWatchdog(id, peer));
                    proof {
                        assert(actions@ =~= seq![PeerManagerAction::ArmWatchdog(id, old(self).known@[id])]);
                    }
                    actions
                },
                None => self.stop_heartbeat_watchdog(id),
            }
        } else {
            self.stop_heartbeat_watchdog(id)
        }
    }
}

} // verus!

verus! {

/// Whether `peer` takes the place of what is known under its id: it does when
/// nothing is; when both carry a handshake timestamp, the newer one wins;
/// otherwise a handshaken peer wins.
pub open spec fn peer_replaces(known: Map<u128, Peer>, peer: Peer) -> bool {
    if !known.dom().contains(peer.id) {
        true
    } else {
        match (known[peer.id].handshake_timestamp, peer.handshake_timestamp) {
            (Some(old_ts), Some(new_ts)) => new_ts > old_ts,
            _ => peer.spec_is_handshaken(),
        }
    }
}

/// `actions` hands out the keys of `pm`'s handshaken peers, then asks for a
/// reassignment when `pm` has fewer subscriptions than it wants.
pub open spec fn keys_then_reassign(pm: PeerManager, actions: Seq<PeerManagerAction>) -> bool {
    &&& actions.len() >= 1
    &&& actions[0] matches PeerManagerAction::KeysUpdated(ks) && ks@ == keys_of(pm.known_peers())
    &&& reassign_scheduled(pm, actions.skip(1))
}

/// Only the known peers may have changed.
pub open spec fn only_known_changed(pre: PeerManager, post: PeerManager) -> bool {
    &&& post.wf()
    &&& pre.same_settings(&post)
    &&& post.subscribers == pre.subscribers
    &&& post.subscribed_to == pre.subscribed_to
    &&& post.heartbeat_watchdogs == pre.heartbeat_watchdogs
    &&& post.notify_ready == pre.notify_ready
    &&& post.heartbeat == pre.heartbeat
}

/// What `add_peer` does.
pub open spec fn peer_added(
    pre: PeerManager,
    post: PeerManager,
    peer: Peer,
    actions: Seq<PeerManagerAction>,
) -> bool {
    &&& only_known_changed(pre, post)
    &&& post.known@ == if peer_replaces(pre.known@, peer) {
        pre.known@.insert(peer.id, peer)
    } else {
        pre.known@
    }
    &&& keys_then_reassign(post, actions)
}

/// The number of actions that disarming the watchdog of `id` takes.
pub open spec fn disarm_len(pm: PeerManager, id: u128) -> int {
    if pm.heartbeat_watchdogs@.dom().contains(id) { 1 } else { 0 }
}

/// What `remove_peer` does: the subscribers as they were are handed out,
/// the peer is forgotten everywhere (its watchdog disarmed), the keys are
/// handed out again and a reassignment may be asked for.
pub open spec fn peer_removed(
    pre: PeerManager,
    post: PeerManager,
    id: u128,
    actions: Seq<PeerManagerAction>,
) -> bool {
    &&& post.wf()
    &&& pre.same_settings(&post)
    &&& post.known@ == pre.known@.remove(id)
    &&& post.subscribers@ == pre.subscribers@.remove(id)
    &&& post.subscribed_to@ == pre.subscribed_to@.remove(id)
    &&& post.heartbeat_watchdogs@ == pre.heartbeat_watchdogs@.remove(id)
    &&& post.notify_ready == pre.notify_ready
    &&& post.heartbeat == pre.heartbeat
    &&& actions.len() >= 1 + disarm_len(pre, id)
    &&& actions[0] matches PeerManagerAction::SubscribersUpdated(ids) && ids@ == pre.subscribers.key_seq()
    &&& disarm_len(pre, id) == 1 ==> actions[1] == PeerManagerAction::DisarmWatchdog(id)
    &&& keys_then_reassign(post, actions.skip(1 + disarm_len(pre, id)))
}

/// `known` with each peer of `ps` whose id is not yet known added, in order.
pub open spec fn with_unknown(known: Map<u128, Peer>, ps: Seq<Peer>) -> Map<u128, Peer>
    decreases ps.len(),
{
    if ps.len() == 0 {
        known
    } else {
        let m = with_unknown(known, ps.drop_last());
        if m.dom().contains(ps.last().id) {
            m
        } else {
            m.insert(ps.last().id, ps.last())
        }
    }
}

/// What `update_peers` does: unknown peers become known, and a reassignment
/// may be asked for when any did.
pub open spec fn peers_updated(
    pre: PeerManager,
    post: PeerManager,
    peers: Seq<Peer>,
    actions: Seq<PeerManagerAction>,
) -> bool {
    &&& only_known_changed(pre, post)
    &&& post.known@ == with_unknown(pre.known@, peers)
    &&& if exists|k: u128| post.known@.dom().contains(k) && !pre.known@.dom().contains(k) {
        reassign_scheduled(pre, actions)
    } else {
        actions.len() == 0
    }
}

/// What `start_heartbeats` does.
pub open spec fn heartbeats_started(
    pre: PeerManager,
    post: PeerManager,
    actions: Seq<PeerManagerAction>,
) -> bool {
    &&& post == (PeerManager { heartbeat: true, ..pre })
    &&& actions == if pre.heartbeat {
        Seq::<PeerManagerAction>::empty()
    } else {
        seq![PeerManagerAction::StartHeartbeats]
    }
}

impl PeerManager {
    /// Learns of `peer`. The last write wins: a known peer is replaced by one
    /// with a newer handshake timestamp, or, where either timestamp is
    /// missing, by a handshaken one.
    pub fn add_peer(&mut self, peer: Peer) -> (actions: Vec<PeerManagerAction>)
        requires
            old(self).wf(),
        ensures
            peer_added(*old(self), *final(self), peer, actions@),
    {
        let replace = match self.known.get(&peer.id) {
            Some(existing) => match (existing.handshake_timestamp, peer.handshake_timestamp) {
                (Some(old_ts), Some(new_ts)) => new_ts > old_ts,
                _ => peer.is_handshaken(),
            },
            None => true,
        };
        if replace {
            let id = peer.id;
            self.known.insert(id, peer);
        }
        let mut actions: Vec<PeerManagerAction> = Vec::new();
        actions.push(self.update_keys());
        let mut more = self.start_reassign_timer();
        let ghost more_seq = more@;
        actions.append(&mut more);
        proof {
            assert(actions@.skip(1) =~= more_seq);
        }
        actions
    }

    /// Forgets `peer`: it is no longer known, subscribed to or a subscriber,
    /// and its watchdog is disarmed.
    pub fn remove_peer(&mut self, peer: Peer) -> (actions: Vec<PeerManagerAction>)
        requires
            old(self).wf(),
        ensures
            peer_removed(*old(self), *final(self), peer.id, actions@),
    {
        let id = peer.id;
        let mut actions: Vec<PeerManagerAction> = Vec::new();
        actions.push(self.update_subscribers());
        let mut disarm = self.stop_heartbeat_watchdog(id);
        let ghost disarm_seq = disarm@;
        actions.append(&mut disarm);
        self.subscribed_to.remove(&id);
        self.subscribers.remove(&id);
        self.known.remove(&id);
        proof {
            assert forall|k: u128| #[trigger] self.known@.dom().contains(k) implies self.known@[k].id
                == k by {
                assert(old(self).known@.dom().contains(k));
            }
        }
        let ghost mid = actions@;
        actions.push(self.update_keys());
        let mut more = self.start_reassign_timer();
        let ghost more_seq = more@;
        actions.append(&mut more);
        proof {
            let d = disarm_len(*old(self), id);
            assert(mid.len() == 1 + d);
            assert(actions@.skip(1 + d)[0] == actions@[1 + d]);
            assert(actions@.skip(1 + d).skip(1) =~= more_seq);
            if d == 1 {
                assert(actions@[1] == disarm_seq[0]);
            }
        }
        actions
    }

    /// Learns of each peer of `peers` whose id is not yet known, in order.
    pub fn update_peers(&mut self, peers: &Vec<Peer>) -> (actions: Vec<PeerManagerAction>)
        requires
            old(self).wf(),
        ensures
            peers_updated(*old(self), *final(self), peers@, actions@),
    {
        let ghost pre = *self;
        let mut added = false;
        let mut i: usize = 0;
        while i < peers.len()
            invariant
                self.wf(),
                only_known_changed(pre, *self),
                i <= peers@.len(),
                self.known@ == with_unknown(pre.known@, peers@.subrange(0, i as int)),
                forall|k: u128| #[trigger] pre.known@.dom().contains(k) ==> self.known@.dom().contains(k),
                added <==> exists|k: u128| self.known@.dom().contains(k) && !pre.known@.dom().contains(k),
            decreases peers@.len() - i,
        {
            let ghost before = self.known@;
            let ghost sub = peers@.subrange(0, i as int + 1);
            proof {
                assert(sub.drop_last() =~= peers@.subrange(0, i as int));
                assert(sub.last() == peers@[i as int]);
            }
            let id = peers[i].id;
            if !self.known.contains_key(&id) {
                let p = peers[i].clone();
                self.known.insert(id, p);
                proof {
                    assert(self.known@.dom().contains(id) && !pre.known@.dom().contains(id));
                    assert forall|k: u128| #[trigger] self.known@.dom().contains(k) implies self.known@[k].id
                        == k by {
                        if k != id {
                            assert(before.dom().contains(k));
                        }
                    }
                }
                added = true;
            } else {
                proof {
                    assert(self.known@ == before);
                }
            }
            i = i + 1;
        }
        proof {
            assert(peers@.subrange(0, peers@.len() as int) =~= peers@);
        }
        if added {
            self.start_reassign_timer()
        } else {
            Vec::new()
        }
    }

    /// Starts sending heartbeats, unless they are being sent already.
    pub fn start_heartbeats(&mut self) -> (actions: Vec<PeerManagerAction>)
        ensures
            heartbeats_started(*old(self), *final(self), actions@),
    {
        let mut actions: Vec<PeerManagerAction> = Vec::new();
        if !self.heartbeat {
            self.heartbeat = true;
            actions.push(PeerManagerAction::StartHeartbeats);
        }
        proof {
            assert(actions@ =~= if old(self).heartbeat {
                Seq::<PeerManagerAction>::empty()
            } else {
                seq![PeerManagerAction::StartHeartbeats]
            });
        }
        actions
    }
}

/// A request to each of `ids`, in order.
pub open spec fn requests_to(ids: Seq<u128>, request: PeerRequest) -> Seq<PeerManagerAction> {
    ids.map_values(|id: u128| PeerManagerAction::SendRequest { to: id, request: request })
}

/// What `send_heartbeat` asks for: a bootstrap when this node is subscribed
/// to nobody, then a heartbeat to each subscriber.
pub open spec fn heartbeat_actions(pm: PeerManager) -> Seq<PeerManagerAction> {
    (if pm.subscribed_to@.dom().len() == 0 {
        seq![PeerManagerAction::Bootstrap]
    } else {
        Seq::<PeerManagerAction>::empty()
    }) + requests_to(pm.subscribers.key_seq(), PeerRequest::Heartbeat)
}

/// What `start_subscription` does: a known peer becomes a subscriber (an
/// unknown one is dropped from them), the subscribers are handed out,
/// heartbeats start and the peer is told its subscription started.
pub open spec fn subscription_accepted(
    pre: PeerManager,
    post: PeerManager,
    id: u128,
    actions: Seq<PeerManagerAction>,
) -> bool {
    &&& post.wf()
    &&& pre.same_settings(&post)
    &&& post.known == pre.known
    &&& post.subscribed_to == pre.subscribed_to
    &&& post.heartbeat_watchdogs == pre.heartbeat_watchdogs
    &&& post.notify_ready == pre.notify_ready
    &&& post.heartbeat
    &&& post.subscribers@ == if pre.known@.dom().contains(id) {
        pre.subscribers@.insert(id, ())
    } else {
        pre.subscribers@.remove(id)
    }
    &&& actions.len() >= 1
    &&& actions[0] matches PeerManagerAction::SubscribersUpdated(ids) && ids@ == post.subscribers.key_seq()
    &&& actions.skip(1) == (if pre.heartbeat {
        Seq::<PeerManagerAction>::empty()
    } else {
        seq![PeerManagerAction::StartHeartbeats]
    }) + seq![PeerManagerAction::SendRequest { to: id, request: PeerRequest::SubscriptionStarted }]
}

/// What `end_subscription` does.
pub open spec fn subscription_ended(
    pre: PeerManager,
    post: PeerManager,
    id: u128,
    actions: Seq<PeerManagerAction>,
) -> bool {
    &&& post.wf()
    &&& pre.same_settings(&post)
    &&& post.known == pre.known
    &&& post.subscribed_to == pre.subscribed_to
    &&& post.heartbeat_watchdogs == pre.heartbeat_watchdogs
    &&& post.notify_ready == pre.notify_ready
    &&& post.heartbeat == pre.heartbeat
    &&& post.subscribers@ == pre.subscribers@.remove(id)
    &&& actions.len() == 1
    &&& actions[0] matches PeerManagerAction::SubscribersUpdated(ids) && ids@ == post.subscribers.key_seq()
}

/// What `subscription_started` does: this node is now subscribed to `id`,
/// whose watchdog is armed when it is known and disarmed otherwise.
pub open spec fn subscription_confirmed(
    pre: PeerManager,
    post: PeerManager,
    id: u128,
    actions: Seq<PeerManagerAction>,
) -> bool {
    &&& post.wf()
    &&& pre.same_settings(&post)
    &&& post.known == pre.known
    &&& post.subscribers == pre.subscribers
    &&& post.notify_ready == pre.notify_ready
    &&& post.heartbeat == pre.heartbeat
    &&& post.subscribed_to@ == pre.subscribed_to@.insert(id, ())
    &&& if pre.known@.dom().contains(id) {
        &&& post.heartbeat_watchdogs@ == pre.heartbeat_watchdogs@.insert(id, ())
        &&& actions == seq![PeerManagerAction::ArmWatchdog(id, pre.known@[id])]
    } else {
        &&& post.heartbeat_watchdogs@ == pre.heartbeat_watchdogs@.remove(id)
        &&& actions == if pre.heartbeat_watchdogs@.dom().contains(id) {
            seq![PeerManagerAction::DisarmWatchdog(id)]
        } else {
            Seq::empty()
        }
    }
}

/// What `shutdown` does: every peer this node is subscribed to is told the
/// subscription ends, and this node is subscribed to nobody.
pub open spec fn shut_down(pre: PeerManager, post: PeerManager, actions: Seq<PeerManagerAction>) -> bool {
    &&& post.wf()
    &&& pre.same_settings(&post)
    &&& post.known == pre.known
    &&& post.subscribers == pre.subscribers
    &&& post.heartbeat_watchdogs == pre.heartbeat_watchdogs
    &&& post.notify_ready == pre.notify_ready
    &&& post.heartbeat == pre.heartbeat
    &&& post.subscribed_to@ == Map::<u128, ()>::empty()
    &&& actions == requests_to(pre.subscribed_to.key_seq(), PeerRequest::EndSubscription)
}

impl PeerManager {
    /// A request to each of `ids`.
    fn requests(ids: &Table<u128, ()>, request: &PeerRequest) -> (r: Vec<PeerManagerAction>)
        requires
            ids.wf(),
            request is Heartbeat || request is EndSubscription,
        ensures
            r@ == requests_to(ids.key_seq(), *request),
    {
        let mut r: Vec<PeerManagerAction> = Vec::new();
        let mut i: usize = 0;
        while i < ids.len()
            invariant
                ids.wf(),
                request is Heartbeat || request is EndSubscription,
                i <= ids.key_seq().len(),
                r@ == requests_to(ids.key_seq().subrange(0, i as int), *request),
            decreases ids.key_seq().len() - i,
        {
            let req = match request {
                PeerRequest::Heartbeat => PeerRequest::Heartbeat,
                _ => PeerRequest::EndSubscription,
            };
            r.push(PeerManagerAction::SendRequest { to: ids.key_at(i), request: req });
            i = i + 1;
            assert(r@ =~= requests_to(ids.key_seq().subrange(0, i as int), *request));
        }
        assert(ids.key_seq().subrange(0, i as int) =~= ids.key_seq());
        r
    }

    /// Bootstraps when subscribed to nobody, and sends a heartbeat to each
    /// subscriber.
    pub fn send_heartbeat(&self) -> (actions: Vec<PeerManagerAction>)
        requires
            self.wf(),
        ensures
            actions@ == heartbeat_actions(*self),
    {
        let mut actions: Vec<PeerManagerAction> = Vec::new();
        if self.subscribed_to.len() == 0 {
            actions.push(PeerManagerAction::Bootstrap);
        }
        let ghost first = actions@;
        let mut beats = Self::requests(&self.subscribers, &PeerRequest::Heartbeat);
        let ghost beats_seq = beats@;
        actions.append(&mut beats);
        assert(actions@ =~= heartbeat_actions(*self));
        actions
    }

    /// Sends the known peers to `to`.
    pub fn send_peerlist(&self, to: u128) -> (r: PeerManagerAction)
        requires
            self.wf(),
        ensures
            r matches PeerManagerAction::SendRequest { to: t, request: PeerRequest::Peers(ps) } && t
                == to && ps@ == self.known_peers(),
    {
        let ghost vals = self.known_peers();
        proof {
            self.known.lemma_len();
        }
        let mut ps: Vec<Peer> = Vec::new();
        let mut i: usize = 0;
        while i < self.known.len()
            invariant
                self.wf(),
                vals == self.known_peers(),
                vals.len() == self.known.key_seq().len(),
                i <= vals.len(),
                ps@ == vals.subrange(0, i as int),
            decreases vals.len() - i,
        {
            ps.push(self.known.value_at(i).clone());
            i = i + 1;
            assert(ps@ =~= vals.subrange(0, i as int));
        }
        assert(vals.subrange(0, i as int) =~= vals);
        PeerManagerAction::SendRequest { to, request: PeerRequest::Peers(ps) }
    }

    /// Accepts a subscription from `id` when it is a known peer.
    pub fn start_subscription(&mut self, id: u128) -> (actions: Vec<PeerManagerAction>)
        requires
            old(self).wf(),
        ensures
            subscription_accepted(*old(self), *final(self), id, actions@),
    {
        if self.known.contains_key(&id) {
            self.subscribers.insert(id, ());
        } else {
            self.subscribers.remove(&id);
        }
        let mut actions: Vec<PeerManagerAction> = Vec::new();
        actions.push(self.update_subscribers());
        let mut beats = self.start_heartbeats();
        let ghost beats_seq = beats@;
        actions.append(&mut beats);
        actions.push(
            PeerManagerAction::SendRequest { to: id, request: PeerRequest::SubscriptionStarted },
        );
        proof {
            assert(actions@.skip(1) =~= beats_seq + seq![
                PeerManagerAction::SendRequest { to: id, request: PeerRequest::SubscriptionStarted },
            ]);
        }
        actions
    }

    /// Ends the subscription of `id` to this node.
    pub fn end_subscription(&mut self, id: u128) -> (actions: Vec<PeerManagerAction>)
        requires
            old(self).wf(),
        ensures
            subscription_ended(*old(self), *final(self), id, actions@),
    {
        self.subscribers.remove(&id);
        let mut actions: Vec<PeerManagerAction> = Vec::new();
        actions.push(self.update_subscribers());
        actions
    }

    /// Records that this node's subscription to `id` started.
    pub fn subscription_started(&mut self, id: u128) -> (actions: Vec<PeerManagerAction>)
        requires
            old(self).wf(),
        ensures
            subscription_confirmed(*old(self), *final(self), id, actions@),
    {
        self.subscribed_to.insert(id, ());
        self.reset_heartbeat_watchdog(id)
    }

    /// Ends every subscription of this node.
    pub fn shutdown(&mut self) -> (actions: Vec<PeerManagerAction>)
        requires
            old(self).wf(),
        ensures
            shut_down(*old(self), *final(self), actions@),
    {
        let actions = Self::requests(&self.subscribed_to, &PeerRequest::EndSubscription);
        self.subscribed_to.clear();
        actions
    }
}

} // verus!

verus! {

/// What asking each of `added` for a subscription takes: a request to a
/// handshaken known peer, a handshake first with a known peer that is not
/// handshaken; unknown ids are skipped.
pub open spec fn subscribe_actions(known: Map<u128, Peer>, added: Seq<u128>) -> Seq<PeerManagerAction>
    decreases added.len(),
{
    if added.len() == 0 {
        Seq::empty()
    } else {
        let rest = subscribe_actions(known, added.drop_last());
        let id = added.last();
        if known.dom().contains(id) {
            if known[id].spec_is_handshaken() {
                rest.push(PeerManagerAction::SendRequest { to: id, request: PeerRequest::StartSubscription })
            } else {
                rest.push(PeerManagerAction::GreetThenSubscribe(known[id].sockaddr, id))
            }
        } else {
            rest
        }
    }
}

/// What ending the subscriptions to each of `removed` takes, given the ids
/// whose watchdog was armed: the end is announced, and an armed watchdog is
/// disarmed the first time its id comes.
pub open spec fn unsubscribe_actions(armed: Set<u128>, removed: Seq<u128>) -> Seq<PeerManagerAction>
    decreases removed.len(),
{
    if removed.len() == 0 {
        Seq::empty()
    } else {
        let id = removed.last();
        let sent = unsubscribe_actions(armed, removed.drop_last()).push(
            PeerManagerAction::SendRequest { to: id, request: PeerRequest::EndSubscription },
        );
        if armed.contains(id) && !removed.drop_last().contains(id) {
            sent.push(PeerManagerAction::DisarmWatchdog(id))
        } else {
            sent
        }
    }
}

/// What `trigger_reassignment` does.
pub open spec fn reassignment_triggered(
    pre: PeerManager,
    post: PeerManager,
    added: Seq<u128>,
    removed: Seq<u128>,
    actions: Seq<PeerManagerAction>,
) -> bool {
    &&& post.wf()
    &&& pre.same_settings(&post)
    &&& post.known == pre.known
    &&& post.subscribers == pre.subscribers
    &&& post.notify_ready == pre.notify_ready
    &&& post.heartbeat == pre.heartbeat
    &&& post.subscribed_to@ == pre.subscribed_to@.remove_keys(removed.to_set())
    &&& post.heartbeat_watchdogs@ == pre.heartbeat_watchdogs@.remove_keys(removed.to_set())
    &&& actions == subscribe_actions(pre.known@, added) + unsubscribe_actions(
        pre.heartbeat_watchdogs@.dom(),
        removed,
    )
}

/// The chosen peers this node is not yet subscribed to, in the order chosen.
pub open spec fn newly_chosen(pm: PeerManager, chosen: Seq<u128>) -> Seq<u128> {
    chosen.filter(|id: u128| !pm.subscribed_to@.dom().contains(id))
}

/// The peers this node is subscribed to that were not chosen, in the order
/// they were subscribed to.
pub open spec fn no_longer_chosen(pm: PeerManager, chosen: Seq<u128>) -> Seq<u128> {
    pm.subscribed_to.key_seq().filter(|id: u128| !chosen.contains(id))
}

/// What reassigning to `chosen` does.
pub open spec fn reassigned_to(
    pre: PeerManager,
    post: PeerManager,
    chosen: Seq<u128>,
    actions: Seq<PeerManagerAction>,
) -> bool {
    reassignment_triggered(
        pre,
        post,
        newly_chosen(pre, chosen),
        no_longer_chosen(pre, chosen),
        actions,
    )
}

impl PeerManager {
    /// Asks each of `added` for a subscription (handshaking first where
    /// needed), and ends the subscriptions to each of `removed`.
    pub fn trigger_reassignment(&mut self, added: &Vec<u128>, removed: &Vec<u128>) -> (actions: Vec<
        PeerManagerAction,
    >)
        requires
            old(self).wf(),
        ensures
            reassignment_triggered(*old(self), *final(self), added@, removed@, actions@),
    {
        let ghost pre = *self;
        let mut actions: Vec<PeerManagerAction> = Vec::new();
        let mut i: usize = 0;
        while i < added.len()
            invariant
                self.wf(),
                *self == pre,
                i <= added@.len(),
                actions@ == subscribe_actions(pre.known@, added@.subrange(0, i as int)),
            decreases added@.len() - i,
        {
            let ghost sub = added@.subrange(0, i as int + 1);
            proof {
                assert(sub.drop_last() =~= added@.subrange(0, i as int));
                assert(sub.last() == added@[i as int]);
            }
            let id = added[i];
            match self.known.get(&id) {
                Some(peer) => {
                    if peer.is_handshaken() {
                        actions.push(
                            PeerManagerAction::SendRequest {
                                to: id,
                                request: PeerRequest::StartSubscription,
                            },
                        );
                    } else {
                        actions.push(PeerManagerAction::GreetThenSubscribe(peer.sockaddr, id));
                    }
                },
                None => {},
            }
            i = i + 1;
        }
        proof {
            assert(added@.subrange(0, added@.len() as int) =~= added@);
        }
        let ghost first = actions@;
        let mut j: usize = 0;
        while j < removed.len()
            invariant
                self.wf(),
                pre.same_settings(&*self),
                self.known == pre.known,
                self.subscribers == pre.subscribers,
                self.notify_ready == pre.notify_ready,
                self.heartbeat == pre.heartbeat,
                j <= removed@.len(),
                self.subscribed_to@ == pre.subscribed_to@.remove_keys(
                    removed@.subrange(0, j as int).to_set(),
                ),
                self.heartbeat_watchdogs@ == pre.heartbeat_watchdogs@.remove_keys(
                    removed@.subrange(0, j as int).to_set(),
                ),
                actions@ == first + unsubscribe_actions(
                    pre.heartbeat_watchdogs@.dom(),
                    removed@.subrange(0, j as int),
                ),
            decreases removed@.len() - j,
        {
            let id = removed[j];
            let ghost prev = removed@.subrange(0, j as int);
            let ghost sub = removed@.subrange(0, j as int + 1);
            proof {
                assert(sub.drop_last() =~= prev);
                assert(sub.last() == id);
                assert(sub.to_set() =~= prev.to_set().insert(id));
                assert(self.heartbeat_watchdogs@.dom().contains(id) == (pre.heartbeat_watchdogs@.dom().contains(
                    id,
                ) && !prev.contains(id)));
            }
            actions.push(
                PeerManagerAction::SendRequest { to: id, request: PeerRequest::EndSubscription },
            );
            let mut disarm = self.stop_heartbeat_watchdog(id);
            let ghost disarm_seq = disarm@;
            actions.append(&mut disarm);
            self.subscribed_to.remove(&id);
            j = j + 1;
            proof {
                assert(self.subscribed_to@ =~= pre.subscribed_to@.remove_keys(sub.to_set()));
                assert(self.heartbeat_watchdogs@ =~= pre.heartbeat_watchdogs@.remove_keys(
                    sub.to_set(),
                ));
                assert(actions@ =~= first + unsubscribe_actions(pre.heartbeat_watchdogs@.dom(), sub));
            }
        }
        proof {
            assert(removed@.subrange(0, removed@.len() as int) =~= removed@);
        }
        actions
    }

    /// Subscribes to the chosen peers this node is not yet subscribed to,
    /// and unsubscribes from those it is subscribed to that were not chosen.
    pub fn reassign_to(&mut self, chosen: &Vec<u128>) -> (actions: Vec<PeerManagerAction>)
        requires
            old(self).wf(),
        ensures
            reassigned_to(*old(self), *final(self), chosen@, actions@),
    {
        let ghost pre = *self;
        let mut added: Vec<u128> = Vec::new();
        let mut i: usize = 0;
        while i < chosen.len()
            invariant
                self.wf(),
                *self == pre,
                i <= chosen@.len(),
                added@ == newly_chosen(pre, chosen@.subrange(0, i as int)),
            decreases chosen@.len() - i,
        {
            let ghost sub = chosen@.subrange(0, i as int + 1);
            proof {
                assert(sub.drop_last() =~= chosen@.subrange(0, i as int));
                assert(sub.last() == chosen@[i as int]);
                reveal(Seq::filter);
            }
            if !self.subscribed_to.contains_key(&chosen[i]) {
                added.push(chosen[i]);
            }
            i = i + 1;
        }
        proof {
            assert(chosen@.subrange(0, chosen@.len() as int) =~= chosen@);
        }
        let ghost keys = self.subscribed_to.key_seq();
        let mut removed: Vec<u128> = Vec::new();
        let mut j: usize = 0;
        while j < self.subscribed_to.len()
            invariant
                self.wf(),
                *self == pre,
                keys == self.subscribed_to.key_seq(),
                j <= keys.len(),
                removed@ == keys.subrange(0, j as int).filter(|id: u128| !chosen@.contains(id)),
            decreases keys.len() - j,
        {
            let ghost sub = keys.subrange(0, j as int + 1);
            proof {
                assert(sub.drop_last() =~= keys.subrange(0, j as int));
                assert(sub.last() == keys[j as int]);
                reveal(Seq::filter);
            }
            let id = self.subscribed_to.key_at(j);
            if !vec_contains(chosen, id) {
                removed.push(id);
            }
            j = j + 1;
        }
        proof {
            assert(keys.subrange(0, keys.len() as int) =~= keys);
        }
        self.trigger_reassignment(&added, &removed)
    }

    /// Chooses the peers to subscribe to and moves this node's subscriptions
    /// to them.
    pub fn reassign(&mut self) -> (actions: Vec<PeerManagerAction>)
        requires
            old(self).wf(),
        ensures
            exists|chosen: Seq<u128>|
                peers_chosen(*old(self), chosen) && reassigned_to(
                    *old(self),
                    *final(self),
                    chosen,
                    actions@,
                ),
    {
        let chosen = self.choose_peers();
        self.reassign_to(&chosen)
    }
}

/// Whether `id` is among `ids`.
pub fn vec_contains(ids: &Vec<u128>, id: u128) -> (r: bool)
    ensures
        r == ids@.contains(id),
{
    let mut i: usize = 0;
    while i < ids.len()
        invariant
            i <= ids@.len(),
            forall|k: int| 0 <= k < i ==> ids@[k] != id,
        decreases ids@.len() - i,
    {
        if ids[i] == id {
            return true;
        }
        i = i + 1;
    }
    false
}

} // verus!

verus! {

/// What handling a peer's request does.
pub open spec fn peer_request_handled(
    pre: PeerManager,
    post: PeerManager,
    from_id: u128,
    request: PeerRequest,
    actions: Seq<PeerManagerAction>,
) -> bool {
    match request {
        PeerRequest::PeerStatus(ps) => {
            let n: int = if from_id == pre.node_id { 1 } else { 0 };
            let own = actions.take(actions.len() - n);
            &&& actions.len() >= n
            &&& match ps.state {
                PeerState::Up => peer_added(pre, post, ps.peer, own),
                PeerState::Down => peer_removed(pre, post, ps.peer.id, own),
            }
            &&& n == 1 ==> actions.last() == PeerManagerAction::BroadcastPeerStatus(ps)
        },
        PeerRequest::StartSubscription => subscription_accepted(pre, post, from_id, actions),
        PeerRequest::SubscriptionStarted => {
            let n: int = if pre.notify_ready { 1 } else { 0 };
            &&& !post.notify_ready
            &&& actions.len() >= n
            &&& subscription_confirmed(
                pre,
                PeerManager { notify_ready: pre.notify_ready, ..post },
                from_id,
                actions.take(actions.len() - n),
            )
            &&& n == 1 ==> actions.last() == PeerManagerAction::NotifyReady
        },
        PeerRequest::EndSubscription => subscription_ended(pre, post, from_id, actions),
        PeerRequest::Heartbeat => watchdog_reset(pre, post, from_id, actions),
        PeerRequest::Peers(peers) => peers_updated(pre, post, peers@, actions),
        PeerRequest::PeerList => {
            &&& post == pre
            &&& actions.len() == 1
            &&& actions[0] matches PeerManagerAction::SendRequest { to, request: PeerRequest::Peers(ps) }
                && to == from_id && ps@ == pre.known_peers()
        },
    }
}

/// What handling a request does and answers.
pub open spec fn request_handled(
    pre: PeerManager,
    post: PeerManager,
    request: PeerManagerRequest,
    response: PeerManagerResponse,
    actions: Seq<PeerManagerAction>,
) -> bool {
    match request {
        PeerManagerRequest::GetSubscriberCount => {
            &&& post == pre
            &&& response == PeerManagerResponse::SubscriberCount(pre.subscribers@.dom().len() as usize)
            &&& actions.len() == 0
        },
        PeerManagerRequest::Reassign => {
            &&& response == PeerManagerResponse::Done
            &&& exists|chosen: Seq<u128>|
                peers_chosen(pre, chosen) && reassigned_to(pre, post, chosen, actions)
        },
        PeerManagerRequest::SetNotify => {
            &&& response == PeerManagerResponse::Done
            &&& post == (PeerManager { notify_ready: true, ..pre })
            &&& actions.len() == 0
        },
        PeerManagerRequest::Request { from_id, request } => {
            &&& response == PeerManagerResponse::Done
            &&& peer_request_handled(pre, post, from_id, *request, actions)
        },
        PeerManagerRequest::StartHeartbeats => {
            &&& response == PeerManagerResponse::Done
            &&& heartbeats_started(pre, post, actions)
        },
        PeerManagerRequest::SendHeartbeat => {
            &&& response == PeerManagerResponse::Done
            &&& post == pre
            &&& actions == heartbeat_actions(pre)
        },
        PeerManagerRequest::Shutdown => {
            &&& response == PeerManagerResponse::Done
            &&& shut_down(pre, post, actions)
        },
    }
}

impl PeerManager {
    /// Handles a request that peer `from_id` (or this node) sent.
    fn handle_peer_request(&mut self, from_id: u128, request: PeerRequest) -> (actions: Vec<
        PeerManagerAction,
    >)
        requires
            old(self).wf(),
        ensures
            final(self).wf(),
            peer_request_handled(*old(self), *final(self), from_id, request, actions@),
    {
        match request {
            PeerRequest::PeerStatus(ps) => {
                let mut actions = match ps.state {
                    PeerState::Up => self.add_peer(ps.peer.clone()),
                    PeerState::Down => self.remove_peer(ps.peer.clone()),
                };
                let ghost own = actions@;
                if from_id == self.node_id {
                    actions.push(PeerManagerAction::BroadcastPeerStatus(ps));
                }
                proof {
                    let n: int = if from_id == old(self).node_id { 1 } else { 0 };
                    assert(actions@.take(actions@.len() - n) =~= own);
                }
                actions
            },
            PeerRequest::StartSubscription => self.start_subscription(from_id),
            PeerRequest::SubscriptionStarted => {
                let mut actions = self.subscription_started(from_id);
                let ghost mid = *self;
                let ghost own = actions@;
                if self.notify_ready {
                    self.notify_ready = false;
                    actions.push(PeerManagerAction::NotifyReady);
                }
                proof {
                    let n: int = if old(self).notify_ready { 1 } else { 0 };
                    assert(actions@.take(actions@.len() - n) =~= own);
                    assert((PeerManager { notify_ready: old(self).notify_ready, ..*self }) == mid);
                }
                actions
            },
            PeerRequest::EndSubscription => self.end_subscription(from_id),
            PeerRequest::Heartbeat => self.reset_heartbeat_watchdog(from_id),
            PeerRequest::Peers(peers) => self.update_peers(&peers),
            PeerRequest::PeerList => {
                let mut actions: Vec<PeerManagerAction> = Vec::new();
                actions.push(self.send_peerlist(from_id));
                actions
            },
        }
    }

    /// Handles one request: answers it, updates the membership state and
    /// lists what the rest of the node is to do, in order.
    pub fn handle_message(&mut self, request: PeerManagerRequest) -> (r: (
        PeerManagerResponse,
        Vec<PeerManagerAction>,
    ))
        requires
            old(self).wf(),
        ensures
            final(self).wf(),
            request_handled(*old(self), *final(self), request, r.0, r.1@),
    {
        match request {
            PeerManagerRequest::GetSubscriberCount => (
                PeerManagerResponse::SubscriberCount(self.subscribers.len()),
                Vec::new(),
            ),
            PeerManagerRequest::Reassign => (PeerManagerResponse::Done, self.reassign()),
            PeerManagerRequest::SetNotify => {
                self.notify_ready = true;
                (PeerManagerResponse::Done, Vec::new())
            },
            PeerManagerRequest::Request { from_id, request } => (
                PeerManagerResponse::Done,
                self.handle_peer_request(from_id, *request),
            ),
            PeerManagerRequest::StartHeartbeats => (PeerManagerResponse::Done, self.start_heartbeats()),
            PeerManagerRequest::SendHeartbeat => (PeerManagerResponse::Done, self.send_heartbeat()),
            PeerManagerRequest::Shutdown => (PeerManagerResponse::Done, self.shutdown()),
        }
    }
}

impl PeerManagerResponse {
    /// The subscriber count this response carries, or
    /// `Error::UnexpectedResponse` when it carries none.
    pub fn into_subscriber_count(self) -> (r: Result<usize, crate::error::Error>)
        ensures
            match self {
                PeerManagerResponse::SubscriberCount(c) => r == Ok::<usize, crate::error::Error>(c),
                PeerManagerResponse::Done => r == Err::<usize, crate::error::Error>(
                    crate::error::Error::UnexpectedResponse,
                ),
            },
    {
        match self {
            PeerManagerResponse::SubscriberCount(c) => Ok(c),
            PeerManagerResponse::Done => Err(crate::error::Error::UnexpectedResponse),
        }
    }
}

} // verus!

verus! {

/// Last write wins: a peer whose handshake timestamp is newer than that of
/// the known peer with its id replaces it, and one whose timestamp is not
/// newer leaves the known peers as they were.
pub proof fn law_last_write_wins(
    pre: PeerManager,
    post: PeerManager,
    peer: Peer,
    actions: Seq<PeerManagerAction>,
)
    requires
        peer_added(pre, post, peer, actions),
        pre.known@.dom().contains(peer.id),
        pre.known@[peer.id].handshake_timestamp is Some,
        peer.handshake_timestamp is Some,
    ensures
        peer.handshake_timestamp.unwrap() > pre.known@[peer.id].handshake_timestamp.unwrap()
            ==> post.known@[peer.id] == peer,
        peer.handshake_timestamp.unwrap() <= pre.known@[peer.id].handshake_timestamp.unwrap()
            ==> post.known@ == pre.known@,
{
}

/// Adding a peer forgets no peer: the known ids grow by the peer's id.
pub proof fn law_add_peer_forgets_nothing(
    pre: PeerManager,
    post: PeerManager,
    peer: Peer,
    actions: Seq<PeerManagerAction>,
)
    requires
        peer_added(pre, post, peer, actions),
    ensures
        post.known@.dom() == pre.known@.dom().insert(peer.id),
{
    if peer_replaces(pre.known@, peer) {
        assert(post.known@.dom() =~= pre.known@.dom().insert(peer.id));
    } else {
        assert(pre.known@.dom().contains(peer.id));
        assert(post.known@.dom() =~= pre.known@.dom().insert(peer.id));
    }
}

proof fn lemma_with_unknown(known: Map<u128, Peer>, ps: Seq<Peer>)
    ensures
        forall|k: u128|
            #[trigger] known.dom().contains(k) ==> with_unknown(known, ps).dom().contains(k)
                && with_unknown(known, ps)[k] == known[k],
        forall|i: int| 0 <= i < ps.len() ==> with_unknown(known, ps).dom().contains(#[trigger] ps[i].id),
    decreases ps.len(),
{
    if ps.len() > 0 {
        let d = ps.drop_last();
        lemma_with_unknown(known, d);
        assert forall|i: int| 0 <= i < ps.len() implies with_unknown(known, ps).dom().contains(
            #[trigger] ps[i].id,
        ) by {
            if i < d.len() {
                assert(d[i] == ps[i]);
            }
        }
    }
}

/// Peers learned from a peer list never replace a known peer, and every
/// listed peer is known afterwards.
pub proof fn law_peer_list_keeps_known(
    pre: PeerManager,
    post: PeerManager,
    peers: Seq<Peer>,
    actions: Seq<PeerManagerAction>,
)
    requires
        peers_updated(pre, post, peers, actions),
    ensures
        forall|k: u128|
            #[trigger] pre.known@.dom().contains(k) ==> post.known@.dom().contains(k)
                && post.known@[k] == pre.known@[k],
        forall|i: int| 0 <= i < peers.len() ==> post.known@.dom().contains(#[trigger] peers[i].id),
{
    lemma_with_unknown(pre.known@, peers);
}

/// After a reassignment this node is subscribed only to peers that were
/// chosen and that it was subscribed to before: a reassignment ends
/// subscriptions and never starts one by itself.
pub proof fn law_reassign_keeps_only_chosen(
    pre: PeerManager,
    post: PeerManager,
    chosen: Seq<u128>,
    actions: Seq<PeerManagerAction>,
)
    requires
        pre.wf(),
        reassigned_to(pre, post, chosen, actions),
    ensures
        forall|k: u128|
            #[trigger] post.subscribed_to@.dom().contains(k) ==> chosen.contains(k)
                && pre.subscribed_to@.dom().contains(k),
{
    broadcast use vstd::seq_lib::group_filter_ensures;

    assert forall|k: u128| #[trigger] post.subscribed_to@.dom().contains(k) implies chosen.contains(k)
        && pre.subscribed_to@.dom().contains(k) by {
        pre.subscribed_to.lemma_len();
        assert(pre.subscribed_to@.dom().contains(k));
        assert(pre.subscribed_to.key_seq().to_set().contains(k));
        if !chosen.contains(k) {
            let keys = pre.subscribed_to.key_seq();
            let j = choose|j: int| 0 <= j < keys.len() && keys[j] == k;
            assert(keys.filter(|id: u128| !chosen.contains(id)).contains(keys[j]));
            assert(no_longer_chosen(pre, chosen).to_set().contains(k));
        }
    }
}

/// A node nobody is subscribed to (as every new node) answers zero when
/// asked for its subscriber count.
pub proof fn law_no_subscribers_counts_zero(
    pre: PeerManager,
    post: PeerManager,
    response: PeerManagerResponse,
    actions: Seq<PeerManagerAction>,
)
    requires
        pre.subscribers@ == Map::<u128, ()>::empty(),
        request_handled(pre, post, PeerManagerRequest::GetSubscriberCount, response, actions),
    ensures
        response == PeerManagerResponse::SubscriberCount(0),
{
    assert(pre.subscribers@.dom() =~= Set::<u128>::empty());
}

} // verus!

verus! {

/// Hub and spoke subscribes to a peer in every zone other than this node's,
/// however many there are: with more such zones than the target number of
/// peers, the choice holds more peers than the target.
pub proof fn law_hub_and_spoke_covers_remote_zones(pm: PeerManager, chosen: Seq<u128>)
    requires
        pm.distribution_strategy == DistributionStrategy::HubAndSpoke,
        peers_chosen(pm, chosen),
    ensures
        forall|k: int|
            0 <= k < pm.remote_candidates().len() ==> exists|x: u128|
                chosen.contains(x) && ids_in_zone(
                    pm.remote_candidates(),
                    zone_view(#[trigger] pm.remote_candidates()[k].zone),
                ).contains(x),
        chosen.len() >= distinct_zones(pm.remote_candidates()).len(),
        distinct_zones(pm.remote_candidates()).len() > pm.peer_subscriptions ==> chosen.len()
            > pm.peer_subscriptions,
{
    let rc = pm.remote_candidates();
    let dz = distinct_zones(rc);
    let n = pm.peer_subscriptions as nat;
    let local = chacha_choose(chooser_seed(pm), ids_of(pm.local_candidates()), sat_sub(n, dz.len()));
    let remote = zone_picks(chooser_seed(pm), rc);
    lemma_distinct_zones(rc);
    assert forall|k: int| 0 <= k < rc.len() implies exists|x: u128|
        chosen.contains(x) && ids_in_zone(rc, zone_view(#[trigger] rc[k].zone)).contains(x) by {
        assert(dz.contains(zone_view(rc[k].zone)));
        let j = choose|j: int| 0 <= j < dz.len() && dz[j] == zone_view(rc[k].zone);
        assert(ids_in_zone(rc, dz[j]).contains(remote[j]));
        assert(chosen[local.len() + j] == remote[j]);
        assert(chosen.contains(remote[j]));
        assert(ids_in_zone(rc, zone_view(rc[k].zone)).contains(remote[j]));
    }
}

/// The choice of peers is stable: two nodes (or one node asked twice) with
/// the same id, settings and known peers choose the same peers.
pub proof fn law_choice_is_stable(pm1: PeerManager, pm2: PeerManager, r1: Seq<u128>, r2: Seq<u128>)
    requires
        peers_chosen(pm1, r1),
        peers_chosen(pm2, r2),
        pm1.same_settings(&pm2),
        pm1.known_peers() == pm2.known_peers(),
    ensures
        r1 == r2,
{
}

} // verus!

verus! {

/// Each entry of `keys_of(ps)` holds the keys of a handshaken peer of `ps`:
/// its id and address, the key pair held for it and the public key it
/// gave; and each handshaken peer of `ps` has an entry.
proof fn lemma_keys_of_handshaken(ps: Seq<Peer>)
    ensures
        forall|i: int|
            0 <= i < keys_of(ps).len() ==> exists|j: int|
                0 <= j < ps.len() && {
                    let k = #[trigger] keys_of(ps)[i];
                    &&& (#[trigger] ps[j]).id == k.id
                    &&& ps[j].sockaddr == k.sockaddr
                    &&& ps[j].our_keypair == Some(k.keypair)
                    &&& ps[j].their_public_key == Some(k.their_public_key)
                },
        forall|j: int|
            0 <= j < ps.len() && (#[trigger] ps[j]).spec_is_handshaken() ==> exists|i: int|
                0 <= i < keys_of(ps).len() && keys_of(ps)[i].id == ps[j].id,
    decreases ps.len(),
{
    if ps.len() > 0 {
        let front = ps.drop_last();
        lemma_keys_of_handshaken(front);
        let ks = keys_of(ps);
        let kf = keys_of(front);
        let last = ps.len() - 1;
        assert(ps.last() == ps[last]);
        assert forall|i: int| 0 <= i < ks.len() implies exists|j: int|
            0 <= j < ps.len() && {
                let k = #[trigger] ks[i];
                &&& (#[trigger] ps[j]).id == k.id
                &&& ps[j].sockaddr == k.sockaddr
                &&& ps[j].our_keypair == Some(k.keypair)
                &&& ps[j].their_public_key == Some(k.their_public_key)
            } by {
            if i < kf.len() {
                assert(ks[i] == kf[i]);
                let j = choose|j: int|
                    0 <= j < front.len() && {
                        let k = #[trigger] kf[i];
                        &&& (#[trigger] front[j]).id == k.id
                        &&& front[j].sockaddr == k.sockaddr
                        &&& front[j].our_keypair == Some(k.keypair)
                        &&& front[j].their_public_key == Some(k.their_public_key)
                    };
                assert(front[j] == ps[j]);
            } else {
                assert(ps[last].spec_is_handshaken());
            }
        }
        assert forall|j: int| 0 <= j < ps.len() && (#[trigger] ps[j]).spec_is_handshaken() implies exists|i: int|
            0 <= i < ks.len() && ks[i].id == ps[j].id by {
            if j < last {
                assert(front[j] == ps[j]);
                let i = choose|i: int| 0 <= i < kf.len() && kf[i].id == front[j].id;
                assert(ks[i] == kf[i]);
            } else {
                assert(ks[kf.len() as int].id == ps[j].id);
            }
        }
    }
}

/// The keys handed out are those of the handshaken known peers: each entry
/// belongs to a known peer and holds the key pair this node keeps for it and
/// the public key that peer gave, with its address; and every handshaken
/// known peer has an entry.
pub proof fn law_keys_are_those_of_handshaken_peers(pm: PeerManager, ks: Seq<PeerKeys>)
    requires
        pm.wf(),
        ks == keys_of(pm.known_peers()),
    ensures
        forall|i: int|
            0 <= i < ks.len() ==> {
                let id = (#[trigger] ks[i]).id;
                &&& pm.known@.dom().contains(id)
                &&& pm.known@[id].our_keypair == Some(ks[i].keypair)
                &&& pm.known@[id].their_public_key == Some(ks[i].their_public_key)
                &&& pm.known@[id].sockaddr == ks[i].sockaddr
            },
        forall|id: u128|
            pm.known@.dom().contains(id) && (#[trigger] pm.known@[id]).spec_is_handshaken() ==> exists|i: int|
                0 <= i < ks.len() && ks[i].id == id,
{
    let ps = pm.known_peers();
    lemma_keys_of_handshaken(ps);
    pm.known.lemma_len();
    assert forall|j: int| 0 <= j < ps.len() implies pm.known@.dom().contains((#[trigger] ps[j]).id)
        && pm.known@[ps[j].id] == ps[j] by {
        pm.known.lemma_entry(j);
        let k = pm.known.key_seq()[j];
        assert(pm.known@[k].id == k);
    }
    assert forall|i: int| 0 <= i < ks.len() implies {
        let id = (#[trigger] ks[i]).id;
        &&& pm.known@.dom().contains(id)
        &&& pm.known@[id].our_keypair == Some(ks[i].keypair)
        &&& pm.known@[id].their_public_key == Some(ks[i].their_public_key)
        &&& pm.known@[id].sockaddr == ks[i].sockaddr
    } by {
        let j = choose|j: int|
            0 <= j < ps.len() && {
                let k = #[trigger] ks[i];
                &&& (#[trigger] ps[j]).id == k.id
                &&& ps[j].sockaddr == k.sockaddr
                &&& ps[j].our_keypair == Some(k.keypair)
                &&& ps[j].their_public_key == Some(k.their_public_key)
            };
        assert(pm.known@[ps[j].id] == ps[j]);
    }
    assert forall|id: u128|
        pm.known@.dom().contains(id) && (#[trigger] pm.known@[id]).spec_is_handshaken() implies exists|i: int|
            0 <= i < ks.len() && ks[i].id == id by {
        pm.lemma_known();
        let j = choose|j: int| 0 <= j < ps.len() && ps[j].id == id;
        assert(pm.known@[ps[j].id] == ps[j]);
        assert(ps[j].spec_is_handshaken());
    }
}

} // verus!

//! A routing-table bucket: a bounded list of peers, oldest first.
use libp2p::{Multiaddr, PeerId};
use std::collections::VecDeque;
use std::time::{Duration, Instant};
use vstd::prelude::*;

verus! {

/// What is known of one peer.
#[derive(Debug)]
pub struct PeerInfo {
    pub peer_id: PeerId,
    /// XOR distance to the local peer.
    pub distance: Option<u64>,
    pub last_seen: Instant,
    pub latency: Option<Duration>,
    pub address: Option<Multiaddr>,
    pub is_online: bool,
}

impl Clone for PeerInfo {
    fn clone(&self) -> (copy: Self)
        ensures
            copy == *self,
    {
        PeerInfo {
            peer_id: self.peer_id,
            distance: self.distance,
            last_seen: self.last_seen,
            latency: self.latency,
            address: match &self.address {
                Some(address) => Some(clone_address(address)),
                None => None,
            },
            is_online: self.is_online,
        }
    }
}

/// A bounded list of peers. New and refreshed peers go to the back, so the
/// front holds the peer that was heard of least recently.
pub struct Bucket {
    pub peers: VecDeque<PeerInfo>,
    /// Maximum number of peers in the bucket; the usual value is 20.
    pub k: usize,
}

/// `PeerId`'s `==`: true exactly when both arguments are the same identity.
/// Equality of `PeerId` values in specifications means this.
#[verifier::external_body]
fn same_peer(a: &PeerId, b: &PeerId) -> (same: bool)
    ensures
        same == (*a == *b),
{
    a == b
}

/// `Multiaddr::clone`: the copy is the same address.
#[verifier::external_body]
fn clone_address(address: &Multiaddr) -> (copy: Multiaddr)
    ensures
        copy == *address,
{
    address.clone()
}

/// Some peer of the list satisfies `wanted`.
pub open spec fn any_peer(peers: Seq<PeerInfo>, wanted: spec_fn(PeerInfo) -> bool) -> bool {
    exists|i: int| 0 <= i < peers.len() && wanted(#[trigger] peers[i])
}

/// Position `i` holds the first peer of the list that satisfies `wanted`.
pub open spec fn is_first_peer(
    peers: Seq<PeerInfo>,
    wanted: spec_fn(PeerInfo) -> bool,
    i: int,
) -> bool {
    &&& 0 <= i < peers.len()
    &&& wanted(peers[i])
    &&& forall|j: int| 0 <= j < i ==> !wanted(#[trigger] peers[j])
}

/// Position of the first peer that satisfies `wanted`, if there is one.
pub open spec fn first_peer(peers: Seq<PeerInfo>, wanted: spec_fn(PeerInfo) -> bool) -> int {
    choose|i: int| is_first_peer(peers, wanted, i)
}

/// The peers that carry the identity `id`.
pub open spec fn with_id(id: PeerId) -> spec_fn(PeerInfo) -> bool {
    |peer: PeerInfo| peer.peer_id == id
}

/// The peers that are not online.
pub open spec fn offline() -> spec_fn(PeerInfo) -> bool {
    |peer: PeerInfo| !peer.is_online
}

/// A full list after one of its peers has made room: the first that is
/// offline, or else the first of all.
pub open spec fn make_room(peers: Seq<PeerInfo>) -> Seq<PeerInfo> {
    if any_peer(peers, offline()) {
        peers.remove(first_peer(peers, offline()))
    } else if peers.len() > 0 {
        peers.skip(1)
    } else {
        peers
    }
}

/// The old peers that stay when `new_peer` is added. One that carries its
/// identity goes; otherwise, in a full bucket, one makes room.
pub open spec fn kept_peers(peers: Seq<PeerInfo>, k: nat, new_peer: PeerInfo) -> Seq<PeerInfo> {
    if any_peer(peers, with_id(new_peer.peer_id)) {
        peers.remove(first_peer(peers, with_id(new_peer.peer_id)))
    } else if peers.len() >= k {
        make_room(peers)
    } else {
        peers
    }
}

/// The peers of a bucket of size `k` after `new_peer` has been added: it goes
/// behind those that stay. A bucket of size zero takes in no peer that it does
/// not know.
pub open spec fn peers_after_add(
    peers: Seq<PeerInfo>,
    k: nat,
    new_peer: PeerInfo,
) -> Seq<PeerInfo> {
    if k == 0 && !any_peer(peers, with_id(new_peer.peer_id)) {
        kept_peers(peers, k, new_peer)
    } else {
        kept_peers(peers, k, new_peer).push(new_peer)
    }
}

/// No identity occurs twice.
pub open spec fn distinct_ids(peers: Seq<PeerInfo>) -> bool {
    forall|i: int, j: int|
        0 <= i < j < peers.len() ==> (#[trigger] peers[i]).peer_id != (
        #[trigger] peers[j]).peer_id
}

impl Bucket {
    /// The peers, oldest first.
    pub open spec fn view(&self) -> Seq<PeerInfo> {
        self.peers@
    }

    /// No identity occurs twice, and the bucket holds at most `k` peers.
    pub open spec fn well_formed(&self) -> bool {
        &&& distinct_ids(self@)
        &&& self@.len() <= self.k
    }

    /// An empty bucket of size `k`.
    pub fn new(k: usize) -> (bucket: Self)
        ensures
            bucket@ == Seq::<PeerInfo>::empty(),
            bucket.k == k,
            bucket.well_formed(),
    {
        Bucket { peers: VecDeque::new(), k }
    }

    /// Adds `new_peer` at the back. A peer of the same identity is replaced,
    /// so no identity is entered twice. If there is none and the bucket is
    /// full, the first offline peer leaves it, or the first of all if every
    /// peer is online. A bucket of size zero has no place for a new peer.
    pub fn add_peer(&mut self, new_peer: PeerInfo)
        ensures
            final(self)@ == peers_after_add(old(self)@, old(self).k as nat, new_peer),
            final(self).k == old(self).k,
            old(self).well_formed() ==> final(self).well_formed(),
    {
        proof {
            lemma_add_keeps_ids_distinct(self@, self.k as nat, new_peer);
            lemma_add_keeps_size(self@, self.k as nat, new_peer);
        }
        if let Some(pos) = self.position_of(&new_peer.peer_id) {
            self.peers.remove(pos);
            self.peers.push_back(new_peer);
            return;
        }
        if self.peers.len() >= self.k {
            if let Some(pos) = self.position_offline() {
                self.peers.remove(pos);
            } else {
                self.peers.pop_front();
            }
        }
        if self.k == 0 {
            return;
        }
        self.peers.push_back(new_peer);
    }

    /// Position of the first peer with identity `id`.
    fn position_of(&self, id: &PeerId) -> (pos: Option<usize>)
        ensures
            pos is Some <==> any_peer(self@, with_id(*id)),
            pos matches Some(i) ==> i < self@.len() && i == first_peer(self@, with_id(*id)),
    {
        let ghost wanted = with_id(*id);
        let mut i: usize = 0;
        while i < self.peers.len()
            invariant
                i <= self@.len(),
                wanted == with_id(*id),
                forall|j: int| 0 <= j < i ==> !wanted(#[trigger] self@[j]),
            decreases self@.len() - i,
        {
            if same_peer(&self.peers[i].peer_id, id) {
                proof {
                    assert(wanted(self@[i as int]));
                    lemma_first_peer(self@, wanted, i as int);
                }
                return Some(i);
            }
            i += 1;
        }
        None
    }

    /// Position of the first peer that is not online.
    fn position_offline(&self) -> (pos: Option<usize>)
        ensures
            pos is Some <==> any_peer(self@, offline()),
            pos matches Some(i) ==> i < self@.len() && i == first_peer(self@, offline()),
    {
        let ghost wanted = offline();
        let mut i: usize = 0;
        while i < self.peers.len()
            invariant
                i <= self@.len(),
                wanted == offline(),
                forall|j: int| 0 <= j < i ==> !wanted(#[trigger] self@[j]),
            decreases self@.len() - i,
        {
            if !self.peers[i].is_online {
                proof {
                    assert(wanted(self@[i as int]));
                    lemma_first_peer(self@, wanted, i as int);
                }
                return Some(i);
            }
            i += 1;
        }
        None
    }
}

/// There is only one first peer.
proof fn lemma_first_peer(peers: Seq<PeerInfo>, wanted: spec_fn(PeerInfo) -> bool, i: int)
    requires
        is_first_peer(peers, wanted, i),
    ensures
        any_peer(peers, wanted),
        first_peer(peers, wanted) == i,
{
    let f = first_peer(peers, wanted);
    assert(is_first_peer(peers, wanted, f));
    assert(wanted(peers[i]));
    assert(wanted(peers[f]));
}

/// Where some peer is wanted, one of them is the first.
proof fn lemma_first_peer_exists(peers: Seq<PeerInfo>, wanted: spec_fn(PeerInfo) -> bool)
    requires
        any_peer(peers, wanted),
    ensures
        is_first_peer(peers, wanted, first_peer(peers, wanted)),
    decreases peers.len(),
{
    let i = choose|i: int| 0 <= i < peers.len() && wanted(#[trigger] peers[i]);
    let before = peers.take(i);
    if any_peer(before, wanted) {
        lemma_first_peer_exists(before, wanted);
        let f = first_peer(before, wanted);
        assert forall|j: int| 0 <= j < f implies !wanted(#[trigger] peers[j]) by {
            assert(peers[j] == before[j]);
        }
        assert(is_first_peer(peers, wanted, f));
    } else {
        assert forall|j: int| 0 <= j < i implies !wanted(#[trigger] peers[j]) by {
            assert(peers[j] == before[j]);
        }
        assert(is_first_peer(peers, wanted, i));
    }
}

/// The peers that stay are the old ones, in their order, with at most one
/// left out.
pub proof fn lemma_add_keeps_order(peers: Seq<PeerInfo>, k: nat, new_peer: PeerInfo)
    ensures
        kept_peers(peers, k, new_peer) == peers || exists|i: int|
            0 <= i < peers.len() && kept_peers(peers, k, new_peer) == #[trigger] peers.remove(i),
{
    if any_peer(peers, with_id(new_peer.peer_id)) {
        lemma_first_peer_exists(peers, with_id(new_peer.peer_id));
    } else if peers.len() >= k {
        if any_peer(peers, offline()) {
            lemma_first_peer_exists(peers, offline());
        } else if peers.len() > 0 {
            assert(peers.skip(1) =~= peers.remove(0));
        }
    }
}

/// A peer that was added is the last of the bucket, if the bucket has a place.
pub proof fn lemma_added_peer_is_last(peers: Seq<PeerInfo>, k: nat, new_peer: PeerInfo)
    requires
        k > 0 || any_peer(peers, with_id(new_peer.peer_id)),
    ensures
        peers_after_add(peers, k, new_peer).len() > 0,
        peers_after_add(peers, k, new_peer).last() == new_peer,
{
}

/// Where no identity occurs twice, adding a peer keeps it so.
pub proof fn lemma_add_keeps_ids_distinct(peers: Seq<PeerInfo>, k: nat, new_peer: PeerInfo)
    ensures
        distinct_ids(peers) ==> distinct_ids(peers_after_add(peers, k, new_peer)),
{
    if distinct_ids(peers) {
        let wanted = with_id(new_peer.peer_id);
        let kept = kept_peers(peers, k, new_peer);
        lemma_add_keeps_order(peers, k, new_peer);
        assert forall|j: int| 0 <= j < kept.len() implies (#[trigger] kept[j]).peer_id
            != new_peer.peer_id by {
            if any_peer(peers, wanted) {
                lemma_first_peer_exists(peers, wanted);
                let f = first_peer(peers, wanted);
                assert(kept[j] == if j < f { peers[j] } else { peers[j + 1] });
            } else if kept != peers {
                let i = choose|i: int|
                    0 <= i < peers.len() && kept == #[trigger] peers.remove(i);
                let source = if j < i { j } else { j + 1 };
                assert(kept[j] == peers[source]);
                assert(!wanted(peers[source]));
            } else {
                assert(!wanted(peers[j]));
            }
        }
    }
}

/// A bucket never comes to hold more than `k` peers, and a bucket that is not
/// full loses none.
pub proof fn lemma_add_keeps_size(peers: Seq<PeerInfo>, k: nat, new_peer: PeerInfo)
    ensures
        peers.len() <= k ==> peers_after_add(peers, k, new_peer).len() <= k,
        any_peer(peers, with_id(new_peer.peer_id)) ==> peers_after_add(
            peers,
            k,
            new_peer,
        ).len() == peers.len(),
        !any_peer(peers, with_id(new_peer.peer_id)) && peers.len() < k ==> peers_after_add(
            peers,
            k,
            new_peer,
        ) == peers.push(new_peer),
{
    if any_peer(peers, with_id(new_peer.peer_id)) {
        lemma_first_peer_exists(peers, with_id(new_peer.peer_id));
    } else if peers.len() >= k && any_peer(peers, offline()) {
        lemma_first_peer_exists(peers, offline());
    }
}

/// A peer other than the added one stays, unless it made room: a peer leaves
/// only from a full bucket that did not know the new peer, and a peer that is
/// online leaves only if every peer is online.
pub proof fn lemma_who_stays(peers: Seq<PeerInfo>, k: nat, new_peer: PeerInfo, i: int)
    requires
        0 <= i < peers.len(),
        peers[i].peer_id != new_peer.peer_id,
        any_peer(peers, with_id(new_peer.peer_id)) || peers.len() < k || (peers[i].is_online
            && any_peer(peers, offline())),
    ensures
        peers_after_add(peers, k, new_peer).contains(peers[i]),
{
    let after = peers_after_add(peers, k, new_peer);
    let wanted = if any_peer(peers, with_id(new_peer.peer_id)) {
        with_id(new_peer.peer_id)
    } else {
        offline()
    };
    if any_peer(peers, with_id(new_peer.peer_id)) || peers.len() >= k {
        lemma_first_peer_exists(peers, wanted);
        let f = first_peer(peers, wanted);
        assert(wanted(peers[f]));
        assert(!wanted(peers[i]));
        assert(after[if i < f { i } else { i - 1 }] == peers[i]);
    } else {
        assert(after[i] == peers[i]);
    }
}

/// From a full bucket whose peers are all online, the oldest leaves. The new
/// peer comes in for it, if the bucket has any places.
pub proof fn lemma_oldest_leaves(peers: Seq<PeerInfo>, k: nat, new_peer: PeerInfo)
    requires
        peers.len() >= k,
        peers.len() > 0,
        forall|i: int| 0 <= i < peers.len() ==> (#[trigger] peers[i]).is_online,
        forall|i: int| 0 <= i < peers.len() ==> (#[trigger] peers[i]).peer_id != new_peer.peer_id,
    ensures
        peers_after_add(peers, k, new_peer) == if k > 0 {
            peers.skip(1).push(new_peer)
        } else {
            peers.skip(1)
        },
{
}

/// A peer that the bucket knows leaves its place and is the last; all others
/// stay, in their order.
pub proof fn lemma_known_peer_goes_to_the_back(
    peers: Seq<PeerInfo>,
    k: nat,
    new_peer: PeerInfo,
    i: int,
)
    requires
        0 <= i < peers.len(),
        peers[i].peer_id == new_peer.peer_id,
        forall|j: int| 0 <= j < i ==> (#[trigger] peers[j]).peer_id != new_peer.peer_id,
    ensures
        peers_after_add(peers, k, new_peer) == peers.take(i) + peers.skip(i + 1) + seq![new_peer],
{
    let wanted = with_id(new_peer.peer_id);
    assert(wanted(peers[i]));
    lemma_first_peer(peers, wanted, i);
    assert(peers_after_add(peers, k, new_peer) =~= peers.take(i) + peers.skip(i + 1)
        + seq![new_peer]);
}

/// A peer that is new to a bucket with a free place goes behind all others.
pub proof fn lemma_new_peer_takes_a_free_place(peers: Seq<PeerInfo>, k: nat, new_peer: PeerInfo)
    requires
        forall|i: int| 0 <= i < peers.len() ==> (#[trigger] peers[i]).peer_id != new_peer.peer_id,
        peers.len() < k,
    ensures
        peers_after_add(peers, k, new_peer) == peers + seq![new_peer],
{
    assert(peers_after_add(peers, k, new_peer) =~= peers + seq![new_peer]);
}

/// From a full bucket, the oldest of the peers that are offline leaves, and no
/// other, for a peer that is new to it. The new peer goes behind all others, if
/// the bucket has any places.
pub proof fn lemma_oldest_offline_peer_leaves(
    peers: Seq<PeerInfo>,
    k: nat,
    new_peer: PeerInfo,
    i: int,
)
    requires
        forall|j: int| 0 <= j < peers.len() ==> (#[trigger] peers[j]).peer_id != new_peer.peer_id,
        peers.len() >= k,
        0 <= i < peers.len(),
        !peers[i].is_online,
        forall|j: int| 0 <= j < i ==> (#[trigger] peers[j]).is_online,
    ensures
        peers_after_add(peers, k, new_peer) == peers.take(i) + peers.skip(i + 1) + (if k > 0 {
            seq![new_peer]
        } else {
            Seq::empty()
        }),
{
    let wanted = offline();
    assert(wanted(peers[i]));
    lemma_first_peer(peers, wanted, i);
    assert(peers_after_add(peers, k, new_peer) =~= peers.take(i) + peers.skip(i + 1) + (if k > 0 {
        seq![new_peer]
    } else {
        Seq::empty()
    }));
}

/// An offline peer stays for as long as there is an older one that is offline.
pub proof fn lemma_later_offline_peer_stays(
    peers: Seq<PeerInfo>,
    k: nat,
    new_peer: PeerInfo,
    older: int,
    i: int,
)
    requires
        0 <= older < i < peers.len(),
        !peers[older].is_online,
        peers[i].peer_id != new_peer.peer_id,
    ensures
        peers_after_add(peers, k, new_peer).contains(peers[i]),
{
    let after = peers_after_add(peers, k, new_peer);
    let known = with_id(new_peer.peer_id);
    let wanted = offline();
    if any_peer(peers, known) {
        lemma_first_peer_exists(peers, known);
        let f = first_peer(peers, known);
        assert(known(peers[f]) && !known(peers[i]));
        assert(after[if i < f { i } else { i - 1 }] == peers[i]);
    } else if peers.len() >= k {
        assert(wanted(peers[older]));
        lemma_first_peer_exists(peers, wanted);
        let f = first_peer(peers, wanted);
        assert(f <= older);
        assert(after[i - 1] == peers[i]);
    } else {
        assert(after[i] == peers[i]);
    }
}

/// A bucket without places that is empty stays empty.
pub proof fn lemma_bucket_without_places_stays_empty(new_peer: PeerInfo)
    ensures
        peers_after_add(Seq::empty(), 0, new_peer) == Seq::<PeerInfo>::empty(),
{
}

/// What it means for a bucket to be well formed.
pub proof fn lemma_well_formed(bucket: Bucket)
    ensures
        bucket.well_formed() <==> {
            &&& bucket@.len() <= bucket.k
            &&& forall|i: int, j: int|
                0 <= i < j < bucket@.len() ==> (#[trigger] bucket@[i]).peer_id != (
                #[trigger] bucket@[j]).peer_id
        },
{
}

/// To add the same peer again changes nothing, unless the peer is not taken in
/// and a bucket with too many peers goes on losing them.
pub proof fn lemma_add_is_idempotent(peers: Seq<PeerInfo>, k: nat, new_peer: PeerInfo)
    requires
        distinct_ids(peers),
        k > 0 || peers.len() <= 1 || any_peer(peers, with_id(new_peer.peer_id)),
    ensures
        peers_after_add(peers_after_add(peers, k, new_peer), k, new_peer) == peers_after_add(
            peers,
            k,
            new_peer,
        ),
{
    let once = peers_after_add(peers, k, new_peer);
    let wanted = with_id(new_peer.peer_id);
    if k > 0 || any_peer(peers, wanted) {
        let last = once.len() - 1;
        lemma_add_keeps_ids_distinct(peers, k, new_peer);
        assert(wanted(once[last]));
        assert forall|j: int| 0 <= j < last implies !wanted(#[trigger] once[j]) by {
            assert(once[j].peer_id != once[last].peer_id);
        }
        lemma_first_peer(once, wanted, last);
        assert(once.remove(last).push(new_peer) =~= once);
    } else if any_peer(peers, offline()) {
        lemma_first_peer_exists(peers, offline());
    }
}

} // verus!

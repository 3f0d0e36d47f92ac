use hermes::routing_table::{Bucket, PeerInfo};
use libp2p::{Multiaddr, PeerId};
use std::time::{Duration, Instant};

fn peer(is_online: bool) -> PeerInfo {
    PeerInfo {
        peer_id: PeerId::random(),
        distance: Some(7),
        last_seen: Instant::now(),
        latency: Some(Duration::from_millis(12)),
        address: Some("/ip4/127.0.0.1/tcp/4001".parse::<Multiaddr>().unwrap()),
        is_online,
    }
}

fn ids(bucket: &Bucket) -> Vec<PeerId> {
    bucket.peers.iter().map(|p| p.peer_id).collect()
}

#[test]
fn new_bucket_is_empty() {
    let bucket = Bucket::new(20);
    assert_eq!(bucket.peers.len(), 0);
    assert_eq!(bucket.k, 20);
}

#[test]
fn peers_queue_up_in_order() {
    let (a, b, c) = (peer(true), peer(false), peer(true));
    let mut bucket = Bucket::new(3);
    bucket.add_peer(a.clone());
    bucket.add_peer(b.clone());
    bucket.add_peer(c.clone());
    assert_eq!(ids(&bucket), vec![a.peer_id, b.peer_id, c.peer_id]);
}

#[test]
fn known_peer_is_refreshed_at_the_back() {
    let (a, b) = (peer(true), peer(true));
    let mut bucket = Bucket::new(2);
    bucket.add_peer(a.clone());
    bucket.add_peer(b.clone());
    let mut again = a.clone();
    again.is_online = false;
    again.distance = Some(9);
    bucket.add_peer(again);
    assert_eq!(ids(&bucket), vec![b.peer_id, a.peer_id]);
    assert!(!bucket.peers[1].is_online);
    assert_eq!(bucket.peers[1].distance, Some(9));
}

#[test]
fn adding_the_same_peer_twice_changes_nothing() {
    let (a, b) = (peer(true), peer(true));
    let mut bucket = Bucket::new(2);
    bucket.add_peer(a.clone());
    bucket.add_peer(b.clone());
    let once = ids(&bucket);
    bucket.add_peer(b.clone());
    assert_eq!(ids(&bucket), once);
}

#[test]
fn oldest_offline_peer_makes_room() {
    let (a, b, c, d) = (peer(true), peer(false), peer(false), peer(true));
    let mut bucket = Bucket::new(3);
    bucket.add_peer(a.clone());
    bucket.add_peer(b.clone());
    bucket.add_peer(c.clone());
    bucket.add_peer(d.clone());
    assert_eq!(ids(&bucket), vec![a.peer_id, c.peer_id, d.peer_id]);
}

#[test]
fn oldest_peer_makes_room_if_all_are_online() {
    let (a, b, c) = (peer(true), peer(true), peer(true));
    let mut bucket = Bucket::new(2);
    bucket.add_peer(a.clone());
    bucket.add_peer(b.clone());
    bucket.add_peer(c.clone());
    assert_eq!(ids(&bucket), vec![b.peer_id, c.peer_id]);
}

#[test]
fn bucket_never_outgrows_k() {
    let mut bucket = Bucket::new(4);
    for i in 0..50 {
        bucket.add_peer(peer(i % 3 == 0));
        assert!(bucket.peers.len() <= 4);
    }
    assert_eq!(bucket.peers.len(), 4);
}

#[test]
fn bucket_of_size_zero_stays_empty() {
    let mut bucket = Bucket::new(0);
    bucket.add_peer(peer(true));
    assert_eq!(bucket.peers.len(), 0);
    bucket.add_peer(peer(false));
    assert_eq!(bucket.peers.len(), 0);
    assert_eq!(bucket.k, 0);
}

#[test]
fn bucket_shrunk_to_size_zero_empties_itself() {
    let (a, b, c) = (peer(true), peer(false), peer(true));
    let mut bucket = Bucket::new(3);
    bucket.add_peer(a.clone());
    bucket.add_peer(b.clone());
    bucket.add_peer(c.clone());
    bucket.k = 0;
    bucket.add_peer(peer(true));
    assert_eq!(ids(&bucket), vec![a.peer_id, c.peer_id]);
    bucket.add_peer(a.clone());
    assert_eq!(ids(&bucket), vec![c.peer_id, a.peer_id]);
    bucket.add_peer(peer(true));
    assert_eq!(ids(&bucket), vec![a.peer_id]);
    bucket.add_peer(peer(true));
    assert_eq!(bucket.peers.len(), 0);
}

#[test]
fn bucket_of_one_place_holds_the_last_peer() {
    let (a, b) = (peer(true), peer(true));
    let mut bucket = Bucket::new(1);
    bucket.add_peer(a.clone());
    assert_eq!(ids(&bucket), vec![a.peer_id]);
    bucket.add_peer(b.clone());
    assert_eq!(ids(&bucket), vec![b.peer_id]);
}

#[test]
fn overfull_bucket_loses_one_peer_per_addition() {
    let mut bucket = Bucket::new(5);
    for _ in 0..4 {
        bucket.add_peer(peer(true));
    }
    bucket.k = 2;
    bucket.add_peer(peer(true));
    assert_eq!(bucket.peers.len(), 4);
}

#[test]
fn clone_keeps_every_field() {
    let a = peer(true);
    let b = a.clone();
    assert_eq!(a.peer_id, b.peer_id);
    assert_eq!(a.distance, b.distance);
    assert_eq!(a.last_seen, b.last_seen);
    assert_eq!(a.latency, b.latency);
    assert_eq!(a.address, b.address);
    assert_eq!(a.is_online, b.is_online);
}

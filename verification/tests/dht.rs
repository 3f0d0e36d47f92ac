use futures::task::noop_waker;
use hermes::dht::{get_record, put_record, record_to_put, remove_record, KademliaBehaviour};
use libp2p::kad::store::{MemoryStore, MemoryStoreConfig, RecordStore};
use libp2p::kad::{self, QueryInfo, QueryResult, RecordKey};
use libp2p::swarm::{NetworkBehaviour, ToSwarm};
use libp2p::PeerId;
use std::task::{Context, Poll};
use std::time::{Duration, Instant};

fn node_with(config: MemoryStoreConfig) -> (KademliaBehaviour, PeerId) {
    let peer = PeerId::random();
    let dht = kad::Behaviour::new(peer, MemoryStore::with_config(peer, config));
    (KademliaBehaviour { dht }, peer)
}

fn node() -> (KademliaBehaviour, PeerId) {
    let peer = PeerId::random();
    (KademliaBehaviour::new(peer), peer)
}

fn stored(node: &mut KademliaBehaviour, key: &str) -> Option<kad::Record> {
    node.dht.store_mut().get(&RecordKey::new(&key)).map(|record| record.into_owned())
}

/// The record that the next event reports as found, with its query.
fn next_find(node: &mut KademliaBehaviour) -> Option<(kad::QueryId, kad::Record)> {
    let waker = noop_waker();
    let mut cx = Context::from_waker(&waker);
    match node.dht.poll(&mut cx) {
        Poll::Ready(ToSwarm::GenerateEvent(kad::Event::OutboundQueryProgressed {
            id,
            result: QueryResult::GetRecord(Ok(kad::GetRecordOk::FoundRecord(found))),
            ..
        })) => Some((id, found.record)),
        _ => None,
    }
}

#[test]
fn new_node_is_empty() {
    let (mut node, _) = node();
    assert_eq!(node.dht.store_mut().records().count(), 0);
    assert_eq!(node.dht.iter_queries().count(), 0);
    assert!(next_find(&mut node).is_none());
}

#[test]
fn new_node_takes_1024_records() {
    let (mut node, peer) = node();
    for i in 0..1024 {
        put_record(&mut node, &format!("key {}", i), b"value".to_vec(), peer).unwrap();
    }
    assert_eq!(
        put_record(&mut node, "one more", b"value".to_vec(), peer),
        Err("Failed to put record: the store cannot contain any more records".to_string())
    );
    assert_eq!(node.dht.store_mut().records().count(), 1024);
}

#[test]
fn record_to_put_names_its_publisher() {
    let publisher = PeerId::random();
    let record = record_to_put("jos\u{e9}", b"value".to_vec(), publisher);
    assert_eq!(record.key, "jos\u{e9}".as_bytes().to_vec());
    assert_eq!(record.value, b"value".to_vec());
    assert_eq!(record.publisher, Some(publisher));
    assert_eq!(record.expires, None);
}

#[test]
fn put_stores_a_record_of_the_local_node() {
    let (mut node, peer) = node();
    assert!(put_record(&mut node, "key", b"value".to_vec(), PeerId::random()).is_ok());
    let record = stored(&mut node, "key").unwrap();
    assert_eq!(record.key, RecordKey::new(&"key"));
    assert_eq!(record.value, b"value".to_vec());
    assert_eq!(record.publisher, Some(peer));
    assert_eq!(record.expires, None);
}

#[test]
fn put_starts_a_query_with_a_quorum_of_one() {
    let (mut node, peer) = node();
    let id = put_record(&mut node, "key", b"value".to_vec(), peer).unwrap();
    let info = node.dht.iter_queries().find(|q| q.id() == id).map(|q| q.info().clone());
    match info {
        Some(QueryInfo::PutRecord { record, quorum, .. }) => {
            assert_eq!(record.key, RecordKey::new(&"key"));
            assert_eq!(record.value, b"value".to_vec());
            assert_eq!(quorum.get(), 1);
        }
        other => panic!("{:?}", other),
    }
}

#[test]
fn get_starts_a_query_for_the_key() {
    let (mut node, _) = node();
    let id = get_record(&mut node, "key");
    let info = node.dht.iter_queries().find(|q| q.id() == id).map(|q| q.info().clone());
    match info {
        Some(QueryInfo::GetRecord { key, .. }) => assert_eq!(key, RecordKey::new(&"key")),
        other => panic!("{:?}", other),
    }
}

#[test]
fn get_finds_what_was_put() {
    let (mut node, peer) = node();
    put_record(&mut node, "key", b"first".to_vec(), peer).unwrap();
    put_record(&mut node, "key", b"second".to_vec(), peer).unwrap();
    let id = get_record(&mut node, "key");
    let (found_by, record) = next_find(&mut node).unwrap();
    assert_eq!(found_by, id);
    assert_eq!(record.key, RecordKey::new(&"key"));
    assert_eq!(record.value, b"second".to_vec());
    assert!(stored(&mut node, "key").is_some());
}

#[test]
fn get_of_an_absent_key_finds_nothing() {
    let (mut node, peer) = node();
    put_record(&mut node, "other", b"value".to_vec(), peer).unwrap();
    get_record(&mut node, "key");
    assert!(next_find(&mut node).is_none());
}

#[test]
fn get_drops_an_expired_record() {
    let (mut node, peer) = node();
    let record = kad::Record {
        key: RecordKey::new(&"key"),
        value: b"value".to_vec(),
        publisher: Some(peer),
        expires: Some(Instant::now() - Duration::from_millis(1)),
    };
    node.dht.store_mut().put(record).unwrap();
    get_record(&mut node, "key");
    assert!(next_find(&mut node).is_none());
    assert!(stored(&mut node, "key").is_none());
}

#[test]
fn put_overwrites_and_spares_other_keys() {
    let (mut node, peer) = node();
    put_record(&mut node, "a", b"1".to_vec(), peer).unwrap();
    put_record(&mut node, "b", b"2".to_vec(), peer).unwrap();
    put_record(&mut node, "a", b"3".to_vec(), peer).unwrap();
    assert_eq!(stored(&mut node, "a").unwrap().value, b"3".to_vec());
    assert_eq!(stored(&mut node, "b").unwrap().value, b"2".to_vec());
}

#[test]
fn large_value_is_refused() {
    let (mut node, peer) = node();
    let limit = 65 * 1024;
    assert!(put_record(&mut node, "fits", vec![0; limit - 1], peer).is_ok());
    assert_eq!(
        put_record(&mut node, "key", vec![0; limit], peer),
        Err("Failed to put record: the value is too large to be stored".to_string())
    );
    assert!(stored(&mut node, "key").is_none());
    assert_eq!(node.dht.iter_queries().count(), 1);
}

#[test]
fn refused_put_needs_no_lifetime() {
    let peer = PeerId::random();
    let config = kad::Config::default().set_record_ttl(Some(Duration::MAX)).clone();
    let dht = kad::Behaviour::with_config(peer, MemoryStore::new(peer), config);
    let mut node = KademliaBehaviour { dht };
    assert_eq!(
        put_record(&mut node, "key", vec![0; 65 * 1024], peer),
        Err("Failed to put record: the value is too large to be stored".to_string())
    );
}

#[test]
fn full_store_refuses_new_keys_only() {
    let config = MemoryStoreConfig { max_records: 2, ..Default::default() };
    let (mut node, peer) = node_with(config);
    put_record(&mut node, "a", b"1".to_vec(), peer).unwrap();
    put_record(&mut node, "b", b"2".to_vec(), peer).unwrap();
    assert_eq!(
        put_record(&mut node, "c", b"3".to_vec(), peer),
        Err("Failed to put record: the store cannot contain any more records".to_string())
    );
    assert!(put_record(&mut node, "a", b"4".to_vec(), peer).is_ok());
    assert_eq!(node.dht.store_mut().records().count(), 2);
}

#[test]
fn too_large_counts_before_too_many() {
    let config = MemoryStoreConfig { max_records: 0, max_value_bytes: 4, ..Default::default() };
    let (mut node, peer) = node_with(config);
    assert_eq!(
        put_record(&mut node, "key", vec![0; 4], peer),
        Err("Failed to put record: the value is too large to be stored".to_string())
    );
}

#[test]
fn remove_takes_back_what_was_put() {
    let (mut node, peer) = node();
    put_record(&mut node, "a", b"1".to_vec(), peer).unwrap();
    put_record(&mut node, "b", b"2".to_vec(), peer).unwrap();
    assert_eq!(remove_record(&mut node, "a"), Ok(()));
    assert!(stored(&mut node, "a").is_none());
    assert_eq!(stored(&mut node, "b").unwrap().value, b"2".to_vec());
    assert_eq!(remove_record(&mut node, "a"), Ok(()));
    assert!(stored(&mut node, "a").is_none());
}

#[test]
fn remove_spares_records_of_others() {
    let (mut node, _) = node();
    let record = kad::Record {
        key: RecordKey::new(&"key"),
        value: b"value".to_vec(),
        publisher: Some(PeerId::random()),
        expires: None,
    };
    node.dht.store_mut().put(record).unwrap();
    assert_eq!(remove_record(&mut node, "key"), Ok(()));
    assert!(stored(&mut node, "key").is_some());
}

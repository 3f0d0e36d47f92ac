use hermes::dht_db::{
    flush_outcome, found_record, head_lines, put_outcome, remove_outcome, scanned_record,
    step_lines, SimpleSledStore,
};
use hermes::record::{Record, StoreError};
use libp2p::kad::{ProviderRecord, RecordKey};
use libp2p::PeerId;
use std::time::{Duration, Instant};

fn fresh_path() -> String {
    format!("/tmp/hermes-test-{}", PeerId::random())
}

fn open(path: &str) -> SimpleSledStore {
    SimpleSledStore::new(path).expect("Failed to open sled database")
}

fn record(key: &[u8], value: &[u8]) -> Record {
    Record { key: key.to_vec(), value: value.to_vec(), publisher: Some(PeerId::random()), expires: None }
}

fn listed(store: &SimpleSledStore) -> Vec<Record> {
    let mut walk = store.records();
    let mut records = Vec::new();
    while let Some(step) = walk.next() {
        records.extend(step);
    }
    records
}

fn keys(store: &SimpleSledStore) -> Vec<Vec<u8>> {
    listed(store).into_iter().map(|r| r.key).collect()
}

fn described(store: &SimpleSledStore, path: &str) -> Vec<String> {
    let (mut lines, mut report) = store.describe_contents(path);
    while let Some(more) = report.next() {
        lines.extend(more);
    }
    lines
}

fn failure() -> sled::Error {
    sled::Error::Unsupported("no".to_string())
}

#[test]
fn get_yields_what_was_put() {
    let mut store = open(&fresh_path());
    assert!(store.get(b"key").is_none());
    assert_eq!(store.put(record(b"key", b"first")), Ok(()));
    assert_eq!(store.put(record(b"key", b"second")), Ok(()));
    let found = store.get(b"key").unwrap();
    assert_eq!(found.key, b"key".to_vec());
    assert_eq!(found.value, b"second".to_vec());
    assert!(found.publisher.is_none());
    assert!(found.expires.is_none());
    assert!(store.get(b"ke").is_none());
}

#[test]
fn empty_key_and_empty_value_are_stored() {
    let mut store = open(&fresh_path());
    assert_eq!(store.put(record(b"", b"nameless")), Ok(()));
    assert_eq!(store.put(record(b"void", b"")), Ok(()));
    assert_eq!(store.get(b"").unwrap().value, b"nameless".to_vec());
    assert_eq!(store.get(b"void").unwrap().value, Vec::<u8>::new());
    assert_eq!(keys(&store), vec![b"".to_vec(), b"void".to_vec()]);
}

#[test]
fn removed_key_yields_nothing() {
    let mut store = open(&fresh_path());
    store.put(record(b"a", b"1")).unwrap();
    store.put(record(b"b", b"2")).unwrap();
    assert!(store.remove(b"a"));
    assert!(store.remove(b"never there"));
    assert!(store.get(b"a").is_none());
    assert_eq!(store.get(b"b").unwrap().value, b"2".to_vec());
}

#[test]
fn records_are_listed_in_the_order_of_their_keys() {
    let mut store = open(&fresh_path());
    let mut expected: Vec<Vec<u8>> = Vec::new();
    for i in 0..80u32 {
        let key = vec![(i * 37 % 251) as u8, (i % 7) as u8][..1 + (i % 2) as usize].to_vec();
        if !expected.contains(&key) {
            expected.push(key.clone());
        }
        store.put(record(&key, b"v")).unwrap();
    }
    expected.sort();
    assert_eq!(keys(&store), expected);
}

#[test]
fn records_survive_closing() {
    let path = fresh_path();
    let mut store = open(&path);
    store.put(record(b"key", b"value")).unwrap();
    drop(store);
    let mut reopened = SimpleSledStore::new(&path);
    for _ in 0..50 {
        if reopened.is_ok() {
            break;
        }
        let (_tx, rx) = std::sync::mpsc::channel::<()>();
        let _ = rx.recv_timeout(Duration::from_millis(100));
        reopened = SimpleSledStore::new(&path);
    }
    assert_eq!(reopened.unwrap().get(b"key").unwrap().value, b"value".to_vec());
}

#[test]
fn open_database_is_locked() {
    let path = fresh_path();
    let store = open(&path);
    assert!(SimpleSledStore::new(&path).is_err());
    drop(store);
}

#[test]
fn database_cannot_be_opened_below_a_file() {
    assert!(SimpleSledStore::new("/dev/null/database").is_err());
}

#[test]
fn providers_are_not_kept() {
    let mut store = open(&fresh_path());
    let provider = PeerId::random();
    let claim = ProviderRecord::new(RecordKey::new(&"key"), provider, Vec::new());
    assert_eq!(store.add_provider(claim), Ok(()));
    assert!(store.providers(b"key").is_empty());
    assert!(store.provided().is_empty());
    store.remove_provider(b"key", &provider);
    assert!(listed(&store).is_empty());
}

#[test]
fn contents_are_described() {
    let path = fresh_path();
    let mut store = open(&path);
    store.put(record(b"b", b"two")).unwrap();
    store.put(record(b"a", &[0xff])).unwrap();
    assert_eq!(
        described(&store, &path),
        vec![
            format!("Attempting to open database at: {}", path),
            "--- DHT Database Contents ---".to_string(),
            "[Record 1]".to_string(),
            "  Raw Key  : a".to_string(),
            "  Value    : \u{fffd}".to_string(),
            "[Record 2]".to_string(),
            "  Raw Key  : b".to_string(),
            "  Value    : two".to_string(),
            "--- End of Database (2 records) ---".to_string(),
        ]
    );
}

#[test]
fn report_counts_past_nine() {
    let mut store = open(&fresh_path());
    for i in 0..12u8 {
        store.put(record(&[b'a' + i], b"x")).unwrap();
    }
    let lines = described(&store, "p");
    assert_eq!(lines.len(), 3 + 3 * 12);
    assert_eq!(lines[2 + 3 * 9], "[Record 10]");
    assert_eq!(lines[3 + 3 * 9], "  Raw Key  : j");
    assert_eq!(lines[38], "--- End of Database (12 records) ---");
}

#[test]
fn empty_database_is_described() {
    assert_eq!(
        described(&open(&fresh_path()), "db"),
        vec![
            "Attempting to open database at: db".to_string(),
            "--- DHT Database Contents ---".to_string(),
            "--- End of Database (0 records) ---".to_string(),
        ]
    );
}

#[test]
fn report_comes_record_by_record() {
    let mut store = open(&fresh_path());
    store.put(record(b"a", b"1")).unwrap();
    store.put(record(b"b", b"2")).unwrap();
    let (head, mut report) = store.describe_contents("db");
    assert_eq!(head, head_lines("db"));
    assert_eq!(report.count(), 0);
    assert_eq!(report.next().unwrap(), ["[Record 1]", "  Raw Key  : a", "  Value    : 1"]);
    assert_eq!(report.count(), 1);
    assert_eq!(report.next().unwrap(), ["[Record 2]", "  Raw Key  : b", "  Value    : 2"]);
    assert_eq!(report.next().unwrap(), ["--- End of Database (2 records) ---"]);
    assert_eq!(report.count(), 2);
    assert!(report.next().is_none());
    assert!(report.next().is_none());
}

#[test]
fn walk_hands_records_out_one_by_one() {
    let mut store = open(&fresh_path());
    store.put(record(b"b", b"2")).unwrap();
    store.put(record(b"a", b"1")).unwrap();
    let mut walk = store.records();
    assert_eq!(walk.next().unwrap().unwrap().key, b"a".to_vec());
    let second = walk.next().unwrap().unwrap();
    assert_eq!((second.key, second.value), (b"b".to_vec(), b"2".to_vec()));
    assert!(second.publisher.is_none() && second.expires.is_none());
    assert!(walk.next().is_none());
    assert!(walk.next().is_none());
}

#[test]
fn look_up_stands_for_a_record() {
    let found = found_record(b"key", Ok(Some(b"value".to_vec()))).unwrap();
    assert_eq!(found.key, b"key".to_vec());
    assert_eq!(found.value, b"value".to_vec());
    assert!(found_record(b"key", Ok(None)).is_none());
    assert!(found_record(b"key", Err(failure())).is_none());
}

#[test]
fn failed_put_counts_as_too_large() {
    assert_eq!(put_outcome(Ok(())), Ok(()));
    assert_eq!(put_outcome(Err(failure())), Err(StoreError::ValueTooLarge));
}

#[test]
fn flush_hands_its_cause_on() {
    assert_eq!(flush_outcome(Ok(10)), Ok(()));
    assert_eq!(flush_outcome(Ok(0)), Ok(()));
    assert_eq!(flush_outcome(Err(failure())), Err(failure()));
}

#[test]
fn failed_write_ends_the_put() {
    let mut store = open(&fresh_path());
    assert_eq!(store.try_put(record(b"key", b"value")), Ok(()));
    assert_eq!(store.finish_put(Err(failure())), Err(failure()));
    assert_eq!(store.finish_put(Ok(None)), Ok(()));
    assert_eq!(store.finish_put(Ok(Some(b"old".to_vec()))), Ok(()));
    assert_eq!(store.get(b"key").unwrap().value, b"value".to_vec());
    assert_eq!(listed(&store).len(), 1);
}

#[test]
fn later_put_takes_the_place_of_an_earlier_one_in_the_list() {
    let mut store = open(&fresh_path());
    store.put(record(b"a", &[1])).unwrap();
    store.put(record(b"b", &[2])).unwrap();
    store.put(record(b"b", &[3])).unwrap();
    let pairs: Vec<(Vec<u8>, Vec<u8>)> =
        listed(&store).into_iter().map(|r| (r.key, r.value)).collect();
    assert_eq!(pairs, vec![(b"a".to_vec(), vec![1]), (b"b".to_vec(), vec![3])]);
    assert!(store.remove(b"a"));
    assert_eq!(keys(&store), vec![b"b".to_vec()]);
}

#[test]
fn publisher_and_expiry_are_not_kept() {
    let mut store = open(&fresh_path());
    let mut dated = record(b"a", b"1");
    dated.expires = Some(Instant::now());
    let mut plain = record(b"b", b"1");
    plain.publisher = None;
    assert_eq!(store.put(dated), Ok(()));
    assert_eq!(store.put(plain), Ok(()));
    for found in [store.get(b"a").unwrap(), store.get(b"b").unwrap()] {
        assert_eq!(found.value, b"1".to_vec());
        assert!(found.publisher.is_none() && found.expires.is_none());
    }
}

#[test]
fn single_entry_is_described() {
    let mut store = open(&fresh_path());
    store.put(record(b"k", b"v")).unwrap();
    assert_eq!(
        described(&store, "db"),
        vec![
            "Attempting to open database at: db".to_string(),
            "--- DHT Database Contents ---".to_string(),
            "[Record 1]".to_string(),
            "  Raw Key  : k".to_string(),
            "  Value    : v".to_string(),
            "--- End of Database (1 records) ---".to_string(),
        ]
    );
}

#[test]
fn deletion_is_carried_out_unless_the_database_fails() {
    assert!(remove_outcome(Ok(Some(b"value".to_vec()))));
    assert!(remove_outcome(Ok(None)));
    assert!(!remove_outcome(Err(failure())));
}

#[test]
fn unreadable_item_yields_no_record() {
    let found = scanned_record(Some(Ok((b"a".to_vec(), b"1".to_vec())))).unwrap().unwrap();
    assert_eq!(found.key, b"a".to_vec());
    assert_eq!(found.value, b"1".to_vec());
    assert!(found.publisher.is_none() && found.expires.is_none());
    assert!(matches!(scanned_record(Some(Err(failure()))), Some(None)));
    assert!(scanned_record(None).is_none());
}

#[test]
fn unreadable_item_adds_no_lines() {
    assert!(step_lines(4, &Some(None)).is_empty());
    assert_eq!(
        step_lines(4, &Some(Some(record(b"k", &[0xff])))),
        ["[Record 5]", "  Raw Key  : k", "  Value    : \u{fffd}"]
    );
    assert_eq!(step_lines(4, &None), ["--- End of Database (4 records) ---"]);
}

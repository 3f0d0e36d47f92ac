use hermes::input::handle_input_line;
use hermes::node::{
    bootstrap_peer, database_path, dial_target, generate_ed25519, peer_of_parts, put_message,
    secret_key_bytes, target_of_parts, AddressPart, DialTarget, PendingDials, KAD_PROTOCOL_NAME,
};
use libp2p::kad::{self, store::MemoryStore, QueryId};
use libp2p::{identity, Multiaddr, PeerId};

const NO_PEER: &str = "Expected bootstrap node address to contain P2p protocol";

fn some_query() -> QueryId {
    let peer = PeerId::random();
    let mut dht = kad::Behaviour::new(peer, MemoryStore::new(peer));
    dht.get_record(kad::RecordKey::new(&"key"))
}

#[test]
fn protocol_has_its_name() {
    assert_eq!(KAD_PROTOCOL_NAME, "/hermes/kad/1.0.0");
}

#[test]
fn secret_key_is_the_seed_and_zeros() {
    let mut expected = vec![0u8; 32];
    expected[0] = 7;
    assert_eq!(secret_key_bytes(7), expected);
    assert_ne!(secret_key_bytes(7), secret_key_bytes(8));
}

#[test]
fn seeds_give_known_peers() {
    let known = [
        (0u8, "12D3KooWDpJ7As7BWAwRMfu1VU2WCqNjvq387JEYKDBj4kx6nXTN"),
        (1, "12D3KooWPjceQrSwdWXPyLLeABRXmuqt69Rg3sBYbU1Nft9HyQ6X"),
        (2, "12D3KooWH3uVF6wv47WnArKHk5p6cvgCJEb74UTmxztmQDc298L3"),
    ];
    for (seed, id) in known {
        assert_eq!(generate_ed25519(seed).public().to_peer_id().to_string(), id);
    }
}

#[test]
fn key_pair_is_that_of_the_secret_key() {
    for seed in [0u8, 1, 200, 255] {
        let mut bytes = [0u8; 32];
        bytes[0] = seed;
        let expected = identity::Keypair::ed25519_from_bytes(bytes).unwrap();
        assert_eq!(generate_ed25519(seed).public(), expected.public());
    }
}

#[test]
fn databases_are_named_after_seeds() {
    assert_eq!(database_path(0), "dht-database-0");
    assert_eq!(database_path(42), "dht-database-42");
    assert_eq!(database_path(255), "dht-database-255");
}

#[test]
fn every_seed_has_a_database_of_its_own() {
    for a in 0..=255u8 {
        for b in 0..a {
            assert_ne!(database_path(a), database_path(b));
        }
    }
}

#[test]
fn bootstrap_address_ends_in_a_peer() {
    let peer = PeerId::random();
    let address: Multiaddr = format!("/ip4/10.0.0.1/tcp/4001/p2p/{}", peer).parse().unwrap();
    assert_eq!(bootstrap_peer(&address), Ok(peer));
}

#[test]
fn bootstrap_address_without_a_peer_at_its_end_is_refused() {
    let peer = PeerId::random();
    let plain: Multiaddr = "/ip4/10.0.0.1/tcp/4001".parse().unwrap();
    assert_eq!(bootstrap_peer(&plain), Err(NO_PEER.to_string()));
    let relayed: Multiaddr = format!("/ip4/10.0.0.1/p2p/{}/p2p-circuit", peer).parse().unwrap();
    assert_eq!(bootstrap_peer(&relayed), Err(NO_PEER.to_string()));
    assert_eq!(bootstrap_peer(&Multiaddr::empty()), Err(NO_PEER.to_string()));
}

#[test]
fn last_part_decides() {
    let (a, b) = (PeerId::random(), PeerId::random());
    assert_eq!(peer_of_parts(&vec![AddressPart::P2p(a), AddressPart::P2p(b)]), Ok(b));
    assert_eq!(
        peer_of_parts(&vec![AddressPart::P2p(a), AddressPart::Other]),
        Err(NO_PEER.to_string())
    );
    assert_eq!(peer_of_parts(&vec![]), Err(NO_PEER.to_string()));
}

#[test]
fn dial_record_names_peer_and_address() {
    let peer = PeerId::random();
    match dial_target(&format!("{}:/ip4/10.0.0.1/tcp/4001", peer)) {
        DialTarget::Peer { peer_id, address } => {
            assert_eq!(peer_id, peer);
            assert_eq!(address, "/ip4/10.0.0.1/tcp/4001".parse::<Multiaddr>().unwrap());
        }
        other => panic!("{:?}", other),
    }
}

#[test]
fn empty_address_is_an_address() {
    let peer = PeerId::random();
    match dial_target(&format!("{}:", peer)) {
        DialTarget::Peer { peer_id, address } => {
            assert_eq!(peer_id, peer);
            assert!(address.is_empty());
        }
        other => panic!("{:?}", other),
    }
}

#[test]
fn malformed_dial_records_are_told_apart() {
    let peer = PeerId::random();
    assert!(matches!(dial_target("no colon"), DialTarget::InvalidFormat));
    assert!(matches!(
        dial_target(&format!("{}:/ip6/::1/tcp/4001", peer)),
        DialTarget::InvalidFormat
    ));
    assert!(matches!(dial_target("nobody:/ip4/10.0.0.1/tcp/4001"), DialTarget::Unreadable));
    assert!(matches!(
        dial_target(&format!("{}:ip4/10.0.0.1/tcp/4001", peer)),
        DialTarget::Unreadable
    ));
    assert!(matches!(dial_target(":"), DialTarget::Unreadable));
}

#[test]
fn target_needs_both_parts() {
    let peer = PeerId::random();
    let address: Multiaddr = "/ip4/10.0.0.1".parse().unwrap();
    assert!(matches!(target_of_parts(None), DialTarget::InvalidFormat));
    assert!(matches!(target_of_parts(Some((None, None))), DialTarget::Unreadable));
    assert!(matches!(target_of_parts(Some((Some(peer), None))), DialTarget::Unreadable));
    assert!(matches!(target_of_parts(Some((None, Some(address.clone())))), DialTarget::Unreadable));
    assert!(matches!(
        target_of_parts(Some((Some(peer), Some(address)))),
        DialTarget::Peer { .. }
    ));
}

#[test]
fn record_that_nobody_waits_for_is_announced_only() {
    let mut pending = PendingDials::new();
    pending.insert("other".to_string(), some_query());
    let found = pending.record_found(b"name", b"value");
    assert_eq!(found.message, "Got Record: key='name', value='value'");
    assert!(found.dial.is_none());
    assert!(pending.record_found(b"other", b"x").dial.is_some());
}

#[test]
fn dial_meets_its_record_once() {
    let peer = PeerId::random();
    let value = format!("{}:/ip4/10.0.0.1/tcp/4001", peer);
    let mut pending = PendingDials::new();
    pending.insert("jos\u{e9}".to_string(), some_query());
    let found = pending.record_found("jos\u{e9}".as_bytes(), value.as_bytes());
    assert_eq!(found.message, format!("Got Record: key='jos\u{e9}', value='{}'", value));
    assert!(matches!(found.dial, Some(DialTarget::Peer { .. })));
    let again = pending.record_found("jos\u{e9}".as_bytes(), value.as_bytes());
    assert!(again.dial.is_none());
}

#[test]
fn dial_line_is_pending_and_others_are_not() {
    let mut pending = PendingDials::new();
    for line in ["GET name", "PUT name value", "PRINT_RT", "DIAL", "dial name"] {
        pending.query_started(&handle_input_line(line), some_query());
    }
    assert!(pending.record_found(b"name", b"x").dial.is_none());
    pending.query_started(&handle_input_line("DIAL name"), some_query());
    pending.query_started(&handle_input_line("GET name"), some_query());
    assert!(pending.record_found(b"other", b"x").dial.is_none());
    assert!(pending.record_found(b"name", b"x").dial.is_some());
    assert!(pending.record_found(b"name", b"x").dial.is_none());
}

#[test]
fn unusable_record_still_ends_the_dial() {
    let mut pending = PendingDials::new();
    pending.insert("name".to_string(), some_query());
    let found = pending.record_text_found("name", "rubbish");
    assert!(matches!(found.dial, Some(DialTarget::InvalidFormat)));
    assert!(pending.record_text_found("name", "rubbish").dial.is_none());
}

#[test]
fn bytes_that_are_not_text_are_replaced() {
    let mut pending = PendingDials::new();
    let found = pending.record_found(&[0x61, 0xff, 0x62], &[0xf0, 0x9f]);
    assert_eq!(found.message, "Got Record: key='a\u{fffd}b', value='\u{fffd}'");
}

#[test]
fn put_is_announced() {
    assert_eq!(put_message(b"name"), "Successfully put record with key: 'name'");
    assert_eq!(put_message(&[0xff]), "Successfully put record with key: '\u{fffd}'");
}

//! Decisions of a running node: who it is, where it keeps its records, which
//! peer it starts from, and whom it dials when a record arrives.
use crate::input::{carries_out, Command, InputAction};
use crate::text::{
    colon_pair, decimal, decimal_text, lemma_colon_pair_of_joined, lemma_decimal_is_injective,
    lemma_decimal_reads_back, lemma_text_round_trip, lossy_text, number_of, only_colon,
    split_at_colon, text_of_bytes,
};
use libp2p::identity::{DecodingError, Keypair};
use libp2p::kad::QueryId;
use libp2p::multiaddr::Protocol;
use libp2p::{Multiaddr, PeerId};
use std::str::FromStr;
use vstd::hash_map::StringHashMap;
use vstd::prelude::*;
use vstd::string::*;
use vstd::utf8::*;

verus! {

/// The name under which nodes speak Kademlia with each other.
pub const KAD_PROTOCOL_NAME: &'static str = "/hermes/kad/1.0.0";

/// The key pair that belongs to an Ed25519 secret key.
pub uninterp spec fn ed25519_keypair(secret: Seq<u8>) -> Keypair;

/// `Keypair::ed25519_from_bytes`: any 32 bytes are a secret key, and the key
/// pair depends on them alone; other numbers of bytes are refused.
#[verifier::external_body]
fn keypair_from_secret(secret: Vec<u8>) -> (keypair: Result<Keypair, DecodingError>)
    ensures
        keypair is Ok <==> secret@.len() == 32,
        keypair matches Ok(pair) ==> pair == ed25519_keypair(secret@),
{
    Keypair::ed25519_from_bytes(secret)
}

/// The secret key of a node: its seed, filled up with zeros.
pub open spec fn secret_key(seed: u8) -> Seq<u8> {
    Seq::new(32, |i: int| if i == 0 { seed } else { 0 })
}

/// The secret key of a node.
pub fn secret_key_bytes(seed: u8) -> (bytes: Vec<u8>)
    ensures
        bytes@ == secret_key(seed),
{
    let mut bytes: Vec<u8> = vec![0; 32];
    bytes.set(0, seed);
    assert(bytes@ =~= secret_key(seed));
    bytes
}

/// The key pair of the node with this seed.
pub fn generate_ed25519(secret_key_seed: u8) -> (keypair: Keypair)
    ensures
        keypair == ed25519_keypair(secret_key(secret_key_seed)),
{
    keypair_from_secret(secret_key_bytes(secret_key_seed)).unwrap()
}

/// Different seeds give different secret keys.
pub proof fn lemma_secret_keys_differ(a: u8, b: u8)
    requires
        secret_key(a) == secret_key(b),
    ensures
        a == b,
{
    assert(secret_key(a)[0] == a);
    assert(secret_key(b)[0] == b);
}

/// Where the node with this seed keeps its records.
pub open spec fn db_path_of(seed: u8) -> Seq<char> {
    "dht-database-"@ + decimal(seed as nat)
}

/// Where the node with this seed keeps its records.
pub fn database_path(secret_key_seed: u8) -> (path: String)
    ensures
        path@ == db_path_of(secret_key_seed),
{
    "dht-database-".to_owned().concat(decimal_text(secret_key_seed as usize).as_str())
}

/// Different seeds have different databases.
pub proof fn lemma_databases_differ(a: u8, b: u8)
    requires
        db_path_of(a) == db_path_of(b),
    ensures
        a == b,
{
    let n = "dht-database-"@.len() as int;
    assert(db_path_of(a).skip(n) =~= decimal(a as nat));
    assert(db_path_of(b).skip(n) =~= decimal(b as nat));
    lemma_decimal_is_injective(a as nat, b as nat);
}

/// The secret key holds the seed in its first byte, and zeros in the 31 others.
pub proof fn lemma_secret_key_holds_the_seed(seed: u8, i: int)
    ensures
        secret_key(seed).len() == 32,
        secret_key(seed)[0] == seed,
        1 <= i < 32 ==> secret_key(seed)[i] == 0,
{
}

/// The path of a database ends in the seed of its node, written in decimal, and
/// can be read back.
pub proof fn lemma_database_carries_the_seed(seed: u8)
    ensures
        db_path_of(seed).take(13) == "dht-database-"@,
        number_of(db_path_of(seed).skip(13)) == seed,
        forall|i: int|
            13 <= i < db_path_of(seed).len() ==> '0' <= #[trigger] db_path_of(seed)[i] <= '9',
        db_path_of(seed).len() == if seed < 10 {
            14int
        } else if seed < 100 {
            15
        } else {
            16
        },
{
    reveal_strlit("dht-database-");
    lemma_decimal_reads_back(seed as nat);
    reveal_with_fuel(decimal, 4);
    assert(db_path_of(seed).take(13) =~= "dht-database-"@);
    assert(db_path_of(seed).skip(13) =~= decimal(seed as nat));
    assert forall|i: int| 13 <= i < db_path_of(seed).len() implies '0' <= #[trigger] db_path_of(
        seed,
    )[i] <= '9' by {
        assert(db_path_of(seed)[i] == decimal(seed as nat)[i - 13]);
    }
}

/// A component of an address, as far as it matters here.
#[derive(Debug, Clone, Copy)]
pub enum AddressPart {
    /// The identity of the peer at the address.
    P2p(PeerId),
    /// Any other component.
    Other,
}

/// The components of an address, in order.
pub uninterp spec fn address_parts(address: Multiaddr) -> Seq<AddressPart>;

/// `Multiaddr::iter`: the components of the address, in order.
#[verifier::external_body]
fn parts_of(address: &Multiaddr) -> (parts: Vec<AddressPart>)
    ensures
        parts@ == address_parts(*address),
{
    address.iter().map(
        |part| match part {
            Protocol::P2p(peer_id) => AddressPart::P2p(peer_id),
            _ => AddressPart::Other,
        },
    ).collect()
}

/// The peer that the last component names, if it names one.
pub open spec fn last_peer(parts: Seq<AddressPart>) -> Option<PeerId> {
    if parts.len() > 0 {
        match parts.last() {
            AddressPart::P2p(peer_id) => Some(peer_id),
            AddressPart::Other => None,
        }
    } else {
        None
    }
}

/// The peer that an address with these components leads to.
pub fn peer_of_parts(parts: &Vec<AddressPart>) -> (peer: Result<PeerId, String>)
    ensures
        match peer {
            Ok(peer_id) => last_peer(parts@) == Some(peer_id),
            Err(text) => last_peer(parts@) is None && text@
                == "Expected bootstrap node address to contain P2p protocol"@,
        },
{
    if parts.len() > 0 {
        if let AddressPart::P2p(peer_id) = parts[parts.len() - 1] {
            return Ok(peer_id);
        }
    }
    Err("Expected bootstrap node address to contain P2p protocol".to_owned())
}

/// The peer that the address of a bootstrap node leads to: the one that its
/// last component names.
pub fn bootstrap_peer(address: &Multiaddr) -> (peer: Result<PeerId, String>)
    ensures
        match peer {
            Ok(peer_id) => last_peer(address_parts(*address)) == Some(peer_id),
            Err(text) => last_peer(address_parts(*address)) is None && text@
                == "Expected bootstrap node address to contain P2p protocol"@,
        },
{
    peer_of_parts(&parts_of(address))
}

/// An address that ends in a peer leads to that peer, whatever comes before it.
pub proof fn lemma_peer_at_the_end_is_found(before: Seq<AddressPart>, peer: PeerId)
    ensures
        last_peer(before.push(AddressPart::P2p(peer))) == Some(peer),
{
}

/// An address that ends in anything else leads to no peer, whatever comes
/// before it, and neither does one without components.
pub proof fn lemma_other_ends_lead_to_no_peer(before: Seq<AddressPart>)
    ensures
        last_peer(before.push(AddressPart::Other)) is None,
        last_peer(Seq::empty()) is None,
{
}

/// The identity that a text writes out, if it is one.
pub uninterp spec fn peer_id_of(text: Seq<char>) -> Option<PeerId>;

/// `PeerId::from_str`: reads an identity. Which one depends on the text alone.
#[verifier::external_body]
fn parse_peer_id(text: &str) -> (peer_id: Option<PeerId>)
    ensures
        peer_id == peer_id_of(text@),
{
    PeerId::from_str(text).ok()
}

/// The address that a text writes out, if it is one.
pub uninterp spec fn address_of(text: Seq<char>) -> Option<Multiaddr>;

/// `Multiaddr::from_str`: reads an address. Which one depends on the text
/// alone.
#[verifier::external_body]
fn parse_address(text: &str) -> (address: Option<Multiaddr>)
    ensures
        address == address_of(text@),
{
    Multiaddr::from_str(text).ok()
}

/// Whom a record says to dial.
#[derive(Debug)]
pub enum DialTarget {
    /// The record is not of the form `<peer_id>:<multiaddr>`.
    InvalidFormat,
    /// One of the two parts cannot be read.
    Unreadable,
    /// The peer and its address.
    Peer { peer_id: PeerId, address: Multiaddr },
}

/// Whom to dial, given what the two parts of a record read as; `None` if it
/// does not have two parts.
pub open spec fn target(parts: Option<(Option<PeerId>, Option<Multiaddr>)>) -> DialTarget {
    match parts {
        Some((Some(peer_id), Some(address))) => DialTarget::Peer { peer_id, address },
        Some(_) => DialTarget::Unreadable,
        None => DialTarget::InvalidFormat,
    }
}

/// Whom to dial, given what the two parts of a record read as.
pub fn target_of_parts(parts: Option<(Option<PeerId>, Option<Multiaddr>)>) -> (dial: DialTarget)
    ensures
        dial == target(parts),
{
    match parts {
        Some((Some(peer_id), Some(address))) => DialTarget::Peer { peer_id, address },
        Some(_) => DialTarget::Unreadable,
        None => DialTarget::InvalidFormat,
    }
}

/// Whom a record with this value says to dial.
pub open spec fn target_of(value: Seq<char>) -> DialTarget {
    match colon_pair(value) {
        Some((left, right)) => target(Some((peer_id_of(left), address_of(right)))),
        None => target(None),
    }
}

/// Whom a record with this value says to dial. The value has exactly one
/// colon, with the identity of the peer before it and its address behind it.
pub fn dial_target(value: &str) -> (dial: DialTarget)
    ensures
        dial == target_of(value@),
{
    match split_at_colon(value) {
        Some((left, right)) => target_of_parts(
            Some((parse_peer_id(left.as_str()), parse_address(right.as_str()))),
        ),
        None => target_of_parts(None),
    }
}

/// The peers that are to be dialed once their record is found, by name, with
/// the query that looks for the record.
pub struct PendingDials {
    queries: StringHashMap<QueryId>,
}

/// What is to be done about a record that was found.
#[derive(Debug)]
pub struct FoundRecord {
    /// How the find is announced.
    pub message: String,
    /// Whom to dial, if the record was waited for.
    pub dial: Option<DialTarget>,
}

/// How the find of a record is announced.
pub open spec fn found_message(key: Seq<char>, value: Seq<char>) -> Seq<char> {
    "Got Record: key='"@ + key + "', value='"@ + value + "'"@
}

/// The pending dials after `query` was started for `action`: that of a dial is
/// noted under the name of the peer.
pub open spec fn pending_after(
    pending: Map<Seq<char>, QueryId>,
    action: InputAction,
    query: QueryId,
) -> Map<Seq<char>, QueryId> {
    match action {
        InputAction::Dial { peer_name, .. } => pending.insert(peer_name@, query),
        _ => pending,
    }
}

impl PendingDials {
    /// The queries of the pending dials, by the name of the peer.
    pub closed spec fn view(&self) -> Map<Seq<char>, QueryId> {
        self.queries@
    }

    /// No dial is pending.
    pub fn new() -> (pending: Self)
        ensures
            pending@ == Map::<Seq<char>, QueryId>::empty(),
    {
        PendingDials { queries: StringHashMap::new() }
    }

    /// Notes that `peer_name` is to be dialed once `query` has found its
    /// record.
    pub fn insert(&mut self, peer_name: String, query: QueryId)
        ensures
            final(self)@ == old(self)@.insert(peer_name@, query),
    {
        self.queries.insert(peer_name, query);
    }

    /// Takes note that `query` was started to carry out `action`. Only the
    /// query of a dial is waited for.
    pub fn query_started(&mut self, action: &InputAction, query: QueryId)
        ensures
            final(self)@ == pending_after(old(self)@, *action, query),
    {
        if let InputAction::Dial { peer_name, .. } = action {
            self.insert(peer_name.clone(), query);
        }
    }

    /// Takes note that a record was found, and says whom to dial. A dial that
    /// waited for the record is pending no longer, whatever the record holds.
    pub fn record_text_found(&mut self, key: &str, value: &str) -> (found: FoundRecord)
        ensures
            found.message@ == found_message(key@, value@),
            found.dial == (if old(self)@.contains_key(key@) {
                Some(target_of(value@))
            } else {
                None
            }),
            final(self)@ == old(self)@.remove(key@),
    {
        let message: String = "Got Record: key='".to_owned().concat(key).concat(
            "', value='",
        ).concat(value).concat("'");
        if self.queries.contains_key(key) {
            self.queries.remove(key);
            FoundRecord { message, dial: Some(dial_target(value)) }
        } else {
            assert(self@.remove(key@) =~= self@);
            FoundRecord { message, dial: None }
        }
    }

    /// Takes note that a record was found, and says whom to dial.
    pub fn record_found(&mut self, key: &[u8], value: &[u8]) -> (found: FoundRecord)
        ensures
            found.message@ == found_message(lossy_text(key@), lossy_text(value@)),
            found.dial == (if old(self)@.contains_key(lossy_text(key@)) {
                Some(target_of(lossy_text(value@)))
            } else {
                None
            }),
            final(self)@ == old(self)@.remove(lossy_text(key@)),
    {
        let key: String = text_of_bytes(key);
        let value: String = text_of_bytes(value);
        self.record_text_found(key.as_str(), value.as_str())
    }
}

/// How it is announced that a record was put.
pub fn put_message(key: &[u8]) -> (message: String)
    ensures
        message@ == "Successfully put record with key: '"@ + lossy_text(key@) + "'"@,
{
    "Successfully put record with key: '".to_owned().concat(text_of_bytes(key).as_str()).concat("'")
}

/// The record that a dial asks for is recognised as the one it waits for, and
/// only once: the key that it looks up, read as text, is the name that is noted.
pub proof fn lemma_dial_meets_its_record(
    pending: Map<Seq<char>, QueryId>,
    peer_name: Seq<char>,
    action: InputAction,
    query: QueryId,
)
    requires
        carries_out(action, Command::Dial { peer_name }),
    ensures
        action matches InputAction::Dial { key, .. } && lossy_text(key@) == peer_name && {
            &&& pending_after(pending, action, query).contains_key(lossy_text(key@))
            &&& pending_after(pending, action, query)[lossy_text(key@)] == query
            &&& !pending_after(pending, action, query).remove(lossy_text(key@)).contains_key(
                peer_name,
            )
        },
{
    lemma_text_round_trip(peer_name);
}

/// No other command makes a dial pending, or keeps one from being so.
pub proof fn lemma_only_dials_are_pending(
    pending: Map<Seq<char>, QueryId>,
    command: Command,
    action: InputAction,
    query: QueryId,
)
    requires
        carries_out(action, command),
        !(command is Dial),
    ensures
        pending_after(pending, action, query) == pending,
{
}

/// A query that is started leaves every pending dial as it was, but for the one
/// of the name that is dialed. That one is pending, with this query.
pub proof fn lemma_dials_do_not_disturb_each_other(
    pending: Map<Seq<char>, QueryId>,
    action: InputAction,
    query: QueryId,
    other: Seq<char>,
)
    ensures
        action matches InputAction::Dial { peer_name, .. } ==> {
            &&& pending_after(pending, action, query).contains_key(peer_name@)
            &&& pending_after(pending, action, query)[peer_name@] == query
        },
        !(action matches InputAction::Dial { peer_name, .. } && peer_name@ == other) ==> {
            &&& pending_after(pending, action, query).contains_key(other)
                == pending.contains_key(other)
            &&& pending.contains_key(other) ==> pending_after(pending, action, query)[other]
                == pending[other]
        },
{
}

/// Of two dials that are started one after the other under different names, both
/// are pending, and the record of either ends that dial alone.
pub proof fn lemma_two_dials_are_pending(
    pending: Map<Seq<char>, QueryId>,
    first: Seq<char>,
    second: Seq<char>,
    action1: InputAction,
    action2: InputAction,
    query1: QueryId,
    query2: QueryId,
)
    requires
        first != second,
        carries_out(action1, Command::Dial { peer_name: first }),
        carries_out(action2, Command::Dial { peer_name: second }),
    ensures
        ({
            let both = pending_after(pending_after(pending, action1, query1), action2, query2);
            &&& both.contains_key(first) && both[first] == query1
            &&& both.contains_key(second) && both[second] == query2
            &&& both.remove(first).contains_key(second)
            &&& both.remove(second).contains_key(first)
        }),
{
}

/// A find is announced with its key and its value, all of both.
pub proof fn lemma_found_message_shows_all(key: Seq<char>, value: Seq<char>)
    ensures
        ({
            let message = found_message(key, value);
            let middle = 17 + key.len() as int;
            &&& message.len() == 17 + key.len() + 10 + value.len() + 1
            &&& message.take(17) == "Got Record: key='"@
            &&& message.subrange(17, middle) == key
            &&& message.subrange(middle, middle + 10) == "', value='"@
            &&& message.subrange(middle + 10, message.len() - 1) == value
            &&& message.last() == '\''
        }),
{
    reveal_strlit("Got Record: key='");
    reveal_strlit("', value='");
    reveal_strlit("'");
    let message = found_message(key, value);
    let middle = 17 + key.len() as int;
    assert(message.take(17) =~= "Got Record: key='"@);
    assert(message.subrange(17, middle) =~= key);
    assert(message.subrange(middle, middle + 10) =~= "', value='"@);
    assert(message.subrange(middle + 10, message.len() - 1) =~= value);
}

/// A value of the form `<peer_id>:<multiaddr>` says to dial that peer at that
/// address if both parts can be read, and is unreadable otherwise.
pub proof fn lemma_dial_takes_both_parts(left: Seq<char>, right: Seq<char>)
    requires
        !left.contains(':'),
        !right.contains(':'),
    ensures
        match (peer_id_of(left), address_of(right)) {
            (Some(peer_id), Some(address)) => target_of(left.push(':') + right)
                == (DialTarget::Peer { peer_id, address }),
            _ => target_of(left.push(':') + right) == DialTarget::Unreadable,
        },
{
    lemma_colon_pair_of_joined(left, right);
}

/// Two parts that can be read are dialed as they read; if one of them cannot,
/// the record is unreadable; without two parts it has not the form.
pub proof fn lemma_target_of_parts(peer_id: Option<PeerId>, address: Option<Multiaddr>)
    ensures
        target(Some((peer_id, address))) is Peer <==> peer_id is Some && address is Some,
        target(Some((peer_id, address))) matches DialTarget::Peer { peer_id: p, address: a }
            ==> peer_id == Some(p) && address == Some(a),
        target(Some((peer_id, address))) is Unreadable <==> peer_id is None || address is None,
        target(None) is InvalidFormat,
{
}

/// A value of the form `<peer_id>:<multiaddr>`, with no colon in either part,
/// says to dial what the parts read as.
pub proof fn lemma_target_of_joined(left: Seq<char>, right: Seq<char>)
    requires
        !left.contains(':'),
        !right.contains(':'),
    ensures
        target_of(left.push(':') + right) == target(Some((peer_id_of(left), address_of(right)))),
{
    lemma_colon_pair_of_joined(left, right);
}

/// A value with more than one colon, or with none, is not of the form that a
/// dial takes.
pub proof fn lemma_target_needs_one_colon(value: Seq<char>)
    requires
        !value.contains(':') || exists|i: int, j: int|
            0 <= i < j < value.len() && #[trigger] value[i] == ':' && #[trigger] value[j] == ':',
    ensures
        target_of(value) == DialTarget::InvalidFormat,
{
    assert forall|k: int| !only_colon(value, k) by {
        if only_colon(value, k) {
            assert(value.contains(value[k]));
        }
    }
}

} // verus!

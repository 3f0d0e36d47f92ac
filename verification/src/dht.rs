//! Putting records into the distributed hash table, looking them up, and
//! taking them back.
use crate::record::{describe_error, error_text, Record, StoreError};
use libp2p::kad::store::MemoryStore;
use libp2p::kad::{self, Behaviour, QueryId, RecordKey};
use libp2p::PeerId;
use vstd::prelude::*;
use vstd::string::*;
use vstd::utf8::*;

verus! {

/// The Kademlia part of a node that keeps its records in memory.
pub struct KademliaBehaviour {
    pub dht: Behaviour<MemoryStore>,
}

/// How many peers have to store a record for a put to succeed.
#[derive(Debug, Clone, Copy, PartialEq, Eq, Structural)]
pub enum Quorum {
    One,
    Majority,
    All,
}

/// A record in the store of the local node.
pub struct LocalRecord {
    pub value: Seq<u8>,
    /// The peer that published the record.
    pub publisher: Option<PeerId>,
    /// The record has an expiry time.
    pub expires: bool,
}

/// What a query of the local node is after.
pub enum DhtQuery {
    /// To store a record at `quorum` peers or more.
    Put { key: Seq<u8>, value: Seq<u8>, quorum: nat },
    /// To find the record of a key.
    Get { key: Seq<u8> },
    /// Anything else.
    Other,
}

/// The identity of the local node.
pub uninterp spec fn local_peer(dht: Behaviour<MemoryStore>) -> PeerId;

/// The configured lifetime of records is absent, or so short that its sum with
/// any time that a clock can show is representable.
pub uninterp spec fn lifetime_fits_clock(dht: Behaviour<MemoryStore>) -> bool;

/// The records in the local store.
pub uninterp spec fn local_records(dht: Behaviour<MemoryStore>) -> Map<Seq<u8>, LocalRecord>;

/// The number of records at which the local store is full.
pub uninterp spec fn max_records(dht: Behaviour<MemoryStore>) -> nat;

/// The number of bytes at which a value is too large for the local store.
pub uninterp spec fn max_value_bytes(dht: Behaviour<MemoryStore>) -> nat;

/// The number of peers that a record is replicated to.
pub uninterp spec fn replication_factor(dht: Behaviour<MemoryStore>) -> nat;

/// The queries that have been started and not been reported as finished.
pub uninterp spec fn running_queries(dht: Behaviour<MemoryStore>) -> Map<QueryId, DhtQuery>;

/// The records that queries found in the local store and that have not been
/// reported yet: the query, the key and the value, oldest first.
pub uninterp spec fn local_finds(dht: Behaviour<MemoryStore>) -> Seq<
    (QueryId, Seq<u8>, Seq<u8>),
>;

/// The state of a node's Kademlia part, as far as records are concerned.
#[verifier::ext_equal]
pub struct DhtState {
    pub local: PeerId,
    pub lifetime_fits_clock: bool,
    pub records: Map<Seq<u8>, LocalRecord>,
    pub max_records: nat,
    pub max_value_bytes: nat,
    pub replication_factor: nat,
    pub queries: Map<QueryId, DhtQuery>,
    pub finds: Seq<(QueryId, Seq<u8>, Seq<u8>)>,
}

/// The state that `dht` is in.
pub open spec fn dht_state(dht: Behaviour<MemoryStore>) -> DhtState {
    DhtState {
        local: local_peer(dht),
        lifetime_fits_clock: lifetime_fits_clock(dht),
        records: local_records(dht),
        max_records: max_records(dht),
        max_value_bytes: max_value_bytes(dht),
        replication_factor: replication_factor(dht),
        queries: running_queries(dht),
        finds: local_finds(dht),
    }
}

/// The state of a node that has just come into being, with the default limits:
/// it holds no record and runs no query.
pub open spec fn fresh_state(local: PeerId) -> DhtState {
    DhtState {
        local,
        lifetime_fits_clock: true,
        records: Map::empty(),
        max_records: 1024,
        max_value_bytes: 66560,
        replication_factor: 20,
        queries: Map::empty(),
        finds: Seq::empty(),
    }
}

/// The number of peers that make up a quorum.
pub open spec fn quorum_size(quorum: Quorum, replication_factor: nat) -> nat {
    match quorum {
        Quorum::One => 1,
        Quorum::Majority => replication_factor / 2 + 1,
        Quorum::All => replication_factor,
    }
}

/// Why a store with these records and limits refuses a record: its value is
/// too large, or its key is new and the store is full.
pub open spec fn refusal(
    records: Map<Seq<u8>, LocalRecord>,
    max_records: nat,
    max_value_bytes: nat,
    key: Seq<u8>,
    value: Seq<u8>,
) -> Option<StoreError> {
    if value.len() >= max_value_bytes {
        Some(StoreError::ValueTooLarge)
    } else if !records.contains_key(key) && records.len() >= max_records {
        Some(StoreError::MaxRecords)
    } else {
        None
    }
}

/// `Behaviour::new` over `MemoryStore::new`. The store is empty and takes up to
/// 1024 records, with values of less than 65 KiB. No query runs. Records are
/// replicated to 20 peers, and live for 48 hours.
#[verifier::external_body]
fn kad_new(local: PeerId) -> (dht: Behaviour<MemoryStore>)
    ensures
        local_peer(dht) == local,
        lifetime_fits_clock(dht),
        local_records(dht) == fresh_state(local).records,
        max_records(dht) == 1024,
        max_value_bytes(dht) == 66560,
        replication_factor(dht) == 20,
        running_queries(dht) == fresh_state(local).queries,
        local_finds(dht) == fresh_state(local).finds,
{
    Behaviour::new(local, MemoryStore::new(local))
}

/// `Behaviour::put_record` over a `MemoryStore`. A record that the store
/// refuses changes nothing. Any other record is stored with the local node as
/// its publisher, whoever is named, in the place of an earlier record of the
/// key, and a query is started that replicates it. The expiry time that other
/// nodes get to see, the clock plus the configured lifetime, is left unsaid, and
/// so is which number the query gets. The call panics if it comes to work that
/// time out and it cannot be represented, hence the condition.
#[verifier::external_body]
fn kad_put_record(dht: &mut Behaviour<MemoryStore>, record: Record, quorum: Quorum) -> (put: Result<
    QueryId,
    StoreError,
>)
    requires
        ({
            ||| lifetime_fits_clock(*old(dht))
            ||| record.expires is Some
            ||| refusal(
                local_records(*old(dht)),
                max_records(*old(dht)),
                max_value_bytes(*old(dht)),
                record.key@,
                record.value@,
            ) is Some
        }),
    ensures
        local_peer(*final(dht)) == local_peer(*old(dht)),
        lifetime_fits_clock(*final(dht)) == lifetime_fits_clock(*old(dht)),
        max_records(*final(dht)) == max_records(*old(dht)),
        max_value_bytes(*final(dht)) == max_value_bytes(*old(dht)),
        replication_factor(*final(dht)) == replication_factor(*old(dht)),
        local_finds(*final(dht)) == local_finds(*old(dht)),
        match put {
            Ok(id) => {
                &&& refusal(
                    local_records(*old(dht)),
                    max_records(*old(dht)),
                    max_value_bytes(*old(dht)),
                    record.key@,
                    record.value@,
                ) is None
                &&& local_records(*final(dht)) == local_records(*old(dht)).insert(
                    record.key@,
                    (LocalRecord {
                        value: record.value@,
                        publisher: Some(local_peer(*old(dht))),
                        expires: record.expires is Some,
                    }),
                )
                &&& running_queries(*final(dht)) == running_queries(*old(dht)).insert(
                    id,
                    (DhtQuery::Put {
                        key: record.key@,
                        value: record.value@,
                        quorum: quorum_size(quorum, replication_factor(*old(dht))),
                    }),
                )
            },
            Err(error) => {
                &&& refusal(
                    local_records(*old(dht)),
                    max_records(*old(dht)),
                    max_value_bytes(*old(dht)),
                    record.key@,
                    record.value@,
                ) == Some(error)
                &&& local_records(*final(dht)) == local_records(*old(dht))
                &&& running_queries(*final(dht)) == running_queries(*old(dht))
            },
        },
{
    let Record { key, value, publisher, expires } = record;
    let record = kad::Record { key: RecordKey::from(key), value, publisher, expires };
    let quorum = match quorum {
        Quorum::One => kad::Quorum::One,
        Quorum::Majority => kad::Quorum::Majority,
        Quorum::All => kad::Quorum::All,
    };
    match dht.put_record(record, quorum) {
        Ok(id) => Ok(id),
        Err(kad::store::Error::MaxRecords) => Err(StoreError::MaxRecords),
        Err(kad::store::Error::MaxProvidedKeys) => Err(StoreError::MaxProvidedKeys),
        Err(kad::store::Error::ValueTooLarge) => Err(StoreError::ValueTooLarge),
    }
}

/// `Behaviour::get_record` over a `MemoryStore`. A query for the key is
/// started. A record of the key in the local store is queued as found; one
/// with an expiry time may have expired, and is then dropped from the store
/// instead. Which number the query gets is left unsaid.
#[verifier::external_body]
fn kad_get_record(dht: &mut Behaviour<MemoryStore>, key: Vec<u8>) -> (id: QueryId)
    ensures
        local_peer(*final(dht)) == local_peer(*old(dht)),
        lifetime_fits_clock(*final(dht)) == lifetime_fits_clock(*old(dht)),
        max_records(*final(dht)) == max_records(*old(dht)),
        max_value_bytes(*final(dht)) == max_value_bytes(*old(dht)),
        replication_factor(*final(dht)) == replication_factor(*old(dht)),
        running_queries(*final(dht)) == running_queries(*old(dht)).insert(
            id,
            (DhtQuery::Get { key: key@ }),
        ),
        looked_up(
            local_records(*old(dht)),
            local_finds(*old(dht)),
            key@,
            id,
            local_records(*final(dht)),
            local_finds(*final(dht)),
        ),
{
    dht.get_record(RecordKey::from(key))
}

/// What the look-up of `key` by query `id` does to the records and the finds.
pub open spec fn looked_up(
    records: Map<Seq<u8>, LocalRecord>,
    finds: Seq<(QueryId, Seq<u8>, Seq<u8>)>,
    key: Seq<u8>,
    id: QueryId,
    records_after: Map<Seq<u8>, LocalRecord>,
    finds_after: Seq<(QueryId, Seq<u8>, Seq<u8>)>,
) -> bool {
    if records.contains_key(key) {
        ||| records_after == records && finds_after == finds.push((id, key, records[key].value))
        ||| records[key].expires && records_after == records.remove(key) && finds_after == finds
    } else {
        records_after == records && finds_after == finds
    }
}

/// `Behaviour::remove_record` over a `MemoryStore`: the record of the key
/// leaves the local store if the local node published it.
#[verifier::external_body]
fn kad_remove_record(dht: &mut Behaviour<MemoryStore>, key: Vec<u8>)
    ensures
        local_peer(*final(dht)) == local_peer(*old(dht)),
        lifetime_fits_clock(*final(dht)) == lifetime_fits_clock(*old(dht)),
        max_records(*final(dht)) == max_records(*old(dht)),
        max_value_bytes(*final(dht)) == max_value_bytes(*old(dht)),
        replication_factor(*final(dht)) == replication_factor(*old(dht)),
        running_queries(*final(dht)) == running_queries(*old(dht)),
        local_finds(*final(dht)) == local_finds(*old(dht)),
        local_records(*final(dht)) == without_own(
            local_records(*old(dht)),
            local_peer(*old(dht)),
            key@,
        ),
{
    dht.remove_record(&RecordKey::from(key))
}

/// The records without that of `key`, if `local` published it.
pub open spec fn without_own(
    records: Map<Seq<u8>, LocalRecord>,
    local: PeerId,
    key: Seq<u8>,
) -> Map<Seq<u8>, LocalRecord> {
    if records.contains_key(key) && records[key].publisher == Some(local) {
        records.remove(key)
    } else {
        records
    }
}

/// Why the store refuses to take `value` under `key` in state `state`.
pub open spec fn put_refusal(state: DhtState, key: Seq<u8>, value: Seq<u8>) -> Option<StoreError> {
    refusal(state.records, state.max_records, state.max_value_bytes, key, value)
}

/// The state after `value` was put under `key`, with `id` as the query.
pub open spec fn after_put(state: DhtState, key: Seq<u8>, value: Seq<u8>, id: QueryId) -> DhtState {
    DhtState {
        records: state.records.insert(
            key,
            LocalRecord { value, publisher: Some(state.local), expires: false },
        ),
        queries: state.queries.insert(id, DhtQuery::Put { key, value, quorum: 1 }),
        ..state
    }
}

/// `after` is a state that the look-up of `key` by query `id` leads to.
pub open spec fn after_get(state: DhtState, key: Seq<u8>, id: QueryId, after: DhtState) -> bool {
    &&& looked_up(state.records, state.finds, key, id, after.records, after.finds)
    &&& after == DhtState {
        records: after.records,
        finds: after.finds,
        queries: state.queries.insert(id, DhtQuery::Get { key }),
        ..state
    }
}

/// The state after the record of `key` was taken back.
pub open spec fn after_remove(state: DhtState, key: Seq<u8>) -> DhtState {
    DhtState { records: without_own(state.records, state.local, key), ..state }
}

/// How the refusal of a put reads.
pub open spec fn put_failure(error: StoreError) -> Seq<char> {
    "Failed to put record: "@ + error_text(error)
}

impl KademliaBehaviour {
    /// The Kademlia part of the node `local`, with an empty store and the
    /// default configuration.
    pub fn new(local: PeerId) -> (behaviour: Self)
        ensures
            dht_state(behaviour.dht) == fresh_state(local),
    {
        KademliaBehaviour { dht: kad_new(local) }
    }
}

/// The record that puts `value` under `key`, published by `peer_id`. It does
/// not expire.
pub fn record_to_put(key: &str, value: Vec<u8>, peer_id: PeerId) -> (record: Record)
    ensures
        record.key@ == encode_utf8(key@),
        record.value == value,
        record.publisher == Some(peer_id),
        record.expires is None,
{
    Record { key: key.as_bytes_vec(), value, publisher: Some(peer_id), expires: None }
}

/// Stores `value` under `key` in the local store, without expiry, and starts a
/// query that has one other peer at least store it too. The query's handle is
/// returned at once: it says that the put is under way, not that it succeeded.
/// Fails, and changes nothing, exactly if the local store refuses the record.
/// `peer_id` is handed over as the publisher; the record is nevertheless stored
/// as one of the local node.
pub fn put_record(
    behaviour: &mut KademliaBehaviour,
    key: &str,
    value: Vec<u8>,
    peer_id: PeerId,
) -> (put: Result<QueryId, String>)
    requires
        lifetime_fits_clock(old(behaviour).dht) || put_refusal(
            dht_state(old(behaviour).dht),
            encode_utf8(key@),
            value@,
        ) is Some,
    ensures
        match put_refusal(dht_state(old(behaviour).dht), encode_utf8(key@), value@) {
            None => put matches Ok(id) && dht_state(final(behaviour).dht) == after_put(
                dht_state(old(behaviour).dht),
                encode_utf8(key@),
                value@,
                id,
            ),
            Some(error) => put matches Err(text) && text@ == put_failure(error) && dht_state(
                final(behaviour).dht,
            ) == dht_state(old(behaviour).dht),
        },
{
    let record = record_to_put(key, value, peer_id);
    match kad_put_record(&mut behaviour.dht, record, Quorum::One) {
        Ok(id) => Ok(id),
        Err(error) => {
            let mut text: String = "Failed to put record: ".to_owned();
            text.append(describe_error(error).as_str());
            Err(text)
        },
    }
}

/// Starts a query for the record of `key`. A record in the local store is
/// queued at once as found by that query.
pub fn get_record(behaviour: &mut KademliaBehaviour, key: &str) -> (id: QueryId)
    ensures
        after_get(
            dht_state(old(behaviour).dht),
            encode_utf8(key@),
            id,
            dht_state(final(behaviour).dht),
        ),
{
    kad_get_record(&mut behaviour.dht, key.as_bytes_vec())
}

/// Takes the record of `key` back, if the local node published it: it leaves
/// the local store.
pub fn remove_record(behaviour: &mut KademliaBehaviour, key: &str) -> (removed: Result<(), String>)
    ensures
        removed is Ok,
        dht_state(final(behaviour).dht) == after_remove(
            dht_state(old(behaviour).dht),
            encode_utf8(key@),
        ),
{
    kad_remove_record(&mut behaviour.dht, key.as_bytes_vec());
    Ok(())
}

/// A look-up of a key finds what was put under it last, for as long as it is
/// not removed: the find is queued, and the record stays.
pub proof fn lemma_get_finds_put(
    state: DhtState,
    key: Seq<u8>,
    value: Seq<u8>,
    put: QueryId,
    get: QueryId,
    after: DhtState,
)
    requires
        put_refusal(state, key, value) is None,
        after_get(after_put(state, key, value, put), key, get, after),
    ensures
        after.finds == state.finds.push((get, key, value)),
        after.records == after_put(state, key, value, put).records,
{
}

/// A look-up of a key that the local store does not hold finds nothing there.
pub proof fn lemma_get_of_absent_key(state: DhtState, key: Seq<u8>, id: QueryId, after: DhtState)
    requires
        !state.records.contains_key(key),
        after_get(state, key, id, after),
    ensures
        after.finds == state.finds,
        after.records == state.records,
        after.queries == state.queries.insert(id, DhtQuery::Get { key }),
{
}

/// What was put can be taken back: the key is gone, and every other record is
/// what it was.
pub proof fn lemma_remove_undoes_put(state: DhtState, key: Seq<u8>, value: Seq<u8>, id: QueryId)
    requires
        put_refusal(state, key, value) is None,
    ensures
        after_remove(after_put(state, key, value, id), key).records == state.records.remove(key),
        !after_remove(after_put(state, key, value, id), key).records.contains_key(key),
{
    assert(after_remove(after_put(state, key, value, id), key).records =~= state.records.remove(
        key,
    ));
}

/// A record of another key, or one that another node published, stays.
pub proof fn lemma_remove_spares_others(state: DhtState, key: Seq<u8>, other: Seq<u8>)
    requires
        state.records.contains_key(other),
        other != key || state.records[other].publisher != Some(state.local),
    ensures
        after_remove(state, key).records.contains_key(other),
        after_remove(state, key).records[other] == state.records[other],
{
}

/// To take a record back again changes nothing.
pub proof fn lemma_remove_is_idempotent(state: DhtState, key: Seq<u8>)
    ensures
        after_remove(after_remove(state, key), key) == after_remove(state, key),
{
}

/// Of two puts under one key, the later one counts.
pub proof fn lemma_put_overwrites(
    state: DhtState,
    key: Seq<u8>,
    first: Seq<u8>,
    second: Seq<u8>,
    id1: QueryId,
    id2: QueryId,
)
    requires
        put_refusal(state, key, first) is None,
        second.len() < state.max_value_bytes,
    ensures
        put_refusal(after_put(state, key, first, id1), key, second) is None,
        after_put(after_put(state, key, first, id1), key, second, id2).records == after_put(
            state,
            key,
            second,
            id2,
        ).records,
{
    assert(after_put(after_put(state, key, first, id1), key, second, id2).records =~= after_put(
        state,
        key,
        second,
        id2,
    ).records);
}

/// A put leaves the records of all other keys alone.
pub proof fn lemma_put_spares_others(
    state: DhtState,
    key: Seq<u8>,
    value: Seq<u8>,
    id: QueryId,
    other: Seq<u8>,
)
    requires
        put_refusal(state, key, value) is None,
        other != key,
    ensures
        after_put(state, key, value, id).records.contains_key(other)
            == state.records.contains_key(other),
        state.records.contains_key(other) ==> after_put(state, key, value, id).records[other]
            == state.records[other],
{
}

/// A put is refused exactly if its value has too many bytes for the store, or its
/// key is new to a store that is full; a value that is too large counts first.
pub proof fn lemma_what_is_refused(state: DhtState, key: Seq<u8>, value: Seq<u8>)
    ensures
        put_refusal(state, key, value) is None <==> value.len() < state.max_value_bytes && (
        state.records.contains_key(key) || state.records.len() < state.max_records),
        put_refusal(state, key, value) == Some(StoreError::ValueTooLarge) <==> value.len()
            >= state.max_value_bytes,
        put_refusal(state, key, value) != Some(StoreError::MaxProvidedKeys),
{
}

/// A put stores its value, all of it, as a record of the local node that does
/// not expire. Its query is after the same value under the same key, at one peer
/// or more; no other query is touched, and nothing is reported as found.
pub proof fn lemma_put_stores_and_replicates(
    state: DhtState,
    key: Seq<u8>,
    value: Seq<u8>,
    id: QueryId,
    other: QueryId,
)
    ensures
        ({
            let after = after_put(state, key, value, id);
            &&& after.records.contains_key(key)
            &&& after.records[key].value == value
            &&& after.records[key].publisher == Some(state.local)
            &&& !after.records[key].expires
            &&& after.queries.contains_key(id)
            &&& after.queries[id] == (DhtQuery::Put { key, value, quorum: 1 })
            &&& other != id ==> after.queries.contains_key(other) == state.queries.contains_key(
                other,
            )
            &&& other != id && state.queries.contains_key(other) ==> after.queries[other]
                == state.queries[other]
            &&& after.finds == state.finds
        }),
{
}

/// A look-up starts a query for its key and touches no other query. It leaves
/// the records of other keys alone. A record of the key that does not expire is
/// found, and stays; no other find is added, and none is lost.
pub proof fn lemma_look_up(
    state: DhtState,
    key: Seq<u8>,
    id: QueryId,
    after: DhtState,
    other: Seq<u8>,
    query: QueryId,
)
    requires
        after_get(state, key, id, after),
    ensures
        after.queries.contains_key(id),
        after.queries[id] == (DhtQuery::Get { key }),
        query != id ==> after.queries.contains_key(query) == state.queries.contains_key(query),
        query != id && state.queries.contains_key(query) ==> after.queries[query]
            == state.queries[query],
        other != key ==> after.records.contains_key(other) == state.records.contains_key(other),
        other != key && state.records.contains_key(other) ==> after.records[other]
            == state.records[other],
        state.records.contains_key(key) && !state.records[key].expires ==> after.records
            == state.records && after.finds == state.finds.push((id, key, state.records[key].value)),
        after.finds == state.finds || (state.records.contains_key(key) && after.finds
            == state.finds.push((id, key, state.records[key].value))),
        !state.records.contains_key(key) ==> !after.records.contains_key(key),
{
}

/// To take a record back takes it out of the store if the local node published
/// it, and does nothing else.
pub proof fn lemma_remove_takes_own_records(state: DhtState, key: Seq<u8>)
    ensures
        after_remove(state, key).records.contains_key(key) <==> state.records.contains_key(key)
            && state.records[key].publisher != Some(state.local),
        after_remove(state, key).queries == state.queries,
        after_remove(state, key).finds == state.finds,
{
}

/// A refusal is told with its reason, in full.
pub proof fn lemma_refusals_are_told(error: StoreError)
    ensures
        put_failure(error).take(22) == "Failed to put record: "@,
        put_failure(error).skip(22) == error_text(error),
{
    reveal_strlit("Failed to put record: ");
    assert(put_failure(error).take(22) =~= "Failed to put record: "@);
    assert(put_failure(error).skip(22) =~= error_text(error));
}

/// A new node takes every record whose value is less than 65 KiB, and finds
/// nothing.
pub proof fn lemma_new_node(local: PeerId, key: Seq<u8>, value: Seq<u8>, id: QueryId)
    ensures
        put_refusal(fresh_state(local), key, value) is None <==> value.len() < 65 * 1024,
        fresh_state(local).local == local,
        fresh_state(local).lifetime_fits_clock,
        !fresh_state(local).records.contains_key(key),
        !fresh_state(local).queries.contains_key(id),
        fresh_state(local).finds.len() == 0,
        fresh_state(local).records.len() == 0,
        fresh_state(local).max_records == 1024,
        fresh_state(local).replication_factor == 20,
{
}

/// Who the node is, and how it is configured, stays the same whatever is put,
/// looked up or taken back.
pub proof fn lemma_settings_stay(
    state: DhtState,
    key: Seq<u8>,
    value: Seq<u8>,
    id: QueryId,
    after: DhtState,
)
    requires
        after == after_put(state, key, value, id) || after_get(state, key, id, after) || after
            == after_remove(state, key),
    ensures
        after.local == state.local,
        after.lifetime_fits_clock == state.lifetime_fits_clock,
        after.max_records == state.max_records,
        after.max_value_bytes == state.max_value_bytes,
        after.replication_factor == state.replication_factor,
{
}

/// A store that holds no more records than it may never comes to hold more.
pub proof fn lemma_put_keeps_capacity(state: DhtState, key: Seq<u8>, value: Seq<u8>, id: QueryId)
    requires
        state.records.dom().finite(),
        state.records.len() <= state.max_records,
        put_refusal(state, key, value) is None,
    ensures
        after_put(state, key, value, id).records.dom().finite(),
        after_put(state, key, value, id).records.len() <= state.max_records,
{
    if state.records.contains_key(key) {
        assert(after_put(state, key, value, id).records.dom() =~= state.records.dom());
    }
}

} // verus!

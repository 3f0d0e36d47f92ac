//! A record store on disk.
use crate::record::{Record, StoreError};
use crate::text::{decimal, decimal_text, lossy_text, text_of_bytes, texts};
use libp2p::kad::ProviderRecord;
use libp2p::PeerId;
use vstd::prelude::*;
use vstd::slice::*;
use vstd::string::*;

verus! {

/// A record store in a database on disk. The store holds the only handle of
/// its database, which is locked while it is open, so what the database holds
/// changes through the store alone.
#[derive(Debug)]
pub struct SimpleSledStore {
    db: sled::Db,
}

/// The keys and values that an open database holds.
pub uninterp spec fn db_contents(db: sled::Db) -> Map<Seq<u8>, Seq<u8>>;

/// The path that a database was opened with.
pub uninterp spec fn db_path(db: sled::Db) -> Seq<char>;

/// All writes to the database so far are sure to survive a crash.
pub uninterp spec fn db_flushed(db: sled::Db) -> bool;

/// sled's iterator over a database. Nothing is known of it but what `walks` and
/// `rest` say.
#[verifier::external_body]
pub struct Cursor {
    iter: sled::Iter,
}

/// The iterator was made on `db`, which has not been written to since.
pub uninterp spec fn walks(cursor: Cursor, db: sled::Db) -> bool;

/// The pairs of key and value that an iterator has still to hand out, for as
/// long as its database is not written to.
pub uninterp spec fn rest(cursor: Cursor) -> Seq<(Seq<u8>, Seq<u8>)>;

/// `value` is what `contents` holds under `key`, or `None` if it holds nothing.
pub open spec fn is_value_of(
    contents: Map<Seq<u8>, Seq<u8>>,
    key: Seq<u8>,
    value: Option<Vec<u8>>,
) -> bool {
    match value {
        Some(value) => contents.contains_key(key) && contents[key] == value@,
        None => !contents.contains_key(key),
    }
}

/// `sled::open`: opens the database at `path`, or makes one there. Whether it
/// can be opened, and what it then holds, is up to the disk.
#[verifier::external_body]
fn db_open(path: &str) -> (opened: Result<sled::Db, sled::Error>)
    ensures
        opened matches Ok(db) ==> db_path(db) == path@,
{
    sled::open(path)
}

/// `Tree::get` on the default tree: the value of the key, if there is one.
/// Whether the database can be read is left open.
#[verifier::external_body]
fn db_get(db: &sled::Db, key: &[u8]) -> (got: Result<Option<Vec<u8>>, sled::Error>)
    ensures
        got matches Ok(value) ==> is_value_of(db_contents(*db), key@, value),
{
    Ok(db.get(key)?.map(|value| value.to_vec()))
}

/// `Tree::insert` on the default tree: gives the key a new value and returns
/// the one it had, if any. Whether the database can be written is left open;
/// if it reports an error, the write has happened or it has not, and no other
/// key is touched.
#[verifier::external_body]
fn db_insert(db: &mut sled::Db, key: &[u8], value: Vec<u8>) -> (inserted: Result<
    Option<Vec<u8>>,
    sled::Error,
>)
    ensures
        db_path(*final(db)) == db_path(*old(db)),
        match inserted {
            Ok(last) => {
                &&& is_value_of(db_contents(*old(db)), key@, last)
                &&& db_contents(*final(db)) == db_contents(*old(db)).insert(key@, value@)
            },
            Err(_) => {
                ||| db_contents(*final(db)) == db_contents(*old(db))
                ||| db_contents(*final(db)) == db_contents(*old(db)).insert(key@, value@)
            },
        },
{
    Ok(db.insert(key, value)?.map(|last| last.to_vec()))
}

/// `Tree::remove` on the default tree: deletes the key and returns the value it
/// had, if any. Whether the database can be written is left open; if it reports
/// an error, the deletion has happened or it has not, and no other key is
/// touched.
#[verifier::external_body]
fn db_remove(db: &mut sled::Db, key: &[u8]) -> (removed: Result<Option<Vec<u8>>, sled::Error>)
    ensures
        db_path(*final(db)) == db_path(*old(db)),
        match removed {
            Ok(last) => {
                &&& is_value_of(db_contents(*old(db)), key@, last)
                &&& db_contents(*final(db)) == db_contents(*old(db)).remove(key@)
            },
            Err(_) => {
                ||| db_contents(*final(db)) == db_contents(*old(db))
                ||| db_contents(*final(db)) == db_contents(*old(db)).remove(key@)
            },
        },
{
    Ok(db.remove(key)?.map(|last| last.to_vec()))
}

/// `Tree::flush`: writes out what is not on disk yet. If it succeeds, all
/// writes so far are sure to survive a crash. How many bytes it writes, and
/// whether it succeeds, is left open.
#[verifier::external_body]
fn db_flush(db: &mut sled::Db) -> (flushed: Result<usize, sled::Error>)
    ensures
        db_path(*final(db)) == db_path(*old(db)),
        db_contents(*final(db)) == db_contents(*old(db)),
        flushed is Ok ==> db_flushed(*final(db)),
{
    db.flush()
}

/// `Tree::iter` on the default tree: an iterator that has all pairs of key and
/// value still to hand out, in the order of the keys, byte by byte.
#[verifier::external_body]
fn db_iter(db: &sled::Db) -> (cursor: Cursor)
    ensures
        walks(cursor, *db),
        lists(db_contents(*db), rest(cursor)),
{
    Cursor { iter: db.iter() }
}

/// `Iter::next`: hands out the first of the pairs that are still to come, and
/// `None` only if there are none. Whether the database can be read is left open;
/// after an error the iterator stays where it was, so no pair is lost. An
/// iterator over a database that was written to since may hand out anything,
/// hence the condition.
#[allow(unused_variables)]
#[verifier::external_body]
fn db_next(db: &sled::Db, cursor: &mut Cursor) -> (item: Option<
    Result<(Vec<u8>, Vec<u8>), sled::Error>,
>)
    requires
        walks(*old(cursor), *db),
    ensures
        walks(*final(cursor), *db),
        match item {
            Some(Ok((key, value))) => {
                &&& rest(*old(cursor)).len() > 0
                &&& rest(*old(cursor))[0] == (key@, value@)
                &&& rest(*final(cursor)) == rest(*old(cursor)).skip(1)
            },
            Some(Err(_)) => rest(*final(cursor)) == rest(*old(cursor)),
            None => rest(*old(cursor)).len() == 0 && rest(*final(cursor)) == rest(*old(cursor)),
        },
{
    cursor.iter.next().map(|item| item.map(|(key, value)| (key.to_vec(), value.to_vec())))
}

/// Key `a` comes before key `b`: at the first place where they differ, `a` has
/// the smaller byte or has ended.
pub open spec fn key_before(a: Seq<u8>, b: Seq<u8>) -> bool {
    exists|i: int| differ_first_at(a, b, i) && i < b.len() && (i == a.len() || a[i] < b[i])
}

/// Two keys agree in their first `i` bytes and not in the one behind them.
pub open spec fn differ_first_at(a: Seq<u8>, b: Seq<u8>, i: int) -> bool {
    &&& 0 <= i <= a.len()
    &&& i <= b.len()
    &&& a.take(i) == b.take(i)
    &&& i == a.len() || i == b.len() || a[i] != b[i]
}

/// The record is as the store keeps records: without publisher and expiry.
pub open spec fn is_plain(record: Record) -> bool {
    record.publisher is None && record.expires is None
}

/// What a look-up of `key` may yield: the record of the key, or nothing. A key
/// that the store does not hold yields nothing.
pub open spec fn get_yields(
    contents: Map<Seq<u8>, Seq<u8>>,
    key: Seq<u8>,
    found: Option<Record>,
) -> bool {
    found matches Some(record) ==> {
        &&& contents.contains_key(key)
        &&& record.key@ == key
        &&& record.value@ == contents[key]
        &&& is_plain(record)
    }
}

/// What a put of `record` may come to. If it fails, which counts as a value
/// that is too large, the value is stored or it is not.
pub open spec fn put_yields(
    contents: Map<Seq<u8>, Seq<u8>>,
    record: Record,
    put: Result<(), StoreError>,
    after: Map<Seq<u8>, Seq<u8>>,
) -> bool {
    match put {
        Ok(()) => after == contents.insert(record.key@, record.value@),
        Err(error) => {
            &&& error == StoreError::ValueTooLarge
            &&& after == contents || after == contents.insert(record.key@, record.value@)
        },
    }
}

/// What a deletion may come to. If it is not carried out, the key is gone or
/// it is not.
pub open spec fn remove_yields(
    contents: Map<Seq<u8>, Seq<u8>>,
    key: Seq<u8>,
    removed: bool,
    after: Map<Seq<u8>, Seq<u8>>,
) -> bool {
    after == contents.remove(key) || (!removed && after == contents)
}

/// `listed` holds the pairs of `contents`, each of them once, in the order of
/// their keys.
pub open spec fn lists(
    contents: Map<Seq<u8>, Seq<u8>>,
    listed: Seq<(Seq<u8>, Seq<u8>)>,
) -> bool {
    &&& forall|r: int|
        0 <= r < listed.len() ==> contents.contains_key((#[trigger] listed[r]).0)
            && contents[listed[r].0] == listed[r].1
    &&& forall|r: int, s: int|
        0 <= r < s < listed.len() ==> key_before(
            (#[trigger] listed[r]).0,
            (#[trigger] listed[s]).0,
        )
    &&& forall|key: Seq<u8>| #[trigger]
        contents.contains_key(key) ==> listed.contains((key, contents[key]))
}

/// The pairs of `contents` in the order of their keys.
pub open spec fn listing(contents: Map<Seq<u8>, Seq<u8>>) -> Seq<(Seq<u8>, Seq<u8>)> {
    choose|listed: Seq<(Seq<u8>, Seq<u8>)>| lists(contents, listed)
}

/// The record that a look-up of `key` stands for, if it found a value.
pub fn found_record(key: &[u8], lookup: Result<Option<Vec<u8>>, sled::Error>) -> (found: Option<
    Record,
>)
    ensures
        found is Some <==> lookup is Ok && lookup->Ok_0 is Some,
        found matches Some(record) ==> record.key@ == key@ && lookup->Ok_0 == Some(record.value)
            && is_plain(record),
{
    if let Ok(Some(value)) = lookup {
        Some(Record { key: slice_to_vec(key), value, publisher: None, expires: None })
    } else {
        None
    }
}

/// What a flush comes to: it succeeds, or it fails for the reason that the
/// database gives.
pub fn flush_outcome(flushed: Result<usize, sled::Error>) -> (outcome: Result<(), sled::Error>)
    ensures
        match flushed {
            Ok(_) => outcome is Ok,
            Err(error) => outcome matches Err(cause) && cause == error,
        },
{
    match flushed {
        Ok(_) => Ok(()),
        Err(error) => Err(error),
    }
}

/// How a put answers: whatever went wrong in the database counts as a value
/// that is too large.
pub fn put_outcome(stored: Result<(), sled::Error>) -> (put: Result<(), StoreError>)
    ensures
        match stored {
            Ok(()) => put is Ok,
            Err(_) => put matches Err(error) && error == StoreError::ValueTooLarge,
        },
{
    match stored {
        Ok(()) => Ok(()),
        Err(_) => Err(StoreError::ValueTooLarge),
    }
}

/// What a deletion comes to: it was carried out if the database reports no
/// error, whether or not there was a value to delete.
pub fn remove_outcome(removed: Result<Option<Vec<u8>>, sled::Error>) -> (carried_out: bool)
    ensures
        carried_out == (removed is Ok),
{
    match removed {
        Ok(_) => true,
        Err(_) => false,
    }
}

/// What a step through the records comes to: a record, `Some(None)` where the
/// database could not be read, and `None` at the end.
pub fn scanned_record(item: Option<Result<(Vec<u8>, Vec<u8>), sled::Error>>) -> (step: Option<
    Option<Record>,
>)
    ensures
        match item {
            Some(Ok((key, value))) => step matches Some(Some(record)) && record.key == key
                && record.value == value && is_plain(record),
            Some(Err(_)) => step matches Some(None),
            None => step is None,
        },
{
    match item {
        Some(Ok((key, value))) => Some(
            Some(Record { key, value, publisher: None, expires: None }),
        ),
        Some(Err(_)) => Some(None),
        None => None,
    }
}

/// A walk through the records of a store. While it lasts, the store cannot be
/// written to.
pub struct Records<'a> {
    store: &'a SimpleSledStore,
    cursor: Cursor,
}

impl<'a> Records<'a> {
    /// The keys and values that are still to come.
    pub closed spec fn view(&self) -> Seq<(Seq<u8>, Seq<u8>)> {
        rest(self.cursor)
    }

    /// The walk goes through the store that it holds.
    pub closed spec fn well_formed(&self) -> bool {
        walks(self.cursor, self.store.db)
    }

    /// The database answered `item` to a step of the walk.
    pub closed spec fn stepped(
        before: Self,
        item: Option<Result<(Vec<u8>, Vec<u8>), sled::Error>>,
    ) -> bool {
        exists|cursor: &mut Cursor|
            *cursor == before.cursor && #[trigger] call_ensures(
                db_next,
                (&before.store.db, cursor),
                item,
            )
    }

    /// Takes a step: the next record, or `None` at the end. Where the database
    /// cannot be read, the step comes to `Some(None)` and leaves the walk where
    /// it is, so that no record is lost.
    pub fn next(&mut self) -> (step: Option<Option<Record>>)
        requires
            old(self).well_formed(),
        ensures
            final(self).well_formed(),
            match step {
                Some(Some(record)) => {
                    &&& old(self)@.len() > 0
                    &&& old(self)@[0] == (record.key@, record.value@)
                    &&& is_plain(record)
                    &&& final(self)@ == old(self)@.skip(1)
                },
                Some(None) => {
                    &&& final(self)@ == old(self)@
                    &&& exists|error: sled::Error| #[trigger]
                        Self::stepped(*old(self), Some(Err(error)))
                },
                None => old(self)@.len() == 0 && final(self)@ == old(self)@,
            },
    {
        let item = db_next(&self.store.db, &mut self.cursor);
        proof {
            assert(Self::stepped(*old(self), item));
            if item is Some && item->Some_0 is Err {
                assert(Self::stepped(*old(self), Some(Err(item->Some_0->Err_0))));
            }
        }
        scanned_record(item)
    }
}

impl SimpleSledStore {
    /// The keys and values in the store.
    pub closed spec fn view(&self) -> Map<Seq<u8>, Seq<u8>> {
        db_contents(self.db)
    }

    /// The path of the store on disk.
    pub closed spec fn path(&self) -> Seq<char> {
        db_path(self.db)
    }

    /// All that was written so far is sure to survive a crash.
    pub closed spec fn flushed(&self) -> bool {
        db_flushed(self.db)
    }

    /// The database answered `answer` to the opening of `path`.
    pub closed spec fn opening(path: &str, answer: Result<sled::Db, sled::Error>) -> bool {
        call_ensures(db_open, (path,), answer)
    }

    /// The database answered `answer` to the read of `key`.
    pub closed spec fn read(
        &self,
        key: &[u8],
        answer: Result<Option<Vec<u8>>, sled::Error>,
    ) -> bool {
        call_ensures(db_get, (&self.db, key), answer)
    }

    /// The database answered `answer` to the write of `record`.
    pub closed spec fn wrote(
        before: Self,
        record: Record,
        answer: Result<Option<Vec<u8>>, sled::Error>,
    ) -> bool {
        exists|db: &mut sled::Db, key: &[u8]|
            *db == before.db && key@ == record.key@ && #[trigger] call_ensures(
                db_insert,
                (db, key, record.value),
                answer,
            )
    }

    /// The database answered `answer` to a flush.
    pub closed spec fn flush(before: Self, answer: Result<usize, sled::Error>) -> bool {
        exists|db: &mut sled::Db|
            *db == before.db && #[trigger] call_ensures(db_flush, (db,), answer)
    }

    /// The database answered `answer` to the deletion of `key`.
    pub closed spec fn deleted(
        before: Self,
        key: &[u8],
        answer: Result<Option<Vec<u8>>, sled::Error>,
    ) -> bool {
        exists|db: &mut sled::Db|
            *db == before.db && #[trigger] call_ensures(db_remove, (db, key), answer)
    }

    /// The put of `record` failed in the database for this cause: the write did,
    /// or the flush behind it.
    pub open spec fn put_failed(before: Self, record: Record, cause: sled::Error) -> bool {
        ||| Self::wrote(before, record, Err(cause))
        ||| exists|last: Option<Vec<u8>>, written: Self| #[trigger]
            Self::wrote(before, record, Ok(last)) && #[trigger] Self::flush(written, Err(cause))
                && written@ == before@.insert(record.key@, record.value@)
    }

    /// Opens the store at `path`, or makes one there. Fails if the database
    /// cannot be opened.
    pub fn new(path: &str) -> (opened: Result<Self, sled::Error>)
        ensures
            opened matches Ok(store) ==> store.path() == path@,
            opened matches Err(error) ==> Self::opening(path, Err(error)),
    {
        Self::on_opened(db_open(path))
    }

    /// The store on the database that was opened, or the reason why none was.
    /// Not public: the database must have no other handle.
    fn on_opened(opened: Result<sled::Db, sled::Error>) -> (store: Result<Self, sled::Error>)
        ensures
            match opened {
                Ok(db) => store matches Ok(store) && store.db == db,
                Err(error) => store matches Err(reason) && reason == error,
            },
    {
        match opened {
            Ok(db) => Ok(SimpleSledStore { db }),
            Err(error) => Err(error),
        }
    }

    /// The record of `key`. `None` only if the store has none, or the database
    /// reports an error for the read of this key.
    pub fn get(&self, key: &[u8]) -> (found: Option<Record>)
        ensures
            get_yields(self@, key@, found),
            found is None ==> !self@.contains_key(key@) || exists|error: sled::Error| #[trigger]
                self.read(key, Err(error)),
    {
        let answer = db_get(&self.db, key);
        proof {
            assert(self.read(key, answer));
            if answer is Err {
                assert(self.read(key, Err(answer->Err_0)));
            }
        }
        found_record(key, answer)
    }

    /// Stores the value of `record` under its key and writes it to disk, so
    /// that it survives a crash. If that fails, the value is stored or it is
    /// not; either way no other key is touched.
    pub fn put(&mut self, record: Record) -> (put: Result<(), StoreError>)
        ensures
            final(self).path() == old(self).path(),
            put_yields(old(self)@, record, put, final(self)@),
            put is Ok ==> final(self).flushed(),
            put is Err ==> exists|cause: sled::Error| #[trigger]
                Self::put_failed(*old(self), record, cause),
    {
        put_outcome(self.try_put(record))
    }

    /// Stores a record as `put` does, and hands out what went wrong in the
    /// database.
    pub fn try_put(&mut self, record: Record) -> (stored: Result<(), sled::Error>)
        ensures
            final(self).path() == old(self).path(),
            match stored {
                Ok(()) => {
                    &&& final(self)@ == old(self)@.insert(record.key@, record.value@)
                    &&& final(self).flushed()
                },
                Err(cause) => {
                    &&& final(self)@ == old(self)@ || final(self)@ == old(self)@.insert(
                        record.key@,
                        record.value@,
                    )
                    &&& Self::put_failed(*old(self), record, cause)
                },
            },
    {
        let inserted = db_insert(&mut self.db, record.key.as_slice(), record.value);
        assert(Self::wrote(*old(self), record, inserted));
        self.finish_put(inserted)
    }

    /// The second half of a put, behind the write. If the write failed, that is
    /// the answer, and nothing is done. Otherwise what was written stays, and is
    /// flushed; if that fails, that is the answer.
    pub fn finish_put(&mut self, inserted: Result<Option<Vec<u8>>, sled::Error>) -> (stored: Result<
        (),
        sled::Error,
    >)
        ensures
            match inserted {
                Ok(_) => {
                    &&& final(self).path() == old(self).path()
                    &&& final(self)@ == old(self)@
                    &&& stored is Ok ==> final(self).flushed()
                    &&& stored matches Err(cause) ==> Self::flush(*old(self), Err(cause))
                },
                Err(error) => {
                    &&& *final(self) == *old(self)
                    &&& stored matches Err(cause)
                    &&& cause == error
                },
            },
    {
        match inserted {
            Ok(_) => flush_outcome(db_flush(&mut self.db)),
            Err(error) => Err(error),
        }
    }

    /// Deletes the record of `key`. Returns whether the database carried that
    /// out; if it did not, the record is gone or it is not.
    pub fn remove(&mut self, key: &[u8]) -> (removed: bool)
        ensures
            final(self).path() == old(self).path(),
            remove_yields(old(self)@, key@, removed, final(self)@),
            !removed ==> exists|error: sled::Error| #[trigger]
                Self::deleted(*old(self), key, Err(error)),
    {
        let answer = db_remove(&mut self.db, key);
        proof {
            assert(Self::deleted(*old(self), key, answer));
            if answer is Err {
                assert(Self::deleted(*old(self), key, Err(answer->Err_0)));
            }
        }
        remove_outcome(answer)
    }

    /// A walk through the records in the store, all of them, in the order of
    /// their keys. Each is read only when the walk comes to it.
    pub fn records<'a>(&'a self) -> (records: Records<'a>)
        ensures
            records.well_formed(),
            lists(self@, records@),
            records@ == listing(self@),
    {
        let cursor = db_iter(&self.db);
        proof {
            lemma_listing_is_unique(self@, rest(cursor));
        }
        Records { store: self, cursor }
    }

    /// The report on the store at `path`: its first lines, and a walk through
    /// the others, for which the records are read one by one.
    pub fn describe_contents<'a>(&'a self, path: &str) -> (report: (
        Vec<String>,
        ContentsReport<'a>,
    ))
        ensures
            texts(report.0@) == report_head(path@),
            report.1@ == lines_from(0, listing(self@)),
            report.1.well_formed(),
            report.1.reported() == 0,
    {
        (head_lines(path), ContentsReport { records: self.records(), count: 0, done: false })
    }

    /// Provider records are accepted and not kept.
    pub fn add_provider(&mut self, record: ProviderRecord) -> (added: Result<(), StoreError>)
        ensures
            added is Ok,
            *final(self) == *old(self),
    {
        Ok(())
    }

    /// No providers are known of any key.
    pub fn providers(&self, key: &[u8]) -> (providers: Vec<ProviderRecord>)
        ensures
            providers@.len() == 0,
    {
        Vec::new()
    }

    /// The local node provides nothing.
    pub fn provided(&self) -> (provided: Vec<ProviderRecord>)
        ensures
            provided@.len() == 0,
    {
        Vec::new()
    }

    /// There is no provider record to remove.
    pub fn remove_provider(&mut self, key: &[u8], provider: &PeerId)
        ensures
            *final(self) == *old(self),
    {
    }
}

/// The first lines of the report on the database at `path`.
pub open spec fn report_head(path: Seq<char>) -> Seq<Seq<char>> {
    seq!["Attempting to open database at: "@ + path, "--- DHT Database Contents ---"@]
}

/// The lines on the record with this number.
pub open spec fn record_lines(number: nat, pair: (Seq<u8>, Seq<u8>)) -> Seq<Seq<char>> {
    seq![
        "[Record "@ + decimal(number) + "]"@,
        "  Raw Key  : "@ + lossy_text(pair.0),
        "  Value    : "@ + lossy_text(pair.1),
    ]
}

/// The last line of the report on a database with `count` records.
pub open spec fn report_end(count: nat) -> Seq<char> {
    "--- End of Database ("@ + decimal(count) + " records) ---"@
}

/// The lines of the report that follow when `count` records have been reported
/// and `listed` are still to come.
pub open spec fn lines_from(count: nat, listed: Seq<(Seq<u8>, Seq<u8>)>) -> Seq<Seq<char>>
    decreases listed.len(),
{
    if listed.len() == 0 {
        seq![report_end(count)]
    } else {
        record_lines(count + 1, listed[0]) + lines_from(count + 1, listed.skip(1))
    }
}

/// The first lines of the report on the database at `path`.
pub fn head_lines(path: &str) -> (lines: Vec<String>)
    ensures
        texts(lines@) == report_head(path@),
{
    let mut lines: Vec<String> = Vec::new();
    lines.push("Attempting to open database at: ".to_owned().concat(path));
    lines.push("--- DHT Database Contents ---".to_owned());
    assert(texts(lines@) =~= report_head(path@));
    lines
}

/// The lines that a step through the records adds to the report, when `count`
/// records have been reported before: those on the record, none where the
/// database could not be read, and the last line at the end.
pub fn step_lines(count: usize, step: &Option<Option<Record>>) -> (lines: Vec<String>)
    requires
        count < usize::MAX,
    ensures
        texts(lines@) == match *step {
            Some(Some(record)) => record_lines((count + 1) as nat, (record.key@, record.value@)),
            Some(None) => Seq::empty(),
            None => seq![report_end(count as nat)],
        },
{
    let mut lines: Vec<String> = Vec::new();
    match step {
        Some(Some(record)) => {
            let number: String = decimal_text(count + 1);
            lines.push("[Record ".to_owned().concat(number.as_str()).concat("]"));
            let key: String = text_of_bytes(record.key.as_slice());
            lines.push("  Raw Key  : ".to_owned().concat(key.as_str()));
            let value: String = text_of_bytes(record.value.as_slice());
            lines.push("  Value    : ".to_owned().concat(value.as_str()));
            assert(texts(lines@) =~= record_lines(
                (count + 1) as nat,
                (record.key@, record.value@),
            ));
        },
        Some(None) => {
            assert(texts(lines@) =~= Seq::empty());
        },
        None => {
            let number: String = decimal_text(count);
            lines.push(
                "--- End of Database (".to_owned().concat(number.as_str()).concat(" records) ---"),
            );
            assert(texts(lines@) =~= seq![report_end(count as nat)]);
        },
    }
    lines
}

/// A walk through the report on a store, behind its first lines.
pub struct ContentsReport<'a> {
    records: Records<'a>,
    count: usize,
    done: bool,
}

impl<'a> ContentsReport<'a> {
    /// The lines that are still to come.
    pub closed spec fn view(&self) -> Seq<Seq<char>> {
        if self.done {
            Seq::empty()
        } else {
            lines_from(self.count as nat, self.records@)
        }
    }

    /// The walk goes through the records of a store.
    pub closed spec fn well_formed(&self) -> bool {
        self.records.well_formed()
    }

    /// The database reported an error to a step of the walk.
    pub closed spec fn unreadable(before: Self) -> bool {
        exists|error: sled::Error| #[trigger]
            Records::stepped(before.records, Some(Err(error)))
    }

    /// How many records have been reported.
    pub closed spec fn reported(&self) -> usize {
        self.count
    }

    /// How many records have been reported.
    pub fn count(&self) -> (count: usize)
        ensures
            count == self.reported(),
    {
        self.count
    }

    /// The next lines: those on one record, or the last line. `None` behind the
    /// last line, and only there. Where the database cannot be read there are no
    /// lines, and the walk stays where it is.
    pub fn next(&mut self) -> (lines: Option<Vec<String>>)
        requires
            old(self).well_formed(),
            old(self).reported() < usize::MAX,
        ensures
            final(self).well_formed(),
            match lines {
                Some(lines) => {
                    &&& old(self)@.len() > 0
                    &&& old(self)@ == texts(lines@) + final(self)@
                    &&& final(self).reported() == old(self).reported() + lines@.len() / 3
                    &&& lines@.len() == 0 || lines@.len() == 3 || final(self)@.len() == 0
                    &&& lines@.len() == 0 ==> Self::unreadable(*old(self))
                },
                None => {
                    &&& old(self)@.len() == 0
                    &&& *final(self) == *old(self)
                },
            },
    {
        if self.done {
            return None;
        }
        let step = self.records.next();
        let lines = step_lines(self.count, &step);
        assert(texts(lines@).len() == lines@.len());
        match step {
            Some(Some(_)) => {
                self.count = self.count + 1;
            },
            Some(None) => {},
            None => {
                self.done = true;
            },
        }
        proof {
            assert(old(self)@ =~= texts(lines@) + self@);
        }
        Some(lines)
    }
}

/// A look-up yields what was put under the key last, if it yields anything.
pub proof fn lemma_get_yields_put(
    contents: Map<Seq<u8>, Seq<u8>>,
    put: Record,
    after: Map<Seq<u8>, Seq<u8>>,
    found: Option<Record>,
)
    requires
        put_yields(contents, put, Ok(()), after),
        get_yields(after, put.key@, found),
    ensures
        after.contains_key(put.key@),
        after[put.key@] == put.value@,
        found matches Some(record) ==> record.key@ == put.key@ && record.value@ == put.value@
            && record.publisher is None && record.expires is None,
{
}

/// A look-up of a deleted key yields nothing.
pub proof fn lemma_get_yields_no_removed(
    contents: Map<Seq<u8>, Seq<u8>>,
    key: Seq<u8>,
    after: Map<Seq<u8>, Seq<u8>>,
    found: Option<Record>,
)
    requires
        remove_yields(contents, key, true, after),
        get_yields(after, key, found),
    ensures
        !after.contains_key(key),
        found is None,
{
}

/// A record that was put is found, with its key and its value, whenever the
/// database reports no error for the read of the key; of any other key is found
/// what was there before.
pub proof fn lemma_readable_record_is_found(
    store: SimpleSledStore,
    contents: Map<Seq<u8>, Seq<u8>>,
    put: Record,
    key: &[u8],
    found: Option<Record>,
)
    requires
        put_yields(contents, put, Ok(()), store@),
        get_yields(store@, key@, found),
        found is None ==> !store@.contains_key(key@) || exists|error: sled::Error| #[trigger]
            store.read(key, Err(error)),
        !exists|error: sled::Error| #[trigger] store.read(key, Err(error)),
    ensures
        key@ == put.key@ ==> (found matches Some(record) && record.key@ == put.key@
            && record.value@ == put.value@),
        key@ != put.key@ ==> (found is Some <==> contents.contains_key(key@)),
        key@ != put.key@ ==> (found matches Some(record) ==> record.key@ == key@ && record.value@
            == contents[key@]),
{
}

/// What a put that fails leaves behind: everything as it was, or the value
/// stored. It answers that the value is too large.
pub proof fn lemma_failed_put(
    contents: Map<Seq<u8>, Seq<u8>>,
    record: Record,
    error: StoreError,
    after: Map<Seq<u8>, Seq<u8>>,
)
    requires
        put_yields(contents, record, Err(error), after),
    ensures
        error is ValueTooLarge,
        after.contains_key(record.key@) ==> after[record.key@] == record.value@ || (
        contents.contains_key(record.key@) && after[record.key@] == contents[record.key@]),
        contents.contains_key(record.key@) ==> after.contains_key(record.key@),
{
}

/// The answers that the contracts of the store speak of are those that the
/// database gives to the calls of the store, and no others.
proof fn lemma_answers_are_the_databases(
    store: SimpleSledStore,
    key: &[u8],
    record: Record,
    value: Result<Option<Vec<u8>>, sled::Error>,
    flushed: Result<usize, sled::Error>,
)
    ensures
        store.read(key, value) ==> call_ensures(db_get, (&store.db, key), value),
        SimpleSledStore::wrote(store, record, value) ==> exists|db: &mut sled::Db, k: &[u8]|
            *db == store.db && k@ == record.key@ && #[trigger] call_ensures(
                db_insert,
                (db, k, record.value),
                value,
            ),
        SimpleSledStore::flush(store, flushed) ==> exists|db: &mut sled::Db|
            *db == store.db && #[trigger] call_ensures(db_flush, (db,), flushed),
        SimpleSledStore::deleted(store, key, value) ==> exists|db: &mut sled::Db|
            *db == store.db && #[trigger] call_ensures(db_remove, (db, key), value),
{
}

/// A put fails only in the database: at its write, or at the flush of what was
/// written.
pub proof fn lemma_put_fails_in_the_database(
    before: SimpleSledStore,
    record: Record,
    cause: sled::Error,
)
    requires
        SimpleSledStore::put_failed(before, record, cause),
        !SimpleSledStore::wrote(before, record, Err(cause)),
    ensures
        exists|last: Option<Vec<u8>>, written: SimpleSledStore| #[trigger]
            SimpleSledStore::wrote(before, record, Ok(last)) && #[trigger] SimpleSledStore::flush(
                written,
                Err(cause),
            ) && written@ == before@.insert(record.key@, record.value@),
{
}

/// The same of opening a store, and of a walk through its records.
proof fn lemma_steps_are_the_databases(
    path: &str,
    opened: Result<sled::Db, sled::Error>,
    records: Records<'_>,
    item: Option<Result<(Vec<u8>, Vec<u8>), sled::Error>>,
    report: ContentsReport<'_>,
)
    ensures
        SimpleSledStore::opening(path, opened) ==> call_ensures(db_open, (path,), opened),
        Records::stepped(records, item) ==> exists|cursor: &mut Cursor|
            *cursor == records.cursor && #[trigger] call_ensures(
                db_next,
                (&records.store.db, cursor),
                item,
            ),
        ContentsReport::unreadable(report) ==> exists|error: sled::Error| #[trigger]
            Records::stepped(report.records, Some(Err(error))),
{
}

/// A put, whatever it comes to, leaves every other key alone.
pub proof fn lemma_put_spares_other_keys(
    contents: Map<Seq<u8>, Seq<u8>>,
    record: Record,
    put: Result<(), StoreError>,
    after: Map<Seq<u8>, Seq<u8>>,
    other: Seq<u8>,
)
    requires
        put_yields(contents, record, put, after),
        other != record.key@,
    ensures
        after.contains_key(other) == contents.contains_key(other),
        contents.contains_key(other) ==> after[other] == contents[other],
{
}

/// Publisher and expiry of a record influence nothing: puts of two records that
/// agree in key and value may come to the same.
pub proof fn lemma_put_ignores_publisher_and_expiry(
    contents: Map<Seq<u8>, Seq<u8>>,
    a: Record,
    b: Record,
    put: Result<(), StoreError>,
    after: Map<Seq<u8>, Seq<u8>>,
)
    requires
        a.key@ == b.key@,
        a.value@ == b.value@,
    ensures
        put_yields(contents, a, put, after) == put_yields(contents, b, put, after),
{
}

/// A deletion, whatever it comes to, leaves every other key alone.
pub proof fn lemma_remove_spares_other_keys(
    contents: Map<Seq<u8>, Seq<u8>>,
    key: Seq<u8>,
    removed: bool,
    after: Map<Seq<u8>, Seq<u8>>,
    other: Seq<u8>,
)
    requires
        remove_yields(contents, key, removed, after),
        other != key,
    ensures
        after.contains_key(other) == contents.contains_key(other),
        contents.contains_key(other) ==> after[other] == contents[other],
{
}

/// Of two keys, not each comes before the other; so no key comes before itself.
pub proof fn lemma_key_order_is_strict(a: Seq<u8>, b: Seq<u8>)
    requires
        key_before(a, b),
    ensures
        !key_before(b, a),
        a != b,
{
    let i = choose|i: int|
        differ_first_at(a, b, i) && i < b.len() && (i == a.len() || a[i] < b[i]);
    assert forall|j: int| differ_first_at(b, a, j) && j < a.len() && (j == b.len() || b[j] < a[j])
        implies false by {
        if j < i {
            assert(a.take(i)[j] == b.take(i)[j]);
        } else if i < j {
            assert(b.take(j)[i] == a.take(j)[i]);
        }
    }
}

/// Keys are ordered byte by byte: where two keys first differ, the smaller byte
/// comes first, and a key comes before every longer one that begins with it.
pub proof fn lemma_key_order_goes_by_bytes(
    common: Seq<u8>,
    x: u8,
    y: u8,
    rest_x: Seq<u8>,
    rest_y: Seq<u8>,
)
    ensures
        x < y ==> key_before(common.push(x) + rest_x, common.push(y) + rest_y),
        key_before(common, common.push(x) + rest_x),
{
    let a = common.push(x) + rest_x;
    let b = common.push(y) + rest_y;
    let n = common.len() as int;
    assert(a.take(n) =~= common && b.take(n) =~= common && common.take(n) =~= common);
    if x < y {
        assert(differ_first_at(a, b, n));
    }
    assert(differ_first_at(common, a, n));
}

/// There is only one list of a store's records: they are listed in the order of
/// their keys, none twice, and none is left out.
pub proof fn lemma_listing_is_unique(
    contents: Map<Seq<u8>, Seq<u8>>,
    listed: Seq<(Seq<u8>, Seq<u8>)>,
)
    requires
        lists(contents, listed),
    ensures
        listing(contents) == listed,
        lists(contents, listing(contents)),
{
    lemma_same_lists(contents, listed, listing(contents));
}

proof fn lemma_same_lists(
    contents: Map<Seq<u8>, Seq<u8>>,
    a: Seq<(Seq<u8>, Seq<u8>)>,
    b: Seq<(Seq<u8>, Seq<u8>)>,
)
    requires
        lists(contents, a),
        lists(contents, b),
    ensures
        a == b,
    decreases a.len(),
{
    if a.len() == 0 {
        if b.len() > 0 {
            assert(contents.contains_key(b[0].0));
            assert(a.contains((b[0].0, contents[b[0].0])));
        }
        assert(a =~= b);
    } else {
        assert(contents.contains_key(a[0].0));
        assert(b.contains((a[0].0, contents[a[0].0])));
        let j = choose|j: int| 0 <= j < b.len() && b[j] == a[0];
        assert(contents.contains_key(b[0].0));
        assert(a.contains((b[0].0, contents[b[0].0])));
        let i = choose|i: int| 0 <= i < a.len() && a[i] == b[0];
        if i > 0 && j > 0 {
            assert(key_before(a[0].0, a[i].0));
            assert(key_before(b[0].0, b[j].0));
            lemma_key_order_is_strict(a[0].0, a[i].0);
        }
        assert(a[0] == b[0]);
        let rest = contents.remove(a[0].0);
        lemma_rest_is_listed(contents, a);
        lemma_rest_is_listed(contents, b);
        lemma_same_lists(rest, a.skip(1), b.skip(1));
        assert(a =~= seq![a[0]] + a.skip(1));
        assert(b =~= seq![b[0]] + b.skip(1));
    }
}

proof fn lemma_rest_is_listed(
    contents: Map<Seq<u8>, Seq<u8>>,
    listed: Seq<(Seq<u8>, Seq<u8>)>,
)
    requires
        lists(contents, listed),
        listed.len() > 0,
    ensures
        lists(contents.remove(listed[0].0), listed.skip(1)),
{
    let first = listed[0].0;
    let rest = listed.skip(1);
    assert forall|r: int| 0 <= r < rest.len() implies contents.remove(first).contains_key(
        (#[trigger] rest[r]).0,
    ) && contents.remove(first)[rest[r].0] == rest[r].1 by {
        assert(rest[r] == listed[r + 1]);
        assert(key_before(listed[0].0, listed[r + 1].0));
        lemma_key_order_is_strict(listed[0].0, listed[r + 1].0);
    }
    assert forall|r: int, s: int| 0 <= r < s < rest.len() implies key_before(
        (#[trigger] rest[r]).0,
        (#[trigger] rest[s]).0,
    ) by {
        assert(rest[r] == listed[r + 1] && rest[s] == listed[s + 1]);
    }
    assert forall|key: Seq<u8>| #[trigger]
        contents.remove(first).contains_key(key) implies rest.contains(
        (key, contents.remove(first)[key]),
    ) by {
        assert(contents.contains_key(key));
        let r = choose|r: int| 0 <= r < listed.len() && listed[r] == (key, contents[key]);
        assert(rest[r - 1] == listed[r]);
    }
}

/// What the report on a database with the pairs `listed` says: the first lines,
/// three lines on each record, numbered from one, and the number of records.
pub proof fn lemma_report(path: Seq<char>, listed: Seq<(Seq<u8>, Seq<u8>)>, r: int)
    ensures
        (report_head(path) + lines_from(0, listed)).len() == 3 + 3 * listed.len(),
        (report_head(path) + lines_from(0, listed)).take(2) == report_head(path),
        report_head(path)[0] == "Attempting to open database at: "@ + path,
        report_head(path)[1] == "--- DHT Database Contents ---"@,
        0 <= r < listed.len() ==> {
            let lines = report_head(path) + lines_from(0, listed);
            &&& lines[2 + 3 * r] == "[Record "@ + decimal((r + 1) as nat) + "]"@
            &&& lines[3 + 3 * r] == "  Raw Key  : "@ + lossy_text(listed[r].0)
            &&& lines[4 + 3 * r] == "  Value    : "@ + lossy_text(listed[r].1)
        },
        (report_head(path) + lines_from(0, listed)).last() == "--- End of Database ("@ + decimal(
            listed.len(),
        ) + " records) ---"@,
        0 <= r < listed.len() ==> (report_head(path) + lines_from(0, listed)).subrange(
            2 + 3 * r,
            5 + 3 * r,
        ) == record_lines((r + 1) as nat, listed[r]),
        (report_head(path) + lines_from(0, listed)).last() == report_end(listed.len()),
{
    let lines = lines_from(0, listed);
    lemma_lines_from(0, listed, r);
    assert((report_head(path) + lines).take(2) =~= report_head(path));
    if 0 <= r < listed.len() {
        assert((report_head(path) + lines).subrange(2 + 3 * r, 5 + 3 * r) =~= lines.subrange(
            3 * r,
            3 * r + 3,
        ));
        let block = (report_head(path) + lines).subrange(2 + 3 * r, 5 + 3 * r);
        assert(block[0] == (report_head(path) + lines)[2 + 3 * r]);
        assert(block[1] == (report_head(path) + lines)[3 + 3 * r]);
        assert(block[2] == (report_head(path) + lines)[4 + 3 * r]);
    }
}

proof fn lemma_lines_from(count: nat, listed: Seq<(Seq<u8>, Seq<u8>)>, r: int)
    ensures
        lines_from(count, listed).len() == 3 * listed.len() + 1,
        0 <= r < listed.len() ==> lines_from(count, listed).subrange(3 * r, 3 * r + 3)
            == record_lines((count + r + 1) as nat, listed[r]),
        lines_from(count, listed).last() == report_end(count + listed.len()),
    decreases listed.len(),
{
    if listed.len() > 0 {
        let after = listed.skip(1);
        lemma_lines_from(count + 1, after, r - 1);
        let lines = lines_from(count, listed);
        if r == 0 {
            assert(lines.subrange(0, 3) =~= record_lines(count + 1, listed[0]));
        } else if 0 < r < listed.len() {
            assert(lines.subrange(3 * r, 3 * r + 3) =~= lines_from(count + 1, after).subrange(
                3 * (r - 1),
                3 * (r - 1) + 3,
            ));
        }
    }
}

/// A pair is listed exactly if the store holds it.
pub proof fn lemma_listed_is_stored(
    contents: Map<Seq<u8>, Seq<u8>>,
    listed: Seq<(Seq<u8>, Seq<u8>)>,
    key: Seq<u8>,
    value: Seq<u8>,
)
    requires
        lists(contents, listed),
    ensures
        listed.contains((key, value)) <==> contents.contains_key(key) && contents[key] == value,
{
    if listed.contains((key, value)) {
        let r = choose|r: int| 0 <= r < listed.len() && listed[r] == (key, value);
        assert(listed[r].0 == key && listed[r].1 == value);
    }
}

/// A put that succeeds has its record listed, once, and no earlier one of the
/// key; what is listed of other keys stays as it was.
pub proof fn lemma_put_is_listed(
    contents: Map<Seq<u8>, Seq<u8>>,
    listed: Seq<(Seq<u8>, Seq<u8>)>,
    record: Record,
    after: Map<Seq<u8>, Seq<u8>>,
    listed_after: Seq<(Seq<u8>, Seq<u8>)>,
    key: Seq<u8>,
    value: Seq<u8>,
)
    requires
        lists(contents, listed),
        put_yields(contents, record, Ok(()), after),
        lists(after, listed_after),
    ensures
        listed_after.contains((key, value)) <==> if key == record.key@ {
            value == record.value@
        } else {
            listed.contains((key, value))
        },
        forall|r: int, s: int|
            0 <= r < s < listed_after.len() ==> (#[trigger] listed_after[r]).0 != (
            #[trigger] listed_after[s]).0,
{
    lemma_listed_is_stored(contents, listed, key, value);
    lemma_listed_is_stored(after, listed_after, key, value);
    assert forall|r: int, s: int| 0 <= r < s < listed_after.len() implies (
    #[trigger] listed_after[r]).0 != (#[trigger] listed_after[s]).0 by {
        lemma_key_order_is_strict(listed_after[r].0, listed_after[s].0);
    }
}

/// A deletion that was carried out takes the record of its key off the list, and
/// no other.
pub proof fn lemma_removed_is_not_listed(
    contents: Map<Seq<u8>, Seq<u8>>,
    listed: Seq<(Seq<u8>, Seq<u8>)>,
    removed: Seq<u8>,
    after: Map<Seq<u8>, Seq<u8>>,
    listed_after: Seq<(Seq<u8>, Seq<u8>)>,
    key: Seq<u8>,
    value: Seq<u8>,
)
    requires
        lists(contents, listed),
        remove_yields(contents, removed, true, after),
        lists(after, listed_after),
    ensures
        listed_after.contains((key, value)) <==> key != removed && listed.contains((key, value)),
{
    lemma_listed_is_stored(contents, listed, key, value);
    lemma_listed_is_stored(after, listed_after, key, value);
}

} // verus!

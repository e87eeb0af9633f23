//! The store: one table of repositories, one of metadata.
//!
//! The tables are opened in a transaction of the database. What is written to
//! a table is committed with the transaction that it was opened in.

use crate::repo::Repo;
use crate::text;
use redb::ReadableTable;
use redb::ReadableTableMetadata;
use vstd::hash_set::StringHashSet;
use vstd::prelude::*;

verus! {

// ---------------------------------------------------------------------------
// What is taken from redb
// ---------------------------------------------------------------------------
/// `redb::WriteTransaction`, in which tables are opened for writing.
#[verifier::external_type_specification]
#[verifier::external_body]
pub struct ExWriteTransaction(redb::WriteTransaction);

/// `redb::ReadTransaction`, in which tables are opened for reading.
#[verifier::external_type_specification]
#[verifier::external_body]
pub struct ExReadTransaction(redb::ReadTransaction);

/// `redb::TableError`, why a table cannot be opened.
#[verifier::external_type_specification]
#[verifier::external_body]
pub struct ExTableError(redb::TableError);

/// `redb::StorageError`, why a table cannot be read or written.
#[verifier::external_type_specification]
#[verifier::external_body]
pub struct ExStorageError(redb::StorageError);

/// A `redb::Table` from full names to records, open for writing.
#[verifier::external_body]
pub struct RepoTable<'txn> {
    table: redb::Table<'txn, &'static str, &'static [u8]>,
}

/// A `redb::Table` from keys to texts, open for writing.
#[verifier::external_body]
pub struct MetaTable<'txn> {
    table: redb::Table<'txn, &'static str, &'static str>,
}

/// A `redb::ReadOnlyTable` from full names to records, as it was when its
/// transaction began.
#[verifier::external_body]
pub struct RepoSnapshot {
    table: redb::ReadOnlyTable<&'static str, &'static [u8]>,
}

/// A `redb::ReadOnlyTable` from keys to texts, as it was when its transaction
/// began.
#[verifier::external_body]
pub struct MetaSnapshot {
    table: redb::ReadOnlyTable<&'static str, &'static str>,
}

/// What a table of repositories holds.
pub uninterp spec fn rows(t: RepoTable<'_>) -> Map<Seq<char>, Seq<u8>>;

/// What a table of metadata holds.
pub uninterp spec fn meta_rows(t: MetaTable<'_>) -> Map<Seq<char>, Seq<char>>;

/// Where a table of repositories was opened: in which transaction, under which
/// name.
pub uninterp spec fn repos_opened(t: RepoTable<'_>) -> (redb::WriteTransaction, Seq<char>);

/// Where a table of metadata was opened: in which transaction, under which name.
pub uninterp spec fn meta_opened(t: MetaTable<'_>) -> (redb::WriteTransaction, Seq<char>);

/// What a snapshot of the repositories holds.
pub uninterp spec fn snapshot_rows(t: RepoSnapshot) -> Map<Seq<char>, Seq<u8>>;

/// What a snapshot of the metadata holds.
pub uninterp spec fn snapshot_meta(t: MetaSnapshot) -> Map<Seq<char>, Seq<char>>;

/// The repositories in the database as it was when a transaction began; none
/// where there was no table of them.
pub uninterp spec fn repos_in(txn: redb::ReadTransaction) -> Map<Seq<char>, Seq<u8>>;

/// The metadata in the database as it was when a transaction began; none where
/// there was no table of them.
pub uninterp spec fn meta_in(txn: redb::ReadTransaction) -> Map<Seq<char>, Seq<char>>;

/// `redb::WriteTransaction::open_table` opens the table of repositories of the
/// given name in the transaction, which it creates where there is none. Nothing
/// is said of what it holds: that depends on what the transaction has written.
#[verifier::external_body]
fn open_repo_table<'txn>(txn: &'txn redb::WriteTransaction, name: &'static str) -> (r: Result<RepoTable<'txn>, redb::TableError>)
    requires
        name@ == REPOS@,
    ensures
        r is Ok ==> repos_opened(r->Ok_0) == (*txn, name@),
{
    Ok(RepoTable { table: txn.open_table(redb::TableDefinition::new(name))? })
}

/// `redb::WriteTransaction::open_table` opens the table of metadata of the given
/// name in the transaction, which it creates where there is none. Nothing is
/// said of what it holds: that depends on what the transaction has written.
#[verifier::external_body]
fn open_meta_table<'txn>(txn: &'txn redb::WriteTransaction, name: &'static str) -> (r: Result<MetaTable<'txn>, redb::TableError>)
    requires
        name@ == META@,
    ensures
        r is Ok ==> meta_opened(r->Ok_0) == (*txn, name@),
{
    Ok(MetaTable { table: txn.open_table(redb::TableDefinition::new(name))? })
}

/// `redb::ReadTransaction::open_table` opens the table of repositories as it
/// was when the transaction began; nothing where there was none.
#[verifier::external_body]
fn open_repo_snapshot(txn: &redb::ReadTransaction, name: &'static str) -> (r: Result<Option<RepoSnapshot>, redb::TableError>)
    requires
        name@ == REPOS@,
    ensures
        r is Ok ==> repos_in(*txn) == match r->Ok_0 {
            Some(t) => snapshot_rows(t),
            None => Map::empty(),
        },
{
    match txn.open_table(redb::TableDefinition::new(name)) {
        Ok(table) => Ok(Some(RepoSnapshot { table })),
        Err(redb::TableError::TableDoesNotExist(_)) => Ok(None),
        Err(e) => Err(e),
    }
}

/// `redb::ReadTransaction::open_table` opens the table of metadata as it was
/// when the transaction began; nothing where there was none.
#[verifier::external_body]
fn open_meta_snapshot(txn: &redb::ReadTransaction, name: &'static str) -> (r: Result<Option<MetaSnapshot>, redb::TableError>)
    requires
        name@ == META@,
    ensures
        r is Ok ==> meta_in(*txn) == match r->Ok_0 {
            Some(t) => snapshot_meta(t),
            None => Map::empty(),
        },
{
    match txn.open_table(redb::TableDefinition::new(name)) {
        Ok(table) => Ok(Some(MetaSnapshot { table })),
        Err(redb::TableError::TableDoesNotExist(_)) => Ok(None),
        Err(e) => Err(e),
    }
}

/// `redb::Table::insert` maps the key to the value, whatever it was mapped to
/// before. Where it fails, nothing is said of what the table holds.
#[verifier::external_body]
fn put_row(t: &mut RepoTable<'_>, key: &str, value: &Vec<u8>) -> (r: Result<(), redb::StorageError>)
    ensures
        r is Ok ==> rows(*final(t)) == rows(*old(t)).insert(key@, value@),
        repos_opened(*final(t)) == repos_opened(*old(t)),
{
    t.table.insert(key, value.as_slice())?;
    Ok(())
}

/// `redb::Table::insert` maps the key to the value, whatever it was mapped to
/// before. Where it fails, nothing is said of what the table holds.
#[verifier::external_body]
fn put_meta(t: &mut MetaTable<'_>, key: &str, value: &str) -> (r: Result<(), redb::StorageError>)
    ensures
        r is Ok ==> meta_rows(*final(t)) == meta_rows(*old(t)).insert(key@, value@),
        meta_opened(*final(t)) == meta_opened(*old(t)),
{
    t.table.insert(key, value)?;
    Ok(())
}

/// `redb::Table::remove` takes the key out. Where it fails, nothing is said of
/// what the table holds.
#[verifier::external_body]
fn remove_row(t: &mut RepoTable<'_>, key: &str) -> (r: Result<(), redb::StorageError>)
    ensures
        r is Ok ==> rows(*final(t)) == rows(*old(t)).remove(key@),
        repos_opened(*final(t)) == repos_opened(*old(t)),
{
    t.table.remove(key)?;
    Ok(())
}

/// `redb::ReadableTable::iter` walks a snapshot in the order of its keys, which
/// for `str` is that of `str::cmp`. Of every row the key is handed on, or why the
/// row cannot be read. The walk ends behind a row that cannot be read; which rows
/// those are is left open.
#[verifier::external_body]
fn snapshot_keys(t: &RepoSnapshot) -> (r: Result<Vec<Result<String, redb::StorageError>>, redb::StorageError>)
    ensures
        r is Ok ==> walked(snapshot_rows(*t), r->Ok_0@),
{
    Ok(t.table.iter()?.map(|row| row.map(|(k, _)| k.value().to_string())).collect())
}

/// `redb::ReadableTable::iter` walks a snapshot in the order of its keys, which
/// for `str` is that of `str::cmp`. Every key is handed on with its value.
#[verifier::external_body]
fn snapshot_records(t: &RepoSnapshot) -> (r: Result<Vec<Record>, redb::StorageError>)
    ensures
        r is Ok ==> keys_rise(record_names(r->Ok_0@)) && snapshot_rows(*t) == rows_with(Map::empty(), r->Ok_0@),
{
    t.table.iter()?.map(
        |row| row.map(|(k, v)| Record { full_name: k.value().to_string(), bytes: v.value().to_vec() }),
    ).collect()
}

/// `redb::ReadOnlyTable::get` gives the value of a key; nothing where the table
/// does not hold the key.
#[verifier::external_body]
fn snapshot_get(t: &RepoSnapshot, key: &str) -> (r: Result<Option<Vec<u8>>, redb::StorageError>)
    ensures
        r is Ok ==> bytes_view(r->Ok_0) == held(snapshot_rows(*t), key@),
{
    Ok(t.table.get(key)?.map(|v| v.value().to_vec()))
}

/// `redb::ReadOnlyTable::get` gives the value of a key; nothing where the table
/// does not hold the key.
#[verifier::external_body]
fn snapshot_get_meta(t: &MetaSnapshot, key: &str) -> (r: Result<Option<String>, redb::StorageError>)
    ensures
        r is Ok ==> text::opt_text(r->Ok_0) == held(snapshot_meta(*t), key@),
{
    Ok(t.table.get(key)?.map(|v| v.value().to_string()))
}

/// `redb::ReadableTableMetadata::len` counts the keys, of which there are
/// finitely many.
#[verifier::external_body]
fn snapshot_len(t: &RepoSnapshot) -> (r: Result<u64, redb::StorageError>)
    ensures
        r is Ok ==> snapshot_rows(*t).dom().finite() && r->Ok_0 == snapshot_rows(*t).dom().len(),
{
    t.table.len()
}

/// `chrono::Utc::now` reads the clock. What `to_rfc3339` writes for that instant
/// is handed on. Of every instant it writes the date, the letter `T`, the time of
/// day and `+00:00` for the zone; which instant it is, is left open.
#[verifier::external_body]
fn now() -> (time: String)
    ensures
        sync_stamp(time@),
{
    chrono::Utc::now().to_rfc3339()
}

// ---------------------------------------------------------------------------
// Records
// ---------------------------------------------------------------------------
/// The table from `owner/name` to the serialized repository.
pub const REPOS: &'static str = "repos";

/// The table from key to string metadata (last-sync timestamp, last-sync
/// count).
pub const META: &'static str = "meta";

/// A repository as it is stored: its full name and its serialized form.
#[derive(Debug, Clone, PartialEq)]
pub struct Record {
    pub full_name: String,
    pub bytes: Vec<u8>,
}

impl Record {
    /// The record of a repository with its serialized form: it is stored under
    /// the full name.
    pub fn new(repo: &Repo, bytes: Vec<u8>) -> (r: Record)
        ensures
            r.full_name@ == repo.full_name@,
            r.bytes == bytes,
    {
        Record { full_name: repo.full_name.clone(), bytes }
    }
}

/// Why the store cannot be read or written.
#[derive(Debug)]
pub enum StoreError {
    /// A table cannot be opened.
    Table(redb::TableError),
    /// A table cannot be read or written.
    Storage(redb::StorageError),
}

/// What a map holds for a key.
pub open spec fn held<V>(m: Map<Seq<char>, V>, k: Seq<char>) -> Option<V> {
    if m.contains_key(k) {
        Some(m[k])
    } else {
        None
    }
}

/// The view of optional bytes.
pub open spec fn bytes_view(b: Option<Vec<u8>>) -> Option<Seq<u8>> {
    match b {
        Some(v) => Some(v@),
        None => None,
    }
}

/// The full names of some records.
pub open spec fn record_names(records: Seq<Record>) -> Seq<Seq<char>> {
    records.map_values(|r: Record| r.full_name@)
}

/// Whether no key is there twice, and the keys stand in alphabetical order.
pub open spec fn keys_rise(keys: Seq<Seq<char>>) -> bool {
    forall|i: int, j: int| 0 <= i < j < keys.len() ==> #[trigger] keys[i] != #[trigger] keys[j] && text::text_le(keys[i], keys[j])
}

/// The rows once some records were put in, one after the other.
pub open spec fn rows_with(m: Map<Seq<char>, Seq<u8>>, records: Seq<Record>) -> Map<Seq<char>, Seq<u8>>
    decreases records.len(),
{
    if records.len() == 0 {
        m
    } else {
        rows_with(m, records.drop_last()).insert(records.last().full_name@, records.last().bytes@)
    }
}

/// The keys among the rows that were walked over, without those that cannot be
/// read.
pub open spec fn read_keys(walk: Seq<Result<String, redb::StorageError>>) -> Seq<Seq<char>>
    decreases walk.len(),
{
    if walk.len() == 0 {
        Seq::empty()
    } else {
        match walk.last() {
            Ok(key) => read_keys(walk.drop_last()).push(key@),
            Err(_) => read_keys(walk.drop_last()),
        }
    }
}

/// Whether every row that was walked over can be read.
pub open spec fn all_read(walk: Seq<Result<String, redb::StorageError>>) -> bool {
    forall|i: int| 0 <= i < walk.len() ==> (#[trigger] walk[i]) is Ok
}

/// Whether some rows can be those of a walk over a table: the keys stand in
/// alphabetical order, they are keys of the table, and where every row can be read
/// no key is missing.
pub open spec fn walked(m: Map<Seq<char>, Seq<u8>>, walk: Seq<Result<String, redb::StorageError>>) -> bool {
    let keys = read_keys(walk);
    &&& keys_rise(keys)
    &&& forall|k: Seq<char>| #[trigger] keys.contains(k) ==> m.contains_key(k)
    &&& all_read(walk) ==> forall|k: Seq<char>| m.contains_key(k) ==> #[trigger] keys.contains(k)
}

/// The keys that are not in `keep`.
pub open spec fn stale_keys(keys: Seq<Seq<char>>, keep: Set<Seq<char>>) -> Seq<Seq<char>>
    decreases keys.len(),
{
    if keys.len() == 0 {
        Seq::empty()
    } else if keep.contains(keys.last()) {
        stale_keys(keys.drop_last(), keep)
    } else {
        stale_keys(keys.drop_last(), keep).push(keys.last())
    }
}

/// The rows whose keys are in `keep`.
pub open spec fn rows_kept(m: Map<Seq<char>, Seq<u8>>, keep: Set<Seq<char>>) -> Map<Seq<char>, Seq<u8>> {
    m.restrict(keep)
}

/// Whether a text has the marks of a date and time at the offset of UTC: a `T`
/// between the date and the time, and the offset at the end.
pub open spec fn sync_stamp(s: Seq<char>) -> bool {
    s.contains('T') && s.len() >= 6 && s.skip(s.len() - 6) == seq!['+', '0', '0', ':', '0', '0']
}

/// The metadata once a sync of `n` repositories was recorded.
pub open spec fn synced(m: Map<Seq<char>, Seq<char>>, at: Seq<char>, n: nat) -> Map<Seq<char>, Seq<char>> {
    m.insert("last_sync"@, at).insert("last_sync_count"@, text::decimal(n))
}

// ---------------------------------------------------------------------------
// What becomes of the answers of the database
// ---------------------------------------------------------------------------
/// What comes of opening a table.
pub fn opened<T>(answer: Result<T, redb::TableError>) -> (r: Result<T, StoreError>)
    ensures
        r == (match answer {
            Ok(v) => Ok::<T, StoreError>(v),
            Err(e) => Err(StoreError::Table(e)),
        }),
{
    match answer {
        Ok(v) => Ok(v),
        Err(e) => Err(StoreError::Table(e)),
    }
}

/// What comes of reading or writing a table.
pub fn done<T>(answer: Result<T, redb::StorageError>) -> (r: Result<T, StoreError>)
    ensures
        r == (match answer {
            Ok(v) => Ok::<T, StoreError>(v),
            Err(e) => Err(StoreError::Storage(e)),
        }),
{
    match answer {
        Ok(v) => Ok(v),
        Err(e) => Err(StoreError::Storage(e)),
    }
}

/// What comes of opening a table and then reading it: what was read, or
/// `missing` where there is no table to read.
pub fn looked_up<T>(answer: Result<Option<Result<T, redb::StorageError>>, redb::TableError>, missing: T) -> (r: Result<T, StoreError>)
    ensures
        r == (match answer {
            Ok(Some(Ok(v))) => Ok::<T, StoreError>(v),
            Ok(Some(Err(e))) => Err(StoreError::Storage(e)),
            Ok(None) => Ok(missing),
            Err(e) => Err(StoreError::Table(e)),
        }),
{
    match opened(answer) {
        Ok(Some(read)) => done(read),
        Ok(None) => Ok(missing),
        Err(e) => Err(e),
    }
}

// ---------------------------------------------------------------------------
// Writing
// ---------------------------------------------------------------------------
impl<'txn> RepoTable<'txn> {
    /// Open the table [`REPOS`] in a transaction.
    pub fn open(txn: &'txn redb::WriteTransaction) -> (r: Result<RepoTable<'txn>, StoreError>)
        ensures
            match r {
                Ok(t) => repos_opened(t) == (*txn, REPOS@),
                Err(e) => e is Table,
            },
    {
        opened(open_repo_table(txn, REPOS))
    }
}

impl<'txn> MetaTable<'txn> {
    /// Open the table [`META`] in a transaction.
    pub fn open(txn: &'txn redb::WriteTransaction) -> (r: Result<MetaTable<'txn>, StoreError>)
        ensures
            match r {
                Ok(t) => meta_opened(t) == (*txn, META@),
                Err(e) => e is Table,
            },
    {
        opened(open_meta_table(txn, META))
    }
}

/// Put some repos in, one after the other, up to the first that the database
/// refuses.
fn put_all(table: &mut RepoTable<'_>, records: &Vec<Record>) -> (r: Result<(), redb::StorageError>)
    ensures
        r is Ok ==> rows(*final(table)) == rows_with(rows(*old(table)), records@),
        repos_opened(*final(table)) == repos_opened(*old(table)),
{
    let ghost before = rows(*table);
    let mut n: usize = 0;
    assert(records@.take(0) =~= Seq::<Record>::empty());
    while n < records.len()
        invariant
            n <= records@.len(),
            before == rows(*old(table)),
            rows(*table) == rows_with(before, records@.take(n as int)),
            repos_opened(*table) == repos_opened(*old(table)),
        decreases records@.len() - n,
    {
        assert(records@.take(n + 1).drop_last() =~= records@.take(n as int));
        put_row(table, records[n].full_name.as_str(), &records[n].bytes)?;
        n += 1;
    }
    assert(records@.take(records@.len() as int) =~= records@);
    Ok(())
}

/// Record the time and the count of a sync.
fn put_sync(meta: &mut MetaTable<'_>, at: &str, n: usize) -> (r: Result<(), redb::StorageError>)
    ensures
        r is Ok ==> meta_rows(*final(meta)) == synced(meta_rows(*old(meta)), at@, n as nat),
        meta_opened(*final(meta)) == meta_opened(*old(meta)),
{
    put_meta(meta, "last_sync", at)?;
    let count = text::decimal_text(n);
    put_meta(meta, "last_sync_count", count.as_str())
}

/// Upsert some repos and record the sync timestamp + count in the `meta` table.
/// The time of the sync is read from the clock.
///
/// The sync is recorded only once all repos are in: where the database refuses a
/// repo, the metadata are as they were.
pub fn upsert_repos(table: &mut RepoTable<'_>, meta: &mut MetaTable<'_>, records: &Vec<Record>) -> (r: Result<usize, StoreError>)
    ensures
        match r {
            Ok(n) => {
                &&& n == records@.len()
                &&& rows(*final(table)) == rows_with(rows(*old(table)), records@)
                &&& forall|i: int| 0 <= i < records@.len() ==> rows(*final(table)).contains_key((#[trigger] records@[i]).full_name@)
                &&& forall|k: Seq<char>|
                    !record_names(records@).contains(k) ==> #[trigger] held(rows(*final(table)), k) == held(rows(*old(table)), k)
                &&& exists|at: Seq<char>|
                    sync_stamp(at) && meta_rows(*final(meta)) == #[trigger] synced(meta_rows(*old(meta)), at, n as nat)
            },
            Err(e) => {
                &&& e is Storage
                &&& rows(*final(table)) == rows_with(rows(*old(table)), records@) || *final(meta) == *old(meta)
            },
        },
        repos_opened(*final(table)) == repos_opened(*old(table)),
        meta_opened(*final(meta)) == meta_opened(*old(meta)),
{
    let at = now();
    upsert_repos_at(table, meta, records, at.as_str())
}

/// [`upsert_repos`] with the time of the sync given.
pub fn upsert_repos_at(
    table: &mut RepoTable<'_>,
    meta: &mut MetaTable<'_>,
    records: &Vec<Record>,
    at: &str,
) -> (r: Result<usize, StoreError>)
    ensures
        match r {
            Ok(n) => {
                &&& n == records@.len()
                &&& rows(*final(table)) == rows_with(rows(*old(table)), records@)
                &&& forall|i: int| 0 <= i < records@.len() ==> rows(*final(table)).contains_key((#[trigger] records@[i]).full_name@)
                &&& forall|k: Seq<char>|
                    !record_names(records@).contains(k) ==> #[trigger] held(rows(*final(table)), k) == held(rows(*old(table)), k)
                &&& meta_rows(*final(meta)) == synced(meta_rows(*old(meta)), at@, n as nat)
            },
            Err(e) => {
                &&& e is Storage
                &&& rows(*final(table)) == rows_with(rows(*old(table)), records@) || *final(meta) == *old(meta)
            },
        },
        repos_opened(*final(table)) == repos_opened(*old(table)),
        meta_opened(*final(meta)) == meta_opened(*old(meta)),
{
    let n: usize = records.len();
    match done(put_all(table, records)) {
        Ok(_) => {},
        Err(e) => {
            return Err(e);
        },
    }
    proof {
        let before = rows(*old(table));
        let after = rows(*table);
        upsert_adds_names(before, records@);
        assert forall|i: int| 0 <= i < records@.len() implies after.contains_key((#[trigger] records@[i]).full_name@) by {
            assert(record_names(records@)[i] == records@[i].full_name@);
            assert(after.dom().contains(records@[i].full_name@));
        }
        assert forall|k: Seq<char>| !record_names(records@).contains(k) implies #[trigger] held(after, k) == held(before, k) by {
            upsert_reads_back(before, records@, k);
        }
    }
    match done(put_sync(meta, at, n)) {
        Ok(_) => Ok(n),
        Err(e) => Err(e),
    }
}

/// Which of the cached repos have keys that are NOT in `keep`.
fn find_stale(walk: &Vec<Result<String, redb::StorageError>>, keep: &StringHashSet) -> (stale: Vec<String>)
    ensures
        text::texts(stale@) == stale_keys(read_keys(walk@), keep@),
{
    let mut stale: Vec<String> = Vec::new();
    let mut i: usize = 0;
    assert(walk@.take(0) =~= Seq::<Result<String, redb::StorageError>>::empty());
    assert(text::texts(stale@) =~= Seq::<Seq<char>>::empty());
    while i < walk.len()
        invariant
            i <= walk@.len(),
            text::texts(stale@) == stale_keys(read_keys(walk@.take(i as int)), keep@),
        decreases walk@.len() - i,
    {
        let ghost earlier = read_keys(walk@.take(i as int));
        assert(walk@.take(i + 1).drop_last() =~= walk@.take(i as int));
        match &walk[i] {
            Ok(key) => {
                assert(earlier.push(key@).drop_last() =~= earlier);
                if !keep.contains(key.as_str()) {
                    let ghost before = text::texts(stale@);
                    stale.push(key.clone());
                    assert(text::texts(stale@) =~= before.push(key@));
                }
            },
            Err(_) => {},
        }
        i += 1;
    }
    assert(walk@.take(walk@.len() as int) =~= walk@);
    stale
}

/// Delete cached repos whose keys are NOT in `keep`. Returns number removed.
/// Used by sync to evict unstarred repos.
///
/// `walk` is what [`walk_repos`] gave: a row that cannot be read is passed over.
pub fn retain_repos(
    table: &mut RepoTable<'_>,
    walk: &Vec<Result<String, redb::StorageError>>,
    keep: &StringHashSet,
) -> (r: Result<usize, StoreError>)
    ensures
        match r {
            Ok(n) => {
                let stale = stale_keys(read_keys(walk@), keep@);
                &&& rows(*final(table)) == rows(*old(table)).remove_keys(stale.to_set())
                &&& n == stale.len()
                &&& forall|k: Seq<char>|
                    keep@.contains(k) || !read_keys(walk@).contains(k) ==> #[trigger] held(rows(*final(table)), k) == held(
                        rows(*old(table)),
                        k,
                    )
                &&& forall|k: Seq<char>|
                    read_keys(walk@).contains(k) && !keep@.contains(k) ==> !#[trigger] rows(*final(table)).contains_key(k)
            },
            Err(e) => e is Storage,
        },
        repos_opened(*final(table)) == repos_opened(*old(table)),
{
    let stale = find_stale(walk, keep);
    let ghost keys = text::texts(stale@);
    let ghost before = rows(*table);
    let mut i: usize = 0;
    assert(before.remove_keys(keys.take(0).to_set()) =~= before);
    while i < stale.len()
        invariant
            i <= stale@.len(),
            keys == text::texts(stale@),
            before == rows(*old(table)),
            rows(*table) == before.remove_keys(keys.take(i as int).to_set()),
            repos_opened(*table) == repos_opened(*old(table)),
        decreases stale@.len() - i,
    {
        let ghost key = keys[i as int];
        match done(remove_row(table, stale[i].as_str())) {
            Ok(_) => {},
            Err(e) => {
                return Err(e);
            },
        }
        proof {
            let gone = keys.take(i as int);
            assert(keys.take(i + 1) =~= gone.push(key));
            assert forall|x: Seq<char>| #[trigger] keys.take(i + 1).contains(x) <==> gone.contains(x) || x == key by {
                vstd::seq_lib::lemma_seq_contains_after_push(gone, key, x);
            }
            assert(before.remove_keys(gone.to_set()).remove(key) =~= before.remove_keys(keys.take(i + 1).to_set()));
        }
        i += 1;
    }
    assert(keys.take(keys.len() as int) =~= keys);
    proof {
        lemma_stale_among(read_keys(walk@), keep@);
    }
    Ok(stale.len())
}

// ---------------------------------------------------------------------------
// Reading
// ---------------------------------------------------------------------------
/// Read every cached repo, in the order of the full names. Returns an empty vec
/// if the table doesn't exist yet.
pub fn load_all(txn: &redb::ReadTransaction) -> (r: Result<Vec<Record>, StoreError>)
    ensures
        r matches Ok(records) ==> keys_rise(record_names(records@)) && rows_with(Map::empty(), records@) == repos_in(*txn),
        r matches Ok(records) ==> forall|i: int|
            0 <= i < records@.len() ==> held(repos_in(*txn), (#[trigger] records@[i]).full_name@) == Some(records@[i].bytes@),
        r matches Ok(records) ==> repos_in(*txn).dom() == record_names(records@).to_set(),
{
    let answer = match open_repo_snapshot(txn, REPOS) {
        Ok(Some(t)) => Ok(Some(snapshot_records(&t))),
        Ok(None) => Ok(None),
        Err(e) => Err(e),
    };
    let r = looked_up(answer, Vec::new());
    proof {
        if let Ok(records) = &r {
            lemma_loaded(records@);
        }
    }
    r
}

/// Walk over the cached repos: the key of each row, in alphabetical order, or why
/// the row cannot be read. Returns an empty vec if the table doesn't exist yet.
pub fn walk_repos(txn: &redb::ReadTransaction) -> (r: Result<Vec<Result<String, redb::StorageError>>, StoreError>)
    ensures
        r matches Ok(walk) ==> walked(repos_in(*txn), walk@),
{
    let answer = match open_repo_snapshot(txn, REPOS) {
        Ok(Some(t)) => Ok(Some(snapshot_keys(&t))),
        Ok(None) => Ok(None),
        Err(e) => Err(e),
    };
    looked_up(answer, Vec::new())
}

/// Read one cached repo by `owner/name`. `Ok(None)` if not found.
pub fn load_one(txn: &redb::ReadTransaction, full_name: &str) -> (r: Result<Option<Vec<u8>>, StoreError>)
    ensures
        r matches Ok(bytes) ==> bytes_view(bytes) == held(repos_in(*txn), full_name@),
        r matches Ok(None) ==> !repos_in(*txn).contains_key(full_name@),
        r matches Ok(Some(bytes)) ==> repos_in(*txn).contains_key(full_name@) && bytes@ == repos_in(*txn)[full_name@],
{
    let answer = match open_repo_snapshot(txn, REPOS) {
        Ok(Some(t)) => Ok(Some(snapshot_get(&t, full_name))),
        Ok(None) => Ok(None),
        Err(e) => Err(e),
    };
    looked_up(answer, None)
}

/// Read a metadata string by key. `Ok(None)` if absent.
pub fn read_meta(txn: &redb::ReadTransaction, key: &str) -> (r: Result<Option<String>, StoreError>)
    ensures
        r matches Ok(value) ==> text::opt_text(value) == held(meta_in(*txn), key@),
        r matches Ok(None) ==> !meta_in(*txn).contains_key(key@),
        r matches Ok(Some(value)) ==> meta_in(*txn).contains_key(key@) && value@ == meta_in(*txn)[key@],
{
    let answer = match open_meta_snapshot(txn, META) {
        Ok(Some(t)) => Ok(Some(snapshot_get_meta(&t, key))),
        Ok(None) => Ok(None),
        Err(e) => Err(e),
    };
    looked_up(answer, None)
}

/// Count cached repos. Matches the length of [`load_all`] but reads no records.
pub fn count_repos(txn: &redb::ReadTransaction) -> (r: Result<usize, StoreError>)
    ensures
        r matches Ok(n) ==> {
            let names = repos_in(*txn).dom();
            names.finite() && names.len() <= u64::MAX && n == (names.len() as u64) as usize
        },
        r matches Ok(n) ==> repos_in(*txn).dom().len() <= usize::MAX ==> n == repos_in(*txn).dom().len(),
{
    let answer = match open_repo_snapshot(txn, REPOS) {
        Ok(Some(t)) => Ok(Some(snapshot_len(&t))),
        Ok(None) => {
            assert(repos_in(*txn).dom() =~= Set::empty());
            Ok(None)
        },
        Err(e) => Err(e),
    };
    match looked_up(answer, 0u64) {
        Ok(n) => Ok(n as usize),
        Err(e) => Err(e),
    }
}

// ---------------------------------------------------------------------------
// What holds of every store
// ---------------------------------------------------------------------------
/// What was put in is read back: a name has the bytes of its last record, and a
/// name without a record keeps what it had.
pub proof fn upsert_reads_back(m: Map<Seq<char>, Seq<u8>>, records: Seq<Record>, name: Seq<char>)
    ensures
        forall|i: int|
            0 <= i < records.len() && (#[trigger] records[i]).full_name@ == name && (forall|j: int|
                i < j < records.len() ==> (#[trigger] records[j]).full_name@ != name) ==> held(
                rows_with(m, records),
                name,
            ) == Some(records[i].bytes@),
        !record_names(records).contains(name) ==> held(rows_with(m, records), name) == held(m, name),
    decreases records.len(),
{
    if records.len() > 0 {
        let earlier = records.drop_last();
        upsert_reads_back(m, earlier, name);
        assert forall|i: int|
            0 <= i < records.len() && (#[trigger] records[i]).full_name@ == name && (forall|j: int|
                i < j < records.len() ==> (#[trigger] records[j]).full_name@ != name) implies held(
            rows_with(m, records),
            name,
        ) == Some(records[i].bytes@) by {
            if i < earlier.len() {
                assert(earlier[i] == records[i]);
                assert(records[records.len() - 1].full_name@ != name);
                assert forall|j: int| i < j < earlier.len() implies (#[trigger] earlier[j]).full_name@ != name by {
                    assert(earlier[j] == records[j]);
                }
            }
        }
        if !record_names(records).contains(name) {
            assert(record_names(records)[records.len() - 1] == records.last().full_name@);
            assert(!record_names(earlier).contains(name)) by {
                if record_names(earlier).contains(name) {
                    let i = choose|i: int| 0 <= i < record_names(earlier).len() && record_names(earlier)[i] == name;
                    assert(record_names(records)[i] == name);
                }
            }
        }
    }
}

/// Where no name is there twice, each has the bytes of its record.
proof fn lemma_loaded(records: Seq<Record>)
    requires
        keys_rise(record_names(records)),
    ensures
        forall|i: int|
            0 <= i < records.len() ==> held(rows_with(Map::empty(), records), (#[trigger] records[i]).full_name@) == Some(
                records[i].bytes@,
            ),
        rows_with(Map::empty(), records).dom() == record_names(records).to_set(),
{
    let names = record_names(records);
    upsert_adds_names(Map::empty(), records);
    assert(rows_with(Map::empty(), records).dom() =~= names.to_set());
    assert forall|i: int| 0 <= i < records.len() implies held(
        rows_with(Map::empty(), records),
        (#[trigger] records[i]).full_name@,
    ) == Some(records[i].bytes@) by {
        let name = records[i].full_name@;
        assert(names[i] == name);
        assert forall|j: int| i < j < records.len() implies (#[trigger] records[j]).full_name@ != name by {
            assert(names[j] == records[j].full_name@);
        }
        upsert_reads_back(Map::empty(), records, name);
    }
}

/// The bytes of the last record of a name.
pub open spec fn last_bytes(records: Seq<Record>, name: Seq<char>) -> Option<Seq<u8>>
    decreases records.len(),
{
    if records.len() == 0 {
        None
    } else if records.last().full_name@ == name {
        Some(records.last().bytes@)
    } else {
        last_bytes(records.drop_last(), name)
    }
}

/// What was put in is read back: of an earlier snapshot that shows the table as it
/// was before an upsert, and a later one that shows it as the upsert left it, the
/// later one holds for every name the bytes of its last record, whole, and what
/// the earlier one held where the name has none.
pub proof fn snapshot_gives_back(
    earlier: redb::ReadTransaction,
    before: RepoTable<'_>,
    records: Seq<Record>,
    after: RepoTable<'_>,
    later: redb::ReadTransaction,
    name: Seq<char>,
)
    requires
        repos_in(earlier) == rows(before),
        rows(after) == rows_with(rows(before), records),
        repos_in(later) == rows(after),
    ensures
        held(repos_in(later), name) == match last_bytes(records, name) {
            Some(bytes) => Some(bytes),
            None => held(repos_in(earlier), name),
        },
{
    lemma_last_bytes(rows(before), records, name);
}

proof fn lemma_last_bytes(m: Map<Seq<char>, Seq<u8>>, records: Seq<Record>, name: Seq<char>)
    ensures
        held(rows_with(m, records), name) == match last_bytes(records, name) {
            Some(bytes) => Some(bytes),
            None => held(m, name),
        },
    decreases records.len(),
{
    if records.len() > 0 {
        lemma_last_bytes(m, records.drop_last(), name);
    }
}

/// The names in the store after an upsert are those before and those put in.
pub proof fn upsert_adds_names(m: Map<Seq<char>, Seq<u8>>, records: Seq<Record>)
    ensures
        rows_with(m, records).dom() == m.dom().union(record_names(records).to_set()),
    decreases records.len(),
{
    if records.len() == 0 {
        assert(rows_with(m, records).dom() =~= m.dom().union(record_names(records).to_set()));
    } else {
        let earlier = records.drop_last();
        upsert_adds_names(m, earlier);
        let names = record_names(records);
        assert(names =~= record_names(earlier).push(records.last().full_name@));
        assert forall|x: Seq<char>| #[trigger] names.contains(x) <==> record_names(earlier).contains(x) || x
            == records.last().full_name@ by {
            vstd::seq_lib::lemma_seq_contains_after_push(record_names(earlier), records.last().full_name@, x);
        }
        assert(rows_with(m, records).dom() =~= m.dom().union(names.to_set()));
    }
}

/// Putting the same records in again changes nothing.
pub proof fn upsert_is_idempotent(m: Map<Seq<char>, Seq<u8>>, records: Seq<Record>)
    ensures
        rows_with(rows_with(m, records), records) == rows_with(m, records),
{
    let once = rows_with(m, records);
    let twice = rows_with(once, records);
    upsert_adds_names(m, records);
    upsert_adds_names(once, records);
    assert forall|k: Seq<char>| once.contains_key(k) implies #[trigger] once[k] == twice[k] by {
        if record_names(records).contains(k) {
            let i = lemma_last_record(records, k);
            upsert_reads_back(m, records, k);
            upsert_reads_back(once, records, k);
            assert(records[i].full_name@ == k);
        } else {
            upsert_reads_back(once, records, k);
        }
    }
    assert(twice =~= once);
}

/// A name among some records has a last record.
proof fn lemma_last_record(records: Seq<Record>, name: Seq<char>) -> (i: int)
    requires
        record_names(records).contains(name),
    ensures
        0 <= i < records.len(),
        records[i].full_name@ == name,
        forall|j: int| i < j < records.len() ==> (#[trigger] records[j]).full_name@ != name,
    decreases records.len(),
{
    let names = record_names(records);
    let at = choose|at: int| 0 <= at < names.len() && names[at] == name;
    let last = records.len() - 1;
    if records[last].full_name@ == name {
        last
    } else {
        let earlier = records.drop_last();
        assert(record_names(earlier)[at] == name);
        let i = lemma_last_record(earlier, name);
        assert forall|j: int| i < j < records.len() implies (#[trigger] records[j]).full_name@ != name by {
            if j < last {
                assert(earlier[j] == records[j]);
            }
        }
        i
    }
}

/// There are as many cached repos as are loaded.
pub proof fn count_is_number_loaded(records: Seq<Record>)
    requires
        keys_rise(record_names(records)),
    ensures
        rows_with(Map::empty(), records).dom().finite(),
        rows_with(Map::empty(), records).dom().len() == records.len(),
{
    let names = record_names(records);
    upsert_adds_names(Map::empty(), records);
    assert(names.no_duplicates());
    names.unique_seq_to_set();
    assert(rows_with(Map::empty(), records).dom() =~= names.to_set());
}

/// Loading gives one list: the names stand in it in alphabetical order, and
/// each has the bytes that the store holds for it.
pub proof fn loads_agree(records: Seq<Record>, records2: Seq<Record>)
    requires
        keys_rise(record_names(records)),
        keys_rise(record_names(records2)),
        rows_with(Map::empty(), records) == rows_with(Map::empty(), records2),
    ensures
        record_names(records) == record_names(records2),
        forall|i: int| 0 <= i < records.len() ==> (#[trigger] records[i]).bytes@ == records2[i].bytes@,
{
    let a = record_names(records);
    let b = record_names(records2);
    upsert_adds_names(Map::empty(), records);
    upsert_adds_names(Map::empty(), records2);
    let m = rows_with(Map::empty(), records);
    assert(m.dom() =~= a.to_set());
    assert(m.dom() =~= b.to_set());
    count_is_number_loaded(records);
    count_is_number_loaded(records2);
    assert forall|k: Seq<char>| a.contains(k) <==> #[trigger] b.contains(k) by {
        assert(a.to_set().contains(k) <==> b.to_set().contains(k));
    }
    lemma_rising_keys_agree(a, b, 0);
    assert(a =~= b);
    assert forall|i: int| 0 <= i < records.len() implies (#[trigger] records[i]).bytes@ == records2[i].bytes@ by {
        let name = a[i];
        assert(b[i] == name);
        assert(records[i].full_name@ == name && records2[i].full_name@ == name);
        assert forall|j: int| i < j < records.len() implies (#[trigger] records[j]).full_name@ != name by {
            assert(a[j] == records[j].full_name@);
        }
        assert forall|j: int| i < j < records2.len() implies (#[trigger] records2[j]).full_name@ != name by {
            assert(b[j] == records2[j].full_name@);
        }
        upsert_reads_back(Map::empty(), records, name);
        upsert_reads_back(Map::empty(), records2, name);
    }
}

/// Two rising lists of the same keys agree from `n` on where they agree before.
proof fn lemma_rising_keys_agree(a: Seq<Seq<char>>, b: Seq<Seq<char>>, n: int)
    requires
        keys_rise(a),
        keys_rise(b),
        a.len() == b.len(),
        forall|k: Seq<char>| a.contains(k) <==> #[trigger] b.contains(k),
        0 <= n <= a.len(),
        forall|i: int| 0 <= i < n ==> #[trigger] a[i] == b[i],
    ensures
        forall|i: int| 0 <= i < a.len() ==> #[trigger] a[i] == b[i],
    decreases a.len() - n,
{
    if n < a.len() {
        assert(a.contains(a[n]));
        assert(b.contains(b[n]));
        assert(b.contains(a[n]));
        assert(a.contains(b[n]));
        let j = choose|j: int| 0 <= j < b.len() && b[j] == a[n];
        let i = choose|i: int| 0 <= i < a.len() && a[i] == b[n];
        if j < n {
            assert(a[j] == b[j]);
        }
        if i < n {
            assert(a[i] == b[i]);
        }
        assert(a[n] == b[n]) by {
            if j > n && i > n {
                assert(text::text_le(b[n], b[j]));
                assert(text::text_le(a[n], a[i]));
                text::text_order_is_total(a[n], b[n]);
            }
        }
        lemma_rising_keys_agree(a, b, n + 1);
    }
}

/// Pruning after a sync leaves exactly the repositories of the sync.
pub proof fn prune_leaves_the_synced(m: Map<Seq<char>, Seq<u8>>, records: Seq<Record>)
    ensures
        rows_kept(rows_with(m, records), record_names(records).to_set()) == rows_with(Map::empty(), records),
{
    let names = record_names(records);
    let all = rows_with(m, records);
    let only = rows_with(Map::empty(), records);
    let kept = rows_kept(all, names.to_set());
    upsert_adds_names(m, records);
    upsert_adds_names(Map::empty(), records);
    assert forall|k: Seq<char>| kept.contains_key(k) implies #[trigger] kept[k] == only[k] by {
        let i = lemma_last_record(records, k);
        upsert_reads_back(m, records, k);
        upsert_reads_back(Map::empty(), records, k);
        assert(records[i].full_name@ == k);
    }
    assert(kept =~= only);
}

/// Where every row can be read, retaining leaves exactly the rows whose keys are
/// kept, and the number removed is that of the others.
pub proof fn retain_leaves_the_kept(m: Map<Seq<char>, Seq<u8>>, walk: Seq<Result<String, redb::StorageError>>, keep: Set<Seq<char>>)
    requires
        walked(m, walk),
        all_read(walk),
    ensures
        m.remove_keys(stale_keys(read_keys(walk), keep).to_set()) == rows_kept(m, keep),
        m.dom().finite(),
        stale_keys(read_keys(walk), keep).len() == m.dom().difference(keep).len(),
{
    let keys = read_keys(walk);
    let stale = stale_keys(keys, keep);
    lemma_stale(keys, keep);
    assert(m.remove_keys(stale.to_set()) =~= rows_kept(m, keep));
    keys.lemma_cardinality_of_set();
    assert(m.dom() =~= keys.to_set());
    stale.unique_seq_to_set();
    assert(m.dom().difference(keep) =~= stale.to_set());
}

/// Retaining leaves what is kept, and a row that cannot be read, as it was.
pub proof fn retain_spares(m: Map<Seq<char>, Seq<u8>>, walk: Seq<Result<String, redb::StorageError>>, keep: Set<Seq<char>>, name: Seq<char>)
    requires
        walked(m, walk),
        keep.contains(name) || !read_keys(walk).contains(name),
    ensures
        held(m.remove_keys(stale_keys(read_keys(walk), keep).to_set()), name) == held(m, name),
{
    lemma_stale(read_keys(walk), keep);
}

/// Where every name is kept, retaining removes nothing.
pub proof fn retain_keeps_what_is_kept(m: Map<Seq<char>, Seq<u8>>, walk: Seq<Result<String, redb::StorageError>>, keep: Set<Seq<char>>)
    requires
        walked(m, walk),
        m.dom().subset_of(keep),
    ensures
        m.remove_keys(stale_keys(read_keys(walk), keep).to_set()) == m,
        stale_keys(read_keys(walk), keep).len() == 0,
{
    let stale = stale_keys(read_keys(walk), keep);
    lemma_stale(read_keys(walk), keep);
    if stale.len() > 0 {
        assert(stale.contains(stale[0]));
    }
    assert(m.remove_keys(stale.to_set()) =~= m);
}

/// The stale keys are those that are not kept.
proof fn lemma_stale_among(keys: Seq<Seq<char>>, keep: Set<Seq<char>>)
    ensures
        forall|k: Seq<char>| #[trigger] stale_keys(keys, keep).contains(k) <==> keys.contains(k) && !keep.contains(k),
    decreases keys.len(),
{
    if keys.len() > 0 {
        let earlier = keys.drop_last();
        let key = keys.last();
        let stale = stale_keys(earlier, keep);
        lemma_stale_among(earlier, keep);
        assert(keys =~= earlier.push(key));
        assert forall|k: Seq<char>| #[trigger] stale_keys(keys, keep).contains(k) <==> keys.contains(k) && !keep.contains(k) by {
            vstd::seq_lib::lemma_seq_contains_after_push(earlier, key, k);
            vstd::seq_lib::lemma_seq_contains_after_push(stale, key, k);
            assert(stale.contains(k) <==> earlier.contains(k) && !keep.contains(k));
        }
    }
}

proof fn lemma_stale(keys: Seq<Seq<char>>, keep: Set<Seq<char>>)
    requires
        keys_rise(keys),
    ensures
        forall|k: Seq<char>| #[trigger] stale_keys(keys, keep).contains(k) <==> keys.contains(k) && !keep.contains(k),
        stale_keys(keys, keep).no_duplicates(),
    decreases keys.len(),
{
    lemma_stale_among(keys, keep);
    if keys.len() > 0 {
        let earlier = keys.drop_last();
        let key = keys.last();
        let stale = stale_keys(earlier, keep);
        assert forall|i: int, j: int| 0 <= i < j < earlier.len() implies #[trigger] earlier[i] != #[trigger] earlier[j]
            && text::text_le(earlier[i], earlier[j]) by {
            assert(keys[i] == earlier[i] && keys[j] == earlier[j]);
        }
        lemma_stale(earlier, keep);
        assert(!earlier.contains(key)) by {
            if earlier.contains(key) {
                let i = choose|i: int| 0 <= i < earlier.len() && earlier[i] == key;
                assert(keys[i] != keys[keys.len() - 1]);
            }
        }
        assert(!stale.contains(key));
    }
}

/// After a sync the metadata hold its time and its count, and reading the count
/// gives the number back.
pub proof fn sync_is_recorded(m: Map<Seq<char>, Seq<char>>, at: Seq<char>, n: usize)
    ensures
        held(synced(m, at, n as nat), "last_sync"@) == Some(at),
        held(synced(m, at, n as nat), "last_sync_count"@) == Some(text::decimal(n as nat)),
        text::parsed_usize(text::decimal(n as nat)) == Some(n),
{
    reveal_strlit("last_sync");
    reveal_strlit("last_sync_count");
    assert("last_sync"@.len() != "last_sync_count"@.len());
    text::decimal_reads_back(n);
}

/// A sync changes nothing in the metadata but its time and its count.
pub proof fn sync_changes_nothing_else(m: Map<Seq<char>, Seq<char>>, at: Seq<char>, n: nat, key: Seq<char>)
    requires
        key != "last_sync"@,
        key != "last_sync_count"@,
    ensures
        held(synced(m, at, n), key) == held(m, key),
{
}

/// What a map holds for a key is the value that it maps it to.
pub proof fn held_is_what_is_mapped(m: Map<Seq<char>, Seq<u8>>, key: Seq<char>, value: Seq<u8>)
    ensures
        held(m.insert(key, value), key) == Some(value),
        held(m.remove(key), key) is None,
        held(Map::<Seq<char>, Seq<u8>>::empty(), key) is None,
{
}

/// The keys of a walk are those of its first part and then those of the rest; a row
/// that can be read counts with its key, one that cannot for nothing.
pub proof fn walk_reads_row_by_row(
    a: Seq<Result<String, redb::StorageError>>,
    b: Seq<Result<String, redb::StorageError>>,
    row: Result<String, redb::StorageError>,
)
    ensures
        read_keys(a + b) == read_keys(a) + read_keys(b),
        row matches Ok(key) ==> read_keys(seq![row]) == seq![key@],
        row is Err ==> read_keys(seq![row]).len() == 0,
    decreases b.len(),
{
    assert(seq![row].drop_last() =~= Seq::<Result<String, redb::StorageError>>::empty());
    assert(read_keys(Seq::<Result<String, redb::StorageError>>::empty()) =~= Seq::<Seq<char>>::empty());
    if row is Ok {
        assert(read_keys(seq![row]) =~= seq![row->Ok_0@]);
    }
    if b.len() > 0 {
        walk_reads_row_by_row(a, b.drop_last(), row);
        assert((a + b).drop_last() =~= a + b.drop_last());
        assert(read_keys(a + b) =~= read_keys(a) + read_keys(b));
    } else {
        assert(a + b =~= a);
        assert(read_keys(a + b) =~= read_keys(a) + read_keys(b));
    }
}

/// The tables keep their names, by which what was stored is found again.
pub proof fn tables_keep_their_names()
    ensures
        REPOS@ == "repos"@,
        META@ == "meta"@,
{
}

} // verus!

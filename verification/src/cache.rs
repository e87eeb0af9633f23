//! The query cache: the matches of the latest queries, least recently used
//! first to go.

use crate::text;
use vstd::prelude::*;

verus! {

// ---------------------------------------------------------------------------
// What is taken from lru
// ---------------------------------------------------------------------------
/// `lru::LruCache`, which holds the entries.
#[verifier::external_type_specification]
#[verifier::external_body]
#[verifier::reject_recursive_types(K)]
#[verifier::reject_recursive_types(V)]
#[verifier::reject_recursive_types(S)]
pub struct ExLruCache<K, V, S>(lru::LruCache<K, V, S>);

/// `lru::DefaultHasher`, the hasher that `LruCache::new` takes.
#[verifier::external_type_specification]
#[verifier::external_body]
pub struct ExDefaultHasher(lru::DefaultHasher);

/// A query as the cache knows it: the text, the language and the topic.
pub type QueryKey = (String, Option<String>, Option<String>);

/// The view of a [`QueryKey`].
pub type QueryView = (Seq<char>, Option<Seq<char>>, Option<Seq<char>>);

/// An entry: a query, and the positions of the repositories that match it.
pub type Entry = (QueryView, Seq<usize>);

/// The entries of a cache, the most recently used one first.
pub uninterp spec fn entries_of(cache: lru::LruCache<QueryKey, Vec<usize>>) -> Seq<Entry>;

/// How many entries a cache was made to hold.
pub uninterp spec fn capacity_of(cache: lru::LruCache<QueryKey, Vec<usize>>) -> nat;

/// `lru::LruCache::new` makes an empty cache of the given capacity.
#[verifier::external_body]
fn new_cache(capacity: usize) -> (cache: lru::LruCache<QueryKey, Vec<usize>>)
    requires
        0 < capacity <= CACHE_CAPACITY,
    ensures
        entries_of(cache) == Seq::<Entry>::empty(),
        capacity_of(cache) == capacity,
{
    lru::LruCache::new(std::num::NonZeroUsize::new(capacity).unwrap())
}

/// `lru::LruCache::get` gives the value under a key and makes its entry the
/// most recently used one. Where the key is not held it gives nothing and
/// changes nothing. No key is held twice.
#[verifier::external_body]
fn cache_get(cache: &mut lru::LruCache<QueryKey, Vec<usize>>, key: &QueryKey) -> (found: Option<Vec<usize>>)
    ensures
        capacity_of(*final(cache)) == capacity_of(*old(cache)),
        matches_view(found) == recalled(entries_of(*old(cache)), key_view(*key)),
        entries_of(*final(cache)) == after_recall(entries_of(*old(cache)), key_view(*key)),
{
    cache.get(key).cloned()
}

/// `lru::LruCache::put` makes the given entry the most recently used one. It
/// takes the place of the entry with the same key; where there is none and the
/// cache is full, the least recently used entry is dropped.
#[verifier::external_body]
fn cache_put(cache: &mut lru::LruCache<QueryKey, Vec<usize>>, key: QueryKey, value: Vec<usize>)
    ensures
        capacity_of(*final(cache)) == capacity_of(*old(cache)),
        entries_of(*final(cache)) == after_record(
            entries_of(*old(cache)),
            capacity_of(*old(cache)),
            key_view(key),
            value@,
        ),
{
    cache.put(key, value);
}

/// `lru::LruCache::len` counts the entries.
#[verifier::external_body]
fn cache_len(cache: &lru::LruCache<QueryKey, Vec<usize>>) -> (n: usize)
    ensures
        n == entries_of(*cache).len(),
{
    cache.len()
}

// ---------------------------------------------------------------------------
// What a cache does
// ---------------------------------------------------------------------------
/// How many queries are remembered.
pub const CACHE_CAPACITY: usize = 256;

/// The view of a key.
pub open spec fn key_view(k: QueryKey) -> QueryView {
    (k.0@, text::opt_text(k.1), text::opt_text(k.2))
}

/// The view of what a lookup gave.
pub open spec fn matches_view(m: Option<Vec<usize>>) -> Option<Seq<usize>> {
    match m {
        Some(v) => Some(v@),
        None => None,
    }
}

/// Where the entry of a key stands; the number of entries where it has none.
pub open spec fn entry_position(entries: Seq<Entry>, k: QueryView) -> nat
    decreases entries.len(),
{
    if entries.len() == 0 || entries[0].0 == k {
        0
    } else {
        1 + entry_position(entries.drop_first(), k)
    }
}

/// What is remembered for a key.
pub open spec fn recalled(entries: Seq<Entry>, k: QueryView) -> Option<Seq<usize>> {
    let at = entry_position(entries, k);
    if at < entries.len() {
        Some(entries[at as int].1)
    } else {
        None
    }
}

/// The entries without that of a key.
pub open spec fn without(entries: Seq<Entry>, k: QueryView) -> Seq<Entry> {
    let at = entry_position(entries, k);
    if at < entries.len() {
        entries.remove(at as int)
    } else {
        entries
    }
}

/// The entries once a key was looked up.
pub open spec fn after_recall(entries: Seq<Entry>, k: QueryView) -> Seq<Entry> {
    match recalled(entries, k) {
        Some(v) => seq![(k, v)] + without(entries, k),
        None => entries,
    }
}

/// The entries once a key was given a value.
pub open spec fn after_record(entries: Seq<Entry>, capacity: nat, k: QueryView, v: Seq<usize>) -> Seq<Entry> {
    let rest = without(entries, k);
    if rest.len() >= capacity {
        seq![(k, v)] + rest.drop_last()
    } else {
        seq![(k, v)] + rest
    }
}

/// Whether every key has one entry at most.
pub open spec fn one_entry_each(entries: Seq<Entry>) -> bool {
    forall|i: int, j: int| 0 <= i < j < entries.len() ==> (#[trigger] entries[i]).0 != (#[trigger] entries[j]).0
}

/// The position of a key is that of its first entry.
pub proof fn entry_is_found(entries: Seq<Entry>, k: QueryView)
    ensures
        entry_position(entries, k) <= entries.len(),
        entry_position(entries, k) < entries.len() ==> entries[entry_position(entries, k) as int].0 == k,
        forall|i: int| 0 <= i < entry_position(entries, k) ==> (#[trigger] entries[i]).0 != k,
    decreases entries.len(),
{
    if entries.len() > 0 && entries[0].0 != k {
        let rest = entries.drop_first();
        entry_is_found(rest, k);
        assert forall|i: int| 0 <= i < entry_position(entries, k) implies (#[trigger] entries[i]).0 != k by {
            if i > 0 {
                assert(rest[i - 1] == entries[i]);
            }
        }
    }
}

proof fn lemma_position_is(entries: Seq<Entry>, k: QueryView, at: int)
    requires
        0 <= at <= entries.len(),
        forall|i: int| 0 <= i < at ==> (#[trigger] entries[i]).0 != k,
        at < entries.len() ==> entries[at].0 == k,
    ensures
        entry_position(entries, k) == at,
{
    entry_is_found(entries, k);
}

/// Looking up and recording keep one entry for each key, and no more entries
/// than the capacity.
pub proof fn entries_stay_valid(entries: Seq<Entry>, capacity: nat, k: QueryView, v: Seq<usize>)
    requires
        one_entry_each(entries),
        entries.len() <= capacity,
        capacity > 0,
    ensures
        one_entry_each(after_recall(entries, k)),
        after_recall(entries, k).len() == entries.len(),
        one_entry_each(after_record(entries, capacity, k, v)),
        after_record(entries, capacity, k, v).len() <= capacity,
{
    entry_is_found(entries, k);
    let rest = without(entries, k);
    assert forall|i: int| 0 <= i < rest.len() implies (#[trigger] rest[i]).0 != k by {
        let at = entry_position(entries, k);
        if at < entries.len() {
            assert(rest[i] == entries[if i < at { i } else { i + 1 }]);
            assert(entries[at as int].0 == k);
        }
    }
    assert(one_entry_each(rest)) by {
        assert forall|i: int, j: int| 0 <= i < j < rest.len() implies (#[trigger] rest[i]).0 != (#[trigger] rest[j]).0 by {
            let at = entry_position(entries, k);
            if at < entries.len() {
                assert(rest[i] == entries[if i < at { i } else { i + 1 }]);
                assert(rest[j] == entries[if j < at { j } else { j + 1 }]);
            }
        }
    }
}

/// What was recorded last is recalled.
pub proof fn recall_after_record(entries: Seq<Entry>, capacity: nat, k: QueryView, v: Seq<usize>)
    ensures
        recalled(after_record(entries, capacity, k, v), k) == Some(v),
        after_recall(after_record(entries, capacity, k, v), k) == after_record(entries, capacity, k, v),
{
    let after = after_record(entries, capacity, k, v);
    assert(after[0] == (k, v));
    lemma_position_is(after, k, 0);
    assert(after_recall(after, k) =~= after);
}

/// Recording one key changes nothing of what is recalled for another, but that
/// the entry used least recently goes where the cache is full.
pub proof fn record_keeps_others(entries: Seq<Entry>, capacity: nat, k: QueryView, v: Seq<usize>, other: QueryView)
    requires
        one_entry_each(entries),
        entries.len() <= capacity,
        capacity > 0,
        other != k,
    ensures
        ({
            let dropped = recalled(entries, k) is None && entries.len() == capacity && entries.len() > 0
                && entries.last().0 == other;
            recalled(after_record(entries, capacity, k, v), other) == if dropped {
                None
            } else {
                recalled(entries, other)
            }
        }),
{
    entry_is_found(entries, k);
    entry_is_found(entries, other);
    let after = after_record(entries, capacity, k, v);
    let at = entry_position(entries, k);
    let p = entry_position(entries, other);
    let rest = without(entries, k);
    entry_is_found(after, other);
    let q = entry_position(after, other);
    assert forall|i: int| 1 <= i < after.len() implies #[trigger] after[i] == entries[if i - 1 < at { i - 1 } else { i }] by {
        assert(after[i] == rest[i - 1]);
        if at < entries.len() {
            assert(rest[i - 1] == entries[if i - 1 < at { i - 1 } else { i }]);
        }
    }
    if q < after.len() {
        assert(q >= 1);
        let source = if q - 1 < at { q - 1 } else { q as int };
        assert(after[q as int] == entries[source]);
        assert(entries[source].0 == other);
        assert(p == source);
    } else if p < entries.len() {
        let place: int = if p < at { (p + 1) as int } else { p as int };
        if place < after.len() {
            assert(after[place] == entries[p as int]);
        } else {
            assert(p == entries.len() - 1);
        }
    }
}

/// Looking up one key changes nothing of what is recalled for any.
pub proof fn recall_keeps_all(entries: Seq<Entry>, k: QueryView, other: QueryView)
    requires
        one_entry_each(entries),
    ensures
        recalled(after_recall(entries, k), other) == recalled(entries, other),
{
    if let Some(v) = recalled(entries, k) {
        let room = entries.len() + 1;
        entry_is_found(entries, k);
        assert(after_recall(entries, k) == after_record(entries, room, k, v));
        if other == k {
            recall_after_record(entries, room, k, v);
        } else {
            record_keeps_others(entries, room, k, v, other);
        }
    }
}

/// A cache that is not full grows by one entry for a query that it does not
/// hold, and by none for a query that it holds.
pub proof fn record_grows_by_new_queries(entries: Seq<Entry>, capacity: nat, k: QueryView, v: Seq<usize>)
    requires
        entries.len() < capacity,
    ensures
        after_record(entries, capacity, k, v).len() == entries.len() + if recalled(entries, k) is None {
            1int
        } else {
            0
        },
{
}

/// What is looked up or recorded is the most recently used; the others stay in their
/// order behind it.
pub proof fn latest_stands_first(entries: Seq<Entry>, capacity: nat, k: QueryView, v: Seq<usize>, a: int, b: int)
    requires
        capacity > 0,
        0 <= a < b < entries.len(),
        entries[a].0 != k,
        entries[b].0 != k,
    ensures
        recalled(entries, k) is Some ==> after_recall(entries, k)[0].0 == k,
        after_record(entries, capacity, k, v)[0] == (k, v),
        exists|i: int, j: int|
            0 <= i < j < after_recall(entries, k).len() && #[trigger] after_recall(entries, k)[i] == entries[a]
                && #[trigger] after_recall(entries, k)[j] == entries[b],
{
    entry_is_found(entries, k);
    let at = entry_position(entries, k) as int;
    let after = after_recall(entries, k);
    if at < entries.len() {
        let i = if a < at { a + 1 } else { a };
        let j = if b < at { b + 1 } else { b };
        assert(after[i] == entries[a]);
        assert(after[j] == entries[b]);
    } else {
        assert(after[a] == entries[a] && after[b] == entries[b]);
    }
}

/// There is room for 256 queries.
pub proof fn room_for_queries()
    ensures
        CACHE_CAPACITY == 256,
{
}

// ---------------------------------------------------------------------------
// The cache
// ---------------------------------------------------------------------------
/// The matches of the latest [`CACHE_CAPACITY`] queries.
pub struct MatchCache {
    lru: lru::LruCache<QueryKey, Vec<usize>>,
}

impl View for MatchCache {
    type V = Seq<Entry>;

    closed spec fn view(&self) -> Seq<Entry> {
        entries_of(self.lru)
    }
}

impl MatchCache {
    /// One entry for each key, and no more than there is room for.
    pub closed spec fn wf(&self) -> bool {
        &&& capacity_of(self.lru) == CACHE_CAPACITY
        &&& one_entry_each(entries_of(self.lru))
        &&& entries_of(self.lru).len() <= CACHE_CAPACITY
    }

    /// A cache that remembers nothing yet.
    pub fn new() -> (cache: MatchCache)
        ensures
            cache.wf(),
            cache@ == Seq::<Entry>::empty(),
    {
        MatchCache { lru: new_cache(CACHE_CAPACITY) }
    }

    /// What is remembered for a query, which becomes the most recently used.
    pub fn recall(&mut self, key: &QueryKey) -> (found: Option<Vec<usize>>)
        requires
            old(self).wf(),
        ensures
            final(self).wf(),
            matches_view(found) == recalled(old(self)@, key_view(*key)),
            final(self)@ == after_recall(old(self)@, key_view(*key)),
    {
        proof {
            entries_stay_valid(self@, CACHE_CAPACITY as nat, key_view(*key), Seq::empty());
        }
        cache_get(&mut self.lru, key)
    }

    /// Remember the matches of a query, which becomes the most recently used;
    /// where there is no room, the least recently used one is forgotten.
    pub fn record(&mut self, key: QueryKey, matches: Vec<usize>)
        requires
            old(self).wf(),
        ensures
            final(self).wf(),
            final(self)@ == after_record(old(self)@, CACHE_CAPACITY as nat, key_view(key), matches@),
    {
        proof {
            entries_stay_valid(self@, CACHE_CAPACITY as nat, key_view(key), matches@);
        }
        cache_put(&mut self.lru, key, matches);
    }

    /// How many queries are remembered.
    pub fn len(&self) -> (n: usize)
        requires
            self.wf(),
        ensures
            n == self@.len(),
            n <= CACHE_CAPACITY,
    {
        cache_len(&self.lru)
    }
}

} // verus!

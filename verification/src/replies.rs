//! What the servers show: hits, listings, records and statistics as JSON.

use crate::index::IndexedRepo;
use crate::index::SearchHit;
use crate::index;
use crate::json::Json;
use crate::json::JsonView;
use crate::json;
use crate::listing;
use crate::repo::Repo;
use crate::repo;
use crate::store::StoreError;
use crate::store;
use crate::text;
use vstd::prelude::*;

verus! {

/// The version of this program.
pub const VERSION: &'static str = "0.3.0";

// ---------------------------------------------------------------------------
// What is read from the store
// ---------------------------------------------------------------------------
/// What a server has to read from the store to answer a request.
#[derive(Debug, Clone, PartialEq)]
pub enum StoreNeed {
    /// Nothing.
    Nothing,
    /// The count of the repos, and the time and count of the last sync.
    Stats,
    /// The record of the repo with this full name.
    Record(String),
}

/// The view of a [`StoreNeed`].
pub enum NeedView {
    Nothing,
    Stats,
    Record(Seq<char>),
}

impl View for StoreNeed {
    type V = NeedView;

    open spec fn view(&self) -> NeedView {
        match self {
            StoreNeed::Nothing => NeedView::Nothing,
            StoreNeed::Stats => NeedView::Stats,
            StoreNeed::Record(name) => NeedView::Record(name@),
        }
    }
}

/// What was read from the store; an error is what went wrong. What was not
/// needed may be anything.
#[derive(Debug)]
pub struct StoreReads {
    /// How many repos are cached.
    pub count: Result<usize, StoreError>,
    /// The time of the last sync.
    pub last_sync: Result<Option<String>, StoreError>,
    /// The count of the last sync.
    pub last_sync_count: Result<Option<String>, StoreError>,
    /// The record that was asked for.
    pub record: Result<Option<Repo>, String>,
}

/// A text that was read, or nothing where reading failed.
pub open spec fn read_text(r: Result<Option<String>, StoreError>) -> Option<Seq<char>> {
    match r {
        Ok(s) => text::opt_text(s),
        Err(_) => None,
    }
}

/// The count that was read, or zero where counting failed.
pub open spec fn read_count(r: Result<usize, StoreError>) -> usize {
    match r {
        Ok(n) => n,
        Err(_) => 0,
    }
}

/// The JSON record that was read, `null` where there is none, or what went
/// wrong.
pub open spec fn read_record(r: Result<Option<Repo>, String>) -> Result<JsonView, Seq<char>> {
    match r {
        Ok(Some(found)) => Ok(repo::record(found)),
        Ok(None) => Ok(JsonView::Null),
        Err(e) => Err(e@),
    }
}

/// Whether two readings are the same in what is needed.
pub open spec fn same_reads(need: NeedView, a: StoreReads, b: StoreReads) -> bool {
    match need {
        NeedView::Nothing => true,
        NeedView::Stats => stats_json(a) == stats_json(b),
        NeedView::Record(_) => read_record(a.record) == read_record(b.record) && (a.record is Ok && a.record->Ok_0 is None
            <==> b.record is Ok && b.record->Ok_0 is None),
    }
}

// ---------------------------------------------------------------------------
// Shapes
// ---------------------------------------------------------------------------
/// Statistics of the cache.
pub open spec fn stats_json(reads: StoreReads) -> JsonView {
    JsonView::object()
        .with("cached"@, JsonView::Unsigned(read_count(reads.count) as u64))
        .with("last_sync"@, JsonView::opt_str(read_text(reads.last_sync)))
        .with("last_sync_count"@, JsonView::opt_str(read_text(reads.last_sync_count)))
}

/// Statistics of the cache as it was when a transaction began.
pub open spec fn stats_in(txn: redb::ReadTransaction) -> JsonView {
    JsonView::object()
        .with("cached"@, JsonView::Unsigned((store::repos_in(txn).dom().len() as u64) as usize as u64))
        .with("last_sync"@, JsonView::opt_str(store::held(store::meta_in(txn), "last_sync"@)))
        .with("last_sync_count"@, JsonView::opt_str(store::held(store::meta_in(txn), "last_sync_count"@)))
}

/// A search hit.
pub open spec fn hit_json(h: SearchHit<'_>) -> JsonView {
    JsonView::object()
        .with("score"@, json::number_view(h.score.number))
        .with("full_name"@, JsonView::Str(h.repo.full_name@))
        .with("description"@, JsonView::opt_str(text::opt_text(h.repo.description)))
        .with("language"@, JsonView::opt_str(text::opt_text(h.repo.language)))
        .with("stars"@, JsonView::Unsigned(h.repo.stargazers_count))
        .with("topics"@, JsonView::strs(text::texts(h.repo.topics@)))
        .with("url"@, JsonView::Str(h.repo.url@))
}

/// Search hits, in their order.
pub open spec fn hits_json(hits: Seq<SearchHit<'_>>) -> JsonView {
    JsonView::Array(hits.map_values(|h: SearchHit<'_>| hit_json(h)))
}

/// Records of repositories, in their order.
pub open spec fn records_json(repos: Seq<&Repo>) -> JsonView {
    JsonView::Array(repos.map_values(|r: &Repo| repo::record(*r)))
}

/// Read the statistics: the count of the repos, and under their keys the time and
/// the count of the last sync.
pub fn read_stats(txn: &redb::ReadTransaction) -> (reads: StoreReads)
    ensures
        reads.count matches Ok(n) ==> n == (store::repos_in(*txn).dom().len() as u64) as usize,
        reads.last_sync matches Ok(v) ==> text::opt_text(v) == store::held(store::meta_in(*txn), "last_sync"@),
        reads.last_sync_count matches Ok(v) ==> text::opt_text(v) == store::held(store::meta_in(*txn), "last_sync_count"@),
        reads.count is Ok && reads.last_sync is Ok && reads.last_sync_count is Ok ==> stats_json(reads) == stats_in(*txn),
        reads.record == Ok::<Option<Repo>, String>(None),
{
    StoreReads {
        count: store::count_repos(txn),
        last_sync: store::read_meta(txn, "last_sync"),
        last_sync_count: store::read_meta(txn, "last_sync_count"),
        record: Ok(None),
    }
}

/// A text that was read, as JSON; `null` where there is none.
fn text_json(r: &Result<Option<String>, StoreError>) -> (j: Json)
    ensures
        j@ == JsonView::opt_str(read_text(*r)),
{
    match r {
        Ok(s) => Json::opt_text(s),
        Err(_) => Json::Null,
    }
}

/// Statistics of the cache.
pub(crate) fn stats_to_json(reads: &StoreReads) -> (j: Json)
    ensures
        j@ == stats_json(*reads),
{
    let count: u64 = match &reads.count {
        Ok(n) => *n as u64,
        Err(_) => 0,
    };
    Json::object()
        .with("cached", Json::Unsigned(count))
        .with("last_sync", text_json(&reads.last_sync))
        .with("last_sync_count", text_json(&reads.last_sync_count))
}

/// A search hit.
fn hit_to_json(h: &SearchHit<'_>) -> (j: Json)
    ensures
        j@ == hit_json(*h),
{
    Json::object()
        .with("score", Json::number(&h.score.number))
        .with("full_name", Json::text(h.repo.full_name.as_str()))
        .with("description", Json::opt_text(&h.repo.description))
        .with("language", Json::opt_text(&h.repo.language))
        .with("stars", Json::Unsigned(h.repo.stargazers_count))
        .with("topics", Json::texts(&h.repo.topics))
        .with("url", Json::text(h.repo.url.as_str()))
}

/// Search hits, in their order.
pub fn hits_to_json(hits: &Vec<SearchHit<'_>>) -> (j: Json)
    ensures
        j@ == hits_json(hits@),
{
    let ghost want = hits@.map_values(|h: SearchHit<'_>| hit_json(h));
    let mut items: Vec<Json> = Vec::new();
    let mut i: usize = 0;
    while i < hits.len()
        invariant
            i <= hits@.len(),
            items@.len() == i,
            forall|k: int| 0 <= k < i ==> json::json_view(#[trigger] items@[k]) == hit_json(hits@[k]),
        decreases hits@.len() - i,
    {
        items.push(hit_to_json(&hits[i]));
        i += 1;
    }
    assert(json::items_view(items@) =~= want);
    Json::Array(items)
}

/// Records of repositories, in their order.
pub(crate) fn records_to_json(repos: &Vec<&Repo>) -> (j: Json)
    ensures
        j@ == records_json(repos@),
{
    let ghost want = repos@.map_values(|r: &Repo| repo::record(*r));
    let mut items: Vec<Json> = Vec::new();
    let mut i: usize = 0;
    while i < repos.len()
        invariant
            i <= repos@.len(),
            items@.len() == i,
            forall|k: int| 0 <= k < i ==> json::json_view(#[trigger] items@[k]) == repo::record(*repos@[k]),
        decreases repos@.len() - i,
    {
        items.push(repos[i].to_json());
        i += 1;
    }
    assert(json::items_view(items@) =~= want);
    Json::Array(items)
}

// ---------------------------------------------------------------------------
// What holds of all that is shown
// ---------------------------------------------------------------------------
/// The statistics show under each key what was read for it: the count, and the time
/// and the count of the last sync; zero and `null` where there is none or reading
/// failed.
pub proof fn stats_show_what_was_read(reads: StoreReads)
    ensures
        stats_json(reads).get("cached"@) == Some(
            JsonView::Unsigned(
                match reads.count {
                    Ok(n) => n as u64,
                    Err(_) => 0,
                },
            ),
        ),
        stats_json(reads).get("last_sync"@) == Some(
            match reads.last_sync {
                Ok(Some(s)) => JsonView::Str(s@),
                _ => JsonView::Null,
            },
        ),
        stats_json(reads).get("last_sync_count"@) == Some(
            match reads.last_sync_count {
                Ok(Some(s)) => JsonView::Str(s@),
                _ => JsonView::Null,
            },
        ),
{
    reveal_strlit("cached");
    reveal_strlit("last_sync");
    reveal_strlit("last_sync_count");
    assert("cached"@.len() == 6 && "last_sync"@.len() == 9 && "last_sync_count"@.len() == 15);
}

/// The statistics of a snapshot show how many repositories it holds, and what its
/// metadata hold under the keys of the last sync.
pub proof fn stats_show_the_snapshot(txn: redb::ReadTransaction)
    ensures
        store::repos_in(txn).dom().len() <= u32::MAX ==> stats_in(txn).get("cached"@) == Some(
            JsonView::Unsigned(store::repos_in(txn).dom().len() as u64),
        ),
        store::meta_in(txn).contains_key("last_sync"@) ==> stats_in(txn).get("last_sync"@) == Some(
            JsonView::Str(store::meta_in(txn)["last_sync"@]),
        ),
        !store::meta_in(txn).contains_key("last_sync"@) ==> stats_in(txn).get("last_sync"@) == Some(JsonView::Null),
        store::meta_in(txn).contains_key("last_sync_count"@) ==> stats_in(txn).get("last_sync_count"@) == Some(
            JsonView::Str(store::meta_in(txn)["last_sync_count"@]),
        ),
        !store::meta_in(txn).contains_key("last_sync_count"@) ==> stats_in(txn).get("last_sync_count"@) == Some(JsonView::Null),
{
    reveal_strlit("cached");
    reveal_strlit("last_sync");
    reveal_strlit("last_sync_count");
    assert("cached"@.len() == 6 && "last_sync"@.len() == 9 && "last_sync_count"@.len() == 15);
}

/// A hit shows under each key what its name says of the repository, and its score.
pub proof fn hit_shows_its_repository(h: SearchHit<'_>)
    ensures
        hit_json(h).get("score"@) == Some(json::number_view(h.score.number)),
        hit_json(h).get("full_name"@) == Some(JsonView::Str(h.repo.full_name@)),
        hit_json(h).get("description"@) == Some(repo::text_or_null(h.repo.description)),
        hit_json(h).get("language"@) == Some(repo::text_or_null(h.repo.language)),
        hit_json(h).get("stars"@) == Some(JsonView::Unsigned(h.repo.stargazers_count)),
        hit_json(h).get("url"@) == Some(JsonView::Str(h.repo.url@)),
        hit_json(h).get("topics"@) is Some && hit_json(h).get("topics"@)->0 is Array,
        hit_json(h).get("topics"@)->0->Array_0.len() == h.repo.topics@.len(),
        forall|i: int|
            0 <= i < h.repo.topics@.len() ==> #[trigger] hit_json(h).get("topics"@)->0->Array_0[i] == JsonView::Str(
                h.repo.topics@[i]@,
            ),
{
    reveal_strlit("score");
    reveal_strlit("full_name");
    reveal_strlit("description");
    reveal_strlit("language");
    reveal_strlit("stars");
    reveal_strlit("topics");
    reveal_strlit("url");
    assert("score"@.len() == 5 && "full_name"@.len() == 9 && "description"@.len() == 11 && "language"@.len() == 8);
    assert("stars"@.len() == 5 && "topics"@.len() == 6 && "url"@.len() == 3);
    assert("score"@[1] != "stars"@[1]);
    assert forall|i: int| 0 <= i < h.repo.topics@.len() implies #[trigger] hit_json(h).get("topics"@)->0->Array_0[i]
        == JsonView::Str(h.repo.topics@[i]@) by {
        assert(text::texts(h.repo.topics@)[i] == h.repo.topics@[i]@);
    }
}

/// Hits and listings show one item for each, in their order.
pub proof fn shown_in_their_order(hits: Seq<SearchHit<'_>>, repos: Seq<&Repo>, i: int)
    ensures
        hits_json(hits) is Array && hits_json(hits)->Array_0.len() == hits.len(),
        0 <= i < hits.len() ==> hits_json(hits)->Array_0[i] == hit_json(hits[i]),
        records_json(repos) is Array && records_json(repos)->Array_0.len() == repos.len(),
        0 <= i < repos.len() ==> records_json(repos)->Array_0[i] == repo::record(*repos[i]),
{
}

/// Whether an item shows a repository: under each key stands what its name says.
pub open spec fn shows(item: JsonView, r: Repo) -> bool {
    &&& item.get("full_name"@) == Some(JsonView::Str(r.full_name@))
    &&& item.get("url"@) == Some(JsonView::Str(r.url@))
    &&& item.get("stars"@) == Some(JsonView::Unsigned(r.stargazers_count))
    &&& item.get("description"@) == Some(repo::text_or_null(r.description))
    &&& item.get("language"@) == Some(repo::text_or_null(r.language))
    &&& item.get("topics"@) is Some && item.get("topics"@)->0 is Array
    &&& item.get("topics"@)->0->Array_0.len() == r.topics@.len()
    &&& forall|i: int|
        0 <= i < r.topics@.len() ==> #[trigger] item.get("topics"@)->0->Array_0[i] == JsonView::Str(r.topics@[i]@)
}

/// Whether an item shows a topic, but for case.
pub open spec fn shows_topic(item: JsonView, topic: Seq<char>) -> bool {
    exists|i: int|
        0 <= i < item.get("topics"@)->0->Array_0.len() && (#[trigger] item.get("topics"@)->0->Array_0[i]) is Str && text::lowercase(
            item.get("topics"@)->0->Array_0[i]->Str_0,
        ) == text::lowercase(topic)
}

/// Whether an item shows a language, but for case; none is as good as the empty one.
pub open spec fn shows_language(item: JsonView, lang: Seq<char>) -> bool {
    text::lowercase(lang) == match item.get("language"@) {
        Some(JsonView::Str(l)) => text::lowercase(l),
        _ => Seq::empty(),
    }
}

/// Whether an item shows what a search is for: a repository that is wanted, with the
/// topic and the language that were asked for.
pub open spec fn shows_a_wanted(
    item: JsonView,
    records: Seq<IndexedRepo>,
    query: Seq<char>,
    lang: Option<Seq<char>>,
    topic: Option<Seq<char>>,
) -> bool {
    &&& topic is Some ==> shows_topic(item, topic->0)
    &&& lang is Some ==> shows_language(item, lang->0)
    &&& exists|at: int| #[trigger] index::wanted_at(records, query, lang, topic).contains(at) && shows(item, records[at].repo)
}

/// The hits of a search show what it is for, and as many as the limit allows.
pub proof fn hits_show_the_wanted(
    hits: Seq<SearchHit<'_>>,
    records: Seq<IndexedRepo>,
    query: Seq<char>,
    lang: Option<Seq<char>>,
    topic: Option<Seq<char>>,
    limit: nat,
)
    requires
        records.len() <= usize::MAX,
        index::top_hits(hits, records, index::asked(query, lang, topic), limit),
    ensures
        hits_json(hits) is Array,
        forall|i: int|
            0 <= i < hits.len() ==> shows_a_wanted(#[trigger] hits_json(hits)->Array_0[i], records, query, lang, topic),
        hits_json(hits)->Array_0.len() == hits.len(),
        limit < index::wanted_at(records, query, lang, topic).len() ==> hits.len() == limit,
        limit >= index::wanted_at(records, query, lang, topic).len() ==> hits.len() == index::wanted_at(
            records,
            query,
            lang,
            topic,
        ).len(),
{
    index::search_shows_the_wanted(hits, records, query, lang, topic, limit);
    let items = hits_json(hits)->Array_0;
    let want = index::wanted_at(records, query, lang, topic);
    assert forall|i: int| 0 <= i < hits.len() implies shows_a_wanted(
        #[trigger] hits_json(hits)->Array_0[i],
        records,
        query,
        lang,
        topic,
    ) by {
        let h = hits[i];
        let r = *h.repo;
        hit_shows_its_repository(h);
        assert(items[i] == hit_json(h));
        assert(index::wanted(r, query, lang, topic));
        let at = choose|at: int| #![trigger records[at]] 0 <= at < records.len() && index::is_hit_of(hits[i], records[at], query);
        assert(want.contains(at));
        assert(shows(items[i], records[at].repo));
        if let Some(t) = topic {
            let j = choose|j: int|
                0 <= j < r.topics@.len() && text::lowercase((#[trigger] r.topics@[j])@) == text::lowercase(t);
            assert(items[i].get("topics"@)->0->Array_0[j] == JsonView::Str(r.topics@[j]@));
            assert(shows_topic(items[i], t));
        }
    }
}

/// Whether some items are the records of the most starred repositories, in their
/// order: as many as the limit allows, no repository twice, and none with fewer
/// stars before one with more.
pub open spec fn show_the_most_starred(items: Seq<JsonView>, records: Seq<IndexedRepo>, limit: nat, at: Seq<int>) -> bool {
    &&& items.len() == at.len()
    &&& limit < records.len() ==> items.len() == limit
    &&& limit >= records.len() ==> items.len() == records.len()
    &&& forall|i: int| 0 <= i < at.len() ==> 0 <= #[trigger] at[i] < records.len() && items[i] == repo::record(records[at[i]].repo)
    &&& forall|i: int, j: int|
        0 <= i < j < at.len() ==> #[trigger] at[i] != #[trigger] at[j] && records[at[i]].repo.stargazers_count
            >= records[at[j]].repo.stargazers_count
    &&& forall|b: int, j: int|
        0 <= b < records.len() && 0 <= j < at.len() && ((#[trigger] records[b]).repo.stargazers_count
            > records[at[j]].repo.stargazers_count || (records[b].repo.stargazers_count
            == records[at[j]].repo.stargazers_count && b < #[trigger] at[j])) ==> exists|i: int| 0 <= i < j && #[trigger] at[i] == b
}

/// A listing shows the records of the most starred repositories.
pub proof fn listing_shows_records(shown: Seq<&Repo>, records: Seq<IndexedRepo>, limit: nat) -> (at: Seq<int>)
    requires
        records.len() <= usize::MAX,
        listing::top_starred(shown, records, limit),
    ensures
        records_json(shown) is Array,
        show_the_most_starred(records_json(shown)->Array_0, records, limit, at),
{
    let at = listing::listing_shows_the_most_starred(shown, limit, records);
    listing::listing_is_complete(shown, limit, records);
    let items = records_json(shown)->Array_0;
    assert forall|i: int| 0 <= i < at.len() implies 0 <= #[trigger] at[i] < records.len() && items[i] == repo::record(
        records[at[i]].repo,
    ) by {
        assert(*shown[i] == records[at[i]].repo);
    }
    assert forall|i: int, j: int| 0 <= i < j < at.len() implies #[trigger] at[i] != #[trigger] at[j]
        && records[at[i]].repo.stargazers_count >= records[at[j]].repo.stargazers_count by {
        assert(shown[i].stargazers_count >= shown[j].stargazers_count);
    }
    at
}

/// After a sync the statistics show its time and its count.
pub proof fn stats_show_the_sync(txn: redb::ReadTransaction, before: Map<Seq<char>, Seq<char>>, at: Seq<char>, n: usize)
    requires
        store::meta_in(txn) == store::synced(before, at, n as nat),
    ensures
        stats_in(txn).get("last_sync"@) == Some(JsonView::Str(at)),
        stats_in(txn).get("last_sync_count"@) == Some(JsonView::Str(text::decimal(n as nat))),
{
    store::sync_is_recorded(before, at, n);
    reveal_strlit("last_sync");
    reveal_strlit("last_sync_count");
    assert("last_sync"@.len() != "last_sync_count"@.len());
}

} // verus!

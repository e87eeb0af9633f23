//! The search index: which repositories a query finds, how strongly, and in
//! what order they are shown.

use crate::cache::MatchCache;
use crate::cache::QueryKey;
use crate::cache;
use crate::repo::Repo;
use crate::text;
use rayon::iter::IntoParallelIterator;
use rayon::iter::ParallelIterator;
use rayon::slice::ParallelSliceMut;
use std::cmp::Ordering;
use vstd::prelude::*;
use vstd::rwlock::RwLock;
use vstd::rwlock::RwLockPredicate;

verus! {

// ---------------------------------------------------------------------------
// What is taken from rayon
// ---------------------------------------------------------------------------
/// `rayon`'s `into_par_iter().map(f).collect()` on a `Vec` applies `f` to every
/// item, on several threads at once, and gives the results in the order of the
/// items.
#[verifier::external_body]
fn par_map<T: Send, U: Send, F: Fn(T) -> U + Sync + Send>(items: Vec<T>, f: F) -> (out: Vec<U>)
    requires
        forall|i: int| 0 <= i < items@.len() ==> call_requires(f, (#[trigger] items@[i],)),
    ensures
        out@.len() == items@.len(),
        forall|i: int| 0 <= i < items@.len() ==> call_ensures(f, (items@[i],), #[trigger] out@[i]),
{
    items.into_par_iter().map(f).collect()
}

/// `rayon`'s `par_sort_unstable_by` sorts in place by the given order, here that
/// of [`hit_order`]: the items stay the same, and none comes before an earlier
/// one. Where two items are equal in that order, which comes first is left
/// open.
#[verifier::external_body]
fn par_sort<'a>(hits: Vec<SearchHit<'a>>) -> (sorted: Vec<SearchHit<'a>>)
    ensures
        sorted@.to_multiset() == hits@.to_multiset(),
        ranked(sorted@),
{
    let mut sorted = hits;
    sorted.par_sort_unstable_by(|a, b| hit_order(a, b));
    sorted
}

// ---------------------------------------------------------------------------
// Which repositories a query finds
// ---------------------------------------------------------------------------
/// The lowercase form of an optional text; empty where there is none.
pub open spec fn lowered(s: Option<String>) -> Seq<char> {
    text::lowercase(text::text_or_empty(text::opt_text(s)))
}

/// The topics of a repository in lowercase.
pub open spec fn lower_topics(r: Repo) -> Seq<Seq<char>> {
    text::texts(r.topics@).map_values(|t: Seq<char>| text::lowercase(t))
}

/// The topics of a repository in lowercase, as one text.
pub open spec fn topics_text(r: Repo) -> Seq<char> {
    text::joined(lower_topics(r), " "@)
}

/// Whether `q` occurs in the full name.
pub open spec fn in_name(r: Repo, q: Seq<char>) -> bool {
    text::occurs_in(q, text::lowercase(r.full_name@))
}

/// Whether `q` occurs in the description.
pub open spec fn in_description(r: Repo, q: Seq<char>) -> bool {
    text::occurs_in(q, lowered(r.description))
}

/// Whether `q` occurs in the topics.
pub open spec fn in_topics(r: Repo, q: Seq<char>) -> bool {
    text::occurs_in(q, topics_text(r))
}

/// Whether `q` occurs in the language.
pub open spec fn in_language(r: Repo, q: Seq<char>) -> bool {
    text::occurs_in(q, lowered(r.language))
}

/// Whether there is a README and `q` occurs in it.
pub open spec fn in_readme(r: Repo, q: Seq<char>) -> bool {
    lowered(r.readme).len() > 0 && text::occurs_in(q, lowered(r.readme))
}

/// Whether a lowercase query matches a repository: it is empty, or it occurs
/// in one of the fields.
pub open spec fn found_in(r: Repo, q: Seq<char>) -> bool {
    ||| q.len() == 0
    ||| in_name(r, q)
    ||| in_description(r, q)
    ||| in_topics(r, q)
    ||| in_language(r, q)
    ||| in_readme(r, q)
}

/// How strongly a lowercase query matches a repository: a hit in the name
/// counts three, in the description or the topics two, in the language or the
/// README one.
pub open spec fn weight(r: Repo, q: Seq<char>) -> int {
    let name: int = if in_name(r, q) { 3 } else { 0 };
    let description: int = if in_description(r, q) { 2 } else { 0 };
    let topics: int = if in_topics(r, q) { 2 } else { 0 };
    let language: int = if in_language(r, q) { 1 } else { 0 };
    let readme: int = if in_readme(r, q) { 1 } else { 0 };
    name + description + topics + language + readme
}

/// The lowercase form of an optional text that may be missing.
pub open spec fn opt_lowercase(s: Option<Seq<char>>) -> Option<Seq<char>> {
    match s {
        Some(t) => Some(text::lowercase(t)),
        None => None,
    }
}

/// The query, language and topic of a search in lowercase.
pub open spec fn asked(query: Seq<char>, lang: Option<Seq<char>>, topic: Option<Seq<char>>) -> cache::QueryView {
    (text::lowercase(query), opt_lowercase(lang), opt_lowercase(topic))
}

/// Whether a repository answers a search, all in lowercase: the query matches,
/// the language is the one asked for, and so is one of the topics.
pub open spec fn answers(r: Repo, k: cache::QueryView) -> bool {
    &&& found_in(r, k.0)
    &&& match k.1 {
        Some(l) => lowered(r.language) == l,
        None => true,
    }
    &&& match k.2 {
        Some(t) => lower_topics(r).contains(t),
        None => true,
    }
}

/// The positions of the repositories that answer a search, in rising order.
pub open spec fn matching(records: Seq<IndexedRepo>, k: cache::QueryView) -> Seq<usize>
    decreases records.len(),
{
    if records.len() == 0 {
        Seq::empty()
    } else {
        let rest = matching(records.drop_last(), k);
        if answers(records.last().repo, k) {
            rest.push((records.len() - 1) as usize)
        } else {
            rest
        }
    }
}

/// A query matches a repository exactly where it has weight, and the weight is at
/// most nine.
pub proof fn found_where_weighed(r: Repo, q: Seq<char>)
    ensures
        0 <= weight(r, q) <= 9,
        found_in(r, q) <==> weight(r, q) > 0,
{
    if q.len() == 0 {
        let name = text::lowercase(r.full_name@);
        assert(name.subrange(0, 0) =~= q);
        assert(text::stands_at(q, name, 0));
    }
}

/// A hit in the name weighs more than one in the description or the topics,
/// and that more than one in the language or the README.
pub proof fn name_weighs_most(a: Repo, b: Repo, c: Repo, q: Seq<char>)
    requires
        in_name(a, q),
        !in_name(b, q) && (in_description(b, q) != in_topics(b, q)) && !in_language(b, q) && !in_readme(b, q),
        !in_name(c, q) && !in_description(c, q) && !in_topics(c, q) && (in_language(c, q) != in_readme(c, q)),
    ensures
        weight(a, q) > weight(b, q) > weight(c, q) > 0,
{
}

/// The case of the query, of the language and of the topic makes no
/// difference.
pub proof fn case_makes_no_difference(
    records: Seq<IndexedRepo>,
    query: Seq<char>,
    lang: Option<Seq<char>>,
    topic: Option<Seq<char>>,
    query2: Seq<char>,
    lang2: Option<Seq<char>>,
    topic2: Option<Seq<char>>,
)
    requires
        text::lowercase(query) == text::lowercase(query2),
        opt_lowercase(lang) == opt_lowercase(lang2),
        opt_lowercase(topic) == opt_lowercase(topic2),
    ensures
        matching(records, asked(query, lang, topic)) == matching(records, asked(query2, lang2, topic2)),
{
}

/// The positions that match are those of the repositories that answer the
/// search, each once and in rising order.
pub proof fn matching_is_exact(records: Seq<IndexedRepo>, k: cache::QueryView)
    requires
        records.len() <= usize::MAX,
    ensures
        matching(records, k).len() <= records.len(),
        forall|i: int| 0 <= i < matching(records, k).len() ==> {
            let at = #[trigger] matching(records, k)[i];
            at < records.len() && answers(records[at as int].repo, k)
        },
        forall|i: int, j: int|
            0 <= i < j < matching(records, k).len() ==> #[trigger] matching(records, k)[i]
                < #[trigger] matching(records, k)[j],
        forall|at: int|
            0 <= at < records.len() && answers((#[trigger] records[at]).repo, k) ==> matching(records, k).contains(
                at as usize,
            ),
    decreases records.len(),
{
    if records.len() > 0 {
        let before = records.drop_last();
        let m = matching(before, k);
        let all = matching(records, k);
        matching_is_exact(before, k);
        assert forall|at: int| 0 <= at < records.len() && answers((#[trigger] records[at]).repo, k) implies all.contains(
            at as usize,
        ) by {
            if at < before.len() {
                assert(before[at] == records[at]);
                assert(m.contains(at as usize));
                let i = choose|i: int| 0 <= i < m.len() && m[i] == at as usize;
                assert(all[i] == at as usize);
            } else {
                assert(all[all.len() - 1] == at as usize);
            }
        }
        assert forall|i: int| 0 <= i < all.len() implies {
            let at = #[trigger] all[i];
            at < records.len() && answers(records[at as int].repo, k)
        } by {
            if i < m.len() {
                assert(all[i] == m[i]);
                assert(before[m[i] as int] == records[m[i] as int]);
            }
        }
    }
}

/// An empty query without a language or a topic finds every repository.
pub proof fn empty_query_finds_all(records: Seq<IndexedRepo>)
    requires
        records.len() <= usize::MAX,
    ensures
        matching(records, (Seq::empty(), None, None)).len() == records.len(),
    decreases records.len(),
{
    if records.len() > 0 {
        empty_query_finds_all(records.drop_last());
    }
}

// ---------------------------------------------------------------------------
// One repository
// ---------------------------------------------------------------------------
/// A score: the product of the weight of a hit and log(stars + 1).
///
/// The number itself is carried through for display; `rank` grows with it and
/// is what scores are compared by.
#[derive(Debug, Clone, PartialEq)]
pub struct Score {
    pub rank: u64,
    pub number: serde_json::Number,
}

/// Precomputed search-friendly view of a [`Repo`].
///
/// Every string field we search on is lowercased exactly once at index
/// construction time, so repeated queries don't re-allocate. The index also
/// caches a joined topics string and the score that each weight stands for.
#[derive(Debug, Clone)]
pub struct IndexedRepo {
    pub repo: Repo,
    pub full_name_lc: String,
    pub description_lc: String,
    pub language_lc: String,
    pub topics_lc: String,
    pub readme_lc: String,
    pub topics_lower: Vec<String>,
    /// The score of a hit of each weight.
    pub scores: [Score; 10],
}

/// The lowercase form of an optional text; empty where there is none.
fn lower(s: &Option<String>) -> (t: String)
    ensures
        t@ == lowered(*s),
{
    match s {
        Some(t) => text::to_lowercase(t.as_str()),
        None => {
            let t = String::new();
            assert(t@ =~= lowered(*s));
            t
        },
    }
}

/// The lowercase forms of some texts.
fn lower_all(strings: &Vec<String>) -> (out: Vec<String>)
    ensures
        text::texts(out@) == text::texts(strings@).map_values(|t: Seq<char>| text::lowercase(t)),
{
    let ghost want = text::texts(strings@).map_values(|t: Seq<char>| text::lowercase(t));
    let mut out: Vec<String> = Vec::new();
    let mut i: usize = 0;
    while i < strings.len()
        invariant
            i <= strings@.len(),
            out@.len() == i,
            forall|k: int| 0 <= k < i ==> (#[trigger] out@[k])@ == text::lowercase(strings@[k]@),
        decreases strings@.len() - i,
    {
        out.push(text::to_lowercase(strings[i].as_str()));
        i += 1;
    }
    assert(text::texts(out@) =~= want);
    out
}

impl IndexedRepo {
    /// The lowercase texts are those of the repository.
    pub open spec fn wf(&self) -> bool {
        &&& self.full_name_lc@ == text::lowercase(self.repo.full_name@)
        &&& self.description_lc@ == lowered(self.repo.description)
        &&& self.language_lc@ == lowered(self.repo.language)
        &&& text::texts(self.topics_lower@) == lower_topics(self.repo)
        &&& self.topics_lc@ == topics_text(self.repo)
        &&& self.readme_lc@ == lowered(self.repo.readme)
    }

    /// Prepare a repository for searching; `scores` holds its score for a hit
    /// of each weight.
    pub fn new(repo: Repo, scores: [Score; 10]) -> (ir: IndexedRepo)
        ensures
            ir.wf(),
            ir.repo == repo,
            ir.scores == scores,
    {
        let full_name_lc = text::to_lowercase(repo.full_name.as_str());
        let description_lc = lower(&repo.description);
        let language_lc = lower(&repo.language);
        let topics_lower = lower_all(&repo.topics);
        let topics_lc = text::join(&topics_lower, " ");
        let readme_lc = lower(&repo.readme);
        IndexedRepo {
            repo,
            full_name_lc,
            description_lc,
            language_lc,
            topics_lc,
            readme_lc,
            topics_lower,
            scores,
        }
    }

    /// Weighted hit score for `q_lc` against this indexed repo.
    /// `q_lc` MUST already be lowercased.
    ///
    /// Weight order (strongest first):
    ///   - full_name hit: +3
    ///   - description hit: +2
    ///   - topics hit: +2
    ///   - language hit: +1
    ///   - readme hit: +1
    ///
    /// README hits carry the lowest weight because README text is long
    /// and a single substring match there is weaker evidence than the
    /// same substring in the curated name / description / topics.
    pub fn score(&self, q_lc: &str) -> (score: &Score)
        requires
            self.wf(),
        ensures
            *score == self.scores[weight(self.repo, q_lc@)],
    {
        let mut c: usize = 0;
        if text::contains(self.full_name_lc.as_str(), q_lc) {
            c += 3;
        }
        if text::contains(self.description_lc.as_str(), q_lc) {
            c += 2;
        }
        if text::contains(self.topics_lc.as_str(), q_lc) {
            c += 2;
        }
        if text::contains(self.language_lc.as_str(), q_lc) {
            c += 1;
        }
        if self.readme_lc.as_str().unicode_len() > 0 && text::contains(self.readme_lc.as_str(), q_lc) {
            c += 1;
        }
        &self.scores[c]
    }

    /// True if any searchable field contains `q_lc` as a substring, or `q_lc`
    /// is empty.
    pub fn matches(&self, q_lc: &str) -> (yes: bool)
        requires
            self.wf(),
        ensures
            yes == found_in(self.repo, q_lc@),
    {
        if q_lc.unicode_len() == 0 {
            return true;
        }
        text::contains(self.full_name_lc.as_str(), q_lc) || text::contains(self.description_lc.as_str(), q_lc)
            || text::contains(self.topics_lc.as_str(), q_lc) || text::contains(self.language_lc.as_str(), q_lc) || (
        self.readme_lc.as_str().unicode_len() > 0 && text::contains(self.readme_lc.as_str(), q_lc))
    }

    /// True if the repository matches the query and has the language and the
    /// topic of `key`.
    pub fn answers(&self, key: &SearchKey) -> (yes: bool)
        requires
            self.wf(),
        ensures
            yes == answers(self.repo, key@),
    {
        if !self.matches(key.query_lc.as_str()) {
            return false;
        }
        if let Some(l) = &key.lang_lc {
            if self.language_lc != *l {
                return false;
            }
        }
        match &key.topic {
            Some(t) => self.has_topic(t.as_str()),
            None => true,
        }
    }

    /// True if `topic` is one of the lowercased topics.
    fn has_topic(&self, topic: &str) -> (yes: bool)
        requires
            self.wf(),
        ensures
            yes == lower_topics(self.repo).contains(topic@),
    {
        let ghost all = lower_topics(self.repo);
        let mut i: usize = 0;
        while i < self.topics_lower.len()
            invariant
                i <= self.topics_lower@.len(),
                all == text::texts(self.topics_lower@),
                all == lower_topics(self.repo),
                forall|k: int| 0 <= k < i ==> all[k] != topic@,
            decreases self.topics_lower@.len() - i,
        {
            assert(all[i as int] == self.topics_lower@[i as int]@);
            if *self.topics_lower[i].as_str() == *topic {
                return true;
            }
            i += 1;
        }
        false
    }
}

/// Search parameters in lowercase, by which matches are remembered.
#[derive(Debug, Clone, Hash, PartialEq, Eq)]
pub struct SearchKey {
    pub query_lc: String,
    pub lang_lc: Option<String>,
    pub topic: Option<String>,
}

impl View for SearchKey {
    type V = cache::QueryView;

    open spec fn view(&self) -> cache::QueryView {
        (self.query_lc@, text::opt_text(self.lang_lc), text::opt_text(self.topic))
    }
}

/// The lowercase form of an optional text that may be missing.
fn opt_lower(s: Option<&str>) -> (t: Option<String>)
    ensures
        text::opt_text(t) == opt_lowercase(text::opt_str(s)),
{
    match s {
        Some(t) => Some(text::to_lowercase(t)),
        None => None,
    }
}

/// A copy of an optional text.
fn opt_copy(s: &Option<String>) -> (t: Option<String>)
    ensures
        text::opt_text(t) == text::opt_text(*s),
{
    match s {
        Some(t) => Some(t.clone()),
        None => None,
    }
}

impl SearchKey {
    /// The key of a search.
    pub fn new(query: &str, lang: Option<&str>, topic: Option<&str>) -> (key: SearchKey)
        ensures
            key@ == asked(query@, text::opt_str(lang), text::opt_str(topic)),
    {
        SearchKey {
            query_lc: text::to_lowercase(query),
            lang_lc: opt_lower(lang),
            topic: opt_lower(topic),
        }
    }

    /// The key in the form that the cache is indexed by.
    fn cache_key(&self) -> (key: QueryKey)
        ensures
            cache::key_view(key) == self@,
    {
        (self.query_lc.clone(), opt_copy(&self.lang_lc), opt_copy(&self.topic))
    }
}

// ---------------------------------------------------------------------------
// In what order hits are shown
// ---------------------------------------------------------------------------
/// A search result: the matching repo plus its score (higher is better).
#[derive(Debug, Clone, PartialEq)]
pub struct SearchHit<'a> {
    pub repo: &'a Repo,
    pub score: &'a Score,
}

/// Whether a hit may come before another: it has the higher score, or the same
/// score and more stars, or the same of both and a name no later in the
/// alphabet.
pub open spec fn hit_le(a: SearchHit<'_>, b: SearchHit<'_>) -> bool {
    if a.score.rank != b.score.rank {
        a.score.rank > b.score.rank
    } else if a.repo.stargazers_count != b.repo.stargazers_count {
        a.repo.stargazers_count > b.repo.stargazers_count
    } else {
        text::text_le(a.repo.full_name@, b.repo.full_name@)
    }
}

/// Whether no hit comes before one that has to precede it.
pub open spec fn ranked(hits: Seq<SearchHit<'_>>) -> bool {
    forall|i: int, j: int| 0 <= i < j < hits.len() ==> hit_le(#[trigger] hits[i], #[trigger] hits[j])
}

/// Order of two hits: score descending, then stars descending, then name.
pub fn hit_order(a: &SearchHit<'_>, b: &SearchHit<'_>) -> (order: Ordering)
    ensures
        order == (if !hit_le(*b, *a) {
            Ordering::Less
        } else if !hit_le(*a, *b) {
            Ordering::Greater
        } else {
            Ordering::Equal
        }),
{
    proof {
        text::text_order_is_total(a.repo.full_name@, b.repo.full_name@);
    }
    if a.score.rank > b.score.rank {
        Ordering::Less
    } else if a.score.rank < b.score.rank {
        Ordering::Greater
    } else if a.repo.stargazers_count > b.repo.stargazers_count {
        Ordering::Less
    } else if a.repo.stargazers_count < b.repo.stargazers_count {
        Ordering::Greater
    } else {
        text::text_order(a.repo.full_name.as_str(), b.repo.full_name.as_str())
    }
}

/// The order of hits is total and transitive, and two hits that may each come
/// before the other have the same score, stars and name.
pub proof fn hit_order_is_total(a: SearchHit<'_>, b: SearchHit<'_>, c: SearchHit<'_>)
    ensures
        hit_le(a, a),
        hit_le(a, b) || hit_le(b, a),
        hit_le(a, b) && hit_le(b, c) ==> hit_le(a, c),
        hit_le(a, b) && hit_le(b, a) ==> a.score.rank == b.score.rank && a.repo.stargazers_count
            == b.repo.stargazers_count && a.repo.full_name@ == b.repo.full_name@,
{
    text::text_order_is_total(a.repo.full_name@, b.repo.full_name@);
    text::text_order_is_total(a.repo.full_name@, a.repo.full_name@);
    if text::text_le(a.repo.full_name@, b.repo.full_name@) && text::text_le(b.repo.full_name@, c.repo.full_name@) {
        text::text_order_is_transitive(a.repo.full_name@, b.repo.full_name@, c.repo.full_name@);
    }
}

/// The hits of a search in the order in which the repositories are indexed.
pub open spec fn hits_of<'a>(records: Seq<IndexedRepo>, k: cache::QueryView) -> Seq<SearchHit<'a>> {
    matching(records, k).map_values(|i: usize| hit_at(records, i, k.0))
}

/// The hit of the repository at a position.
pub open spec fn hit_at<'a>(records: Seq<IndexedRepo>, i: usize, q: Seq<char>) -> SearchHit<'a> {
    let ir = records[i as int];
    SearchHit { repo: &ir.repo, score: &ir.scores[weight(ir.repo, q)] }
}

/// Whether `shown` is what a search shows: the first `limit` of its hits once
/// they are ranked.
pub open spec fn top_hits(shown: Seq<SearchHit<'_>>, records: Seq<IndexedRepo>, k: cache::QueryView, limit: nat) -> bool {
    exists|all: Seq<SearchHit<'_>>| #[trigger] ranking(all, records, k) && shown == first(all, limit)
}

/// Whether `all` are the hits of a search in ranked order.
pub open spec fn ranking(all: Seq<SearchHit<'_>>, records: Seq<IndexedRepo>, k: cache::QueryView) -> bool {
    &&& all.to_multiset() == hits_of(records, k).to_multiset()
    &&& ranked(all)
}

/// The first `limit` items, or all where there are no more.
pub open spec fn first<A>(items: Seq<A>, limit: nat) -> Seq<A> {
    if limit < items.len() {
        items.take(limit as int)
    } else {
        items
    }
}

/// Whether no two repositories have one full name.
pub open spec fn names_differ(records: Seq<IndexedRepo>) -> bool {
    forall|i: int, j: int|
        0 <= i < j < records.len() ==> (#[trigger] records[i]).repo.full_name@ != (#[trigger] records[j]).repo.full_name@
}

// ---------------------------------------------------------------------------
// The index
// ---------------------------------------------------------------------------
/// What the query cache of an index may hold: the matches of a query are those
/// that a search without a cache would find.
pub struct Fresh {
    pub records: Ghost<Seq<IndexedRepo>>,
}

impl RwLockPredicate<MatchCache> for Fresh {
    open spec fn inv(self, cache: MatchCache) -> bool {
        &&& cache.wf()
        &&& all_fresh(cache@, self.records@)
    }
}

/// Whether all that is remembered is what a search would find.
pub open spec fn all_fresh(entries: Seq<cache::Entry>, records: Seq<IndexedRepo>) -> bool {
    forall|i: int| 0 <= i < entries.len() ==> (#[trigger] entries[i]).1 == matching(records, entries[i].0)
}

/// What is remembered once a search was looked up: it is the most recently used,
/// and new where it was not remembered before.
pub open spec fn after_lookup(entries: Seq<cache::Entry>, records: Seq<IndexedRepo>, k: cache::QueryView) -> Seq<cache::Entry> {
    match cache::recalled(entries, k) {
        Some(_) => cache::after_recall(entries, k),
        None => cache::after_record(entries, cache::CACHE_CAPACITY as nat, k, matching(records, k)),
    }
}

/// What is remembered once these searches were looked up, one after the other, in
/// a cache that remembered nothing.
pub open spec fn after_lookups(records: Seq<IndexedRepo>, keys: Seq<cache::QueryView>) -> Seq<cache::Entry>
    decreases keys.len(),
{
    if keys.len() == 0 {
        Seq::empty()
    } else {
        after_lookup(after_lookups(records, keys.drop_last()), records, keys.last())
    }
}

/// A searchable, rayon-ready corpus of starred repos with an LRU query cache.
pub struct RepoIndex {
    repos: Vec<IndexedRepo>,
    cache: RwLock<MatchCache, Fresh>,
}

impl View for RepoIndex {
    type V = Seq<IndexedRepo>;

    closed spec fn view(&self) -> Seq<IndexedRepo> {
        self.repos@
    }
}

/// What a cache of fresh matches recalls is fresh, and it stays one.
proof fn lemma_stays_fresh(entries: Seq<cache::Entry>, records: Seq<IndexedRepo>, k: cache::QueryView)
    requires
        all_fresh(entries, records),
    ensures
        cache::recalled(entries, k) is Some ==> cache::recalled(entries, k) == Some(matching(records, k)),
        all_fresh(cache::after_recall(entries, k), records),
        all_fresh(cache::after_record(entries, cache::CACHE_CAPACITY as nat, k, matching(records, k)), records),
{
    cache::entry_is_found(entries, k);
    let rest = cache::without(entries, k);
    let at = cache::entry_position(entries, k);
    assert forall|i: int| 0 <= i < rest.len() implies (#[trigger] rest[i]).1 == matching(records, rest[i].0) by {
        if at < entries.len() {
            assert(rest[i] == entries[if i < at { i } else { i + 1 }]);
        }
    }
}

impl RepoIndex {
    #[verifier::type_invariant]
    spec fn inv(self) -> bool {
        &&& forall|i: int| 0 <= i < self.repos@.len() ==> (#[trigger] self.repos@[i]).wf()
        &&& self.cache.pred().records@ == self.repos@
    }

    /// Build an index from a vector of repos, each with its scores. Lowercasing
    /// happens in parallel.
    pub fn new(repos: Vec<(Repo, [Score; 10])>) -> (index: RepoIndex)
        ensures
            index@.len() == repos@.len(),
            forall|i: int| 0 <= i < repos@.len() ==> (#[trigger] index@[i]).repo == repos@[i].0 && index@[i].scores == repos@[i].1,
            index@.map_values(|ir: IndexedRepo| ir.repo) == repos@.map_values(|p: (Repo, [Score; 10])| p.0),
            index@.map_values(|ir: IndexedRepo| ir.scores) == repos@.map_values(|p: (Repo, [Score; 10])| p.1),
    {
        let prepare = |scored: (Repo, [Score; 10])| -> (ir: IndexedRepo)
            ensures
                ir.wf() && ir.repo == scored.0 && ir.scores == scored.1
            { IndexedRepo::new(scored.0, scored.1) };
        let ghost given = repos@;
        let repos = par_map(repos, prepare);
        assert(repos@.map_values(|ir: IndexedRepo| ir.repo) =~= given.map_values(|p: (Repo, [Score; 10])| p.0));
        assert(repos@.map_values(|ir: IndexedRepo| ir.scores) =~= given.map_values(|p: (Repo, [Score; 10])| p.1));
        let cache = RwLock::new(MatchCache::new(), Ghost(Fresh { records: Ghost(repos@) }));
        RepoIndex { repos, cache }
    }

    /// How many repositories are indexed.
    pub fn len(&self) -> (n: usize)
        ensures
            n == self@.len(),
    {
        self.repos.len()
    }

    /// Whether no repository is indexed.
    pub fn is_empty(&self) -> (yes: bool)
        ensures
            yes == (self@.len() == 0),
    {
        self.repos.len() == 0
    }

    /// The repositories, in the order in which they were given.
    pub fn iter(&self) -> (repos: Vec<&Repo>)
        ensures
            repos@ == self@.map_values(|ir: IndexedRepo| &ir.repo),
            repos@.len() == self@.len(),
            forall|i: int| 0 <= i < self@.len() ==> *(#[trigger] repos@[i]) == self@[i].repo,
    {
        let ghost want = self@.map_values(|ir: IndexedRepo| &ir.repo);
        let mut repos: Vec<&Repo> = Vec::new();
        let mut i: usize = 0;
        while i < self.repos.len()
            invariant
                i <= self.repos@.len(),
                repos@.len() == i,
                forall|k: int| 0 <= k < i ==> *(#[trigger] repos@[k]) == self.repos@[k].repo,
            decreases self.repos@.len() - i,
        {
            repos.push(&self.repos[i].repo);
            i += 1;
        }
        assert(repos@ =~= want);
        repos
    }

    /// For each repository whether it answers a search.
    fn verdicts(&self, key: &SearchKey) -> (verdicts: Vec<bool>)
        ensures
            verdicts@.len() == self@.len(),
            forall|i: int| 0 <= i < self@.len() ==> #[trigger] verdicts@[i] == answers(self@[i].repo, key@),
    {
        proof {
            use_type_invariant(self);
        }
        let repos = &self.repos;
        let mut positions: Vec<usize> = Vec::new();
        let mut i: usize = 0;
        while i < repos.len()
            invariant
                i <= repos@.len(),
                positions@.len() == i,
                forall|k: int| 0 <= k < i ==> #[trigger] positions@[k] == k,
            decreases repos@.len() - i,
        {
            positions.push(i);
            i += 1;
        }
        let verdict = |at: usize| -> (yes: bool)
            requires
                at < repos@.len() && repos@[at as int].wf()
            ensures
                yes == answers(repos@[at as int].repo, key@)
            { repos[at].answers(key) };
        par_map(positions, verdict)
    }

    /// The positions of the repositories that answer a search, found by looking
    /// at every one of them.
    fn find(&self, key: &SearchKey) -> (found: Vec<usize>)
        ensures
            found@ == matching(self@, key@),
    {
        let verdicts = self.verdicts(key);
        let ghost records = self@;
        let mut found: Vec<usize> = Vec::new();
        let mut i: usize = 0;
        assert(records.take(0) =~= Seq::<IndexedRepo>::empty());
        while i < verdicts.len()
            invariant
                i <= verdicts@.len() == records.len(),
                forall|k: int| 0 <= k < records.len() ==> #[trigger] verdicts@[k] == answers(records[k].repo, key@),
                found@ == matching(records.take(i as int), key@),
            decreases verdicts@.len() - i,
        {
            assert(records.take(i + 1).drop_last() =~= records.take(i as int));
            if verdicts[i] {
                found.push(i);
            }
            i += 1;
        }
        assert(records.take(records.len() as int) =~= records);
        found
    }

    /// The positions that a cache remembers for a search, which is then the most
    /// recently used.
    fn recall_from(&self, cache: &mut MatchCache, key: &SearchKey) -> (found: Option<Vec<usize>>)
        requires
            old(cache).wf(),
            all_fresh(old(cache)@, self@),
        ensures
            match found {
                Some(f) => cache::recalled(old(cache)@, key@) is Some && f@ == matching(self@, key@),
                None => cache::recalled(old(cache)@, key@) is None,
            },
            final(cache).wf(),
            all_fresh(final(cache)@, self@),
            final(cache)@ == cache::after_recall(old(cache)@, key@),
    {
        proof {
            lemma_stays_fresh(cache@, self@, key@);
        }
        cache.recall(&key.cache_key())
    }

    /// Remember in a cache the positions that were found for a search.
    fn record_in(&self, cache: &mut MatchCache, key: &SearchKey, found: &Vec<usize>)
        requires
            old(cache).wf(),
            all_fresh(old(cache)@, self@),
            found@ == matching(self@, key@),
        ensures
            final(cache).wf(),
            all_fresh(final(cache)@, self@),
            final(cache)@ == cache::after_record(old(cache)@, cache::CACHE_CAPACITY as nat, key@, found@),
    {
        proof {
            lemma_stays_fresh(cache@, self@, key@);
        }
        cache.record(key.cache_key(), found.clone());
    }

    /// The positions of the repositories that answer a search, from a cache where
    /// it holds them; else they are looked for and remembered there.
    pub fn lookup_in(&self, cache: &mut MatchCache, key: &SearchKey) -> (found: Vec<usize>)
        requires
            old(cache).wf(),
            all_fresh(old(cache)@, self@),
        ensures
            found@ == matching(self@, key@),
            final(cache).wf(),
            all_fresh(final(cache)@, self@),
            final(cache)@ == after_lookup(old(cache)@, self@, key@),
    {
        match self.recall_from(cache, key) {
            Some(found) => found,
            None => {
                let found = self.find(key);
                self.record_in(cache, key, &found);
                found
            },
        }
    }

    /// The positions of the repositories that answer a search, as
    /// [`RepoIndex::lookup_in`] finds them, in the cache of the index: the same two
    /// steps, each under the lock. The cache is not locked while they are looked
    /// for.
    fn lookup(&self, key: &SearchKey) -> (found: Vec<usize>)
        ensures
            found@ == matching(self@, key@),
    {
        proof {
            use_type_invariant(self);
        }
        let (mut cache, handle) = self.cache.acquire_write();
        let recalled = self.recall_from(&mut cache, key);
        handle.release_write(cache);
        match recalled {
            Some(found) => found,
            None => {
                let found = self.find(key);
                let (mut cache, handle) = self.cache.acquire_write();
                self.record_in(&mut cache, key, &found);
                handle.release_write(cache);
                found
            },
        }
    }

    /// Execute a search against the index.
    ///
    /// Behavior:
    ///   - Empty `query` matches everything (subject to lang/topic filters).
    ///   - `lang` is matched case-insensitively against `repo.language`.
    ///   - `topic` is matched case-insensitively against any topic string.
    ///   - Matching indices are cached in an LRU keyed by `(query, lang, topic)`.
    ///   - Ranking runs AFTER cache lookup and is always parallelized via rayon.
    ///   - Returned hits are ordered by score descending, truncated to `limit`.
    pub fn search(&self, query: &str, lang: Option<&str>, topic: Option<&str>, limit: usize) -> (hits: Vec<SearchHit<'_>>)
        ensures
            top_hits(hits@, self@, asked(query@, text::opt_str(lang), text::opt_str(topic)), limit as nat),
    {
        let key = SearchKey::new(query, lang, topic);
        let found = self.lookup(&key);
        self.rank(&key, found, limit)
    }

    /// [`RepoIndex::search`] with a cache of the caller's own in place of that of
    /// the index, which is shared.
    pub fn search_in(
        &self,
        cache: &mut MatchCache,
        query: &str,
        lang: Option<&str>,
        topic: Option<&str>,
        limit: usize,
    ) -> (hits: Vec<SearchHit<'_>>)
        requires
            old(cache).wf(),
            all_fresh(old(cache)@, self@),
        ensures
            top_hits(hits@, self@, asked(query@, text::opt_str(lang), text::opt_str(topic)), limit as nat),
            final(cache).wf(),
            all_fresh(final(cache)@, self@),
            final(cache)@ == after_lookup(old(cache)@, self@, asked(query@, text::opt_str(lang), text::opt_str(topic))),
    {
        let key = SearchKey::new(query, lang, topic);
        let found = self.lookup_in(cache, &key);
        self.rank(&key, found, limit)
    }

    /// The first `limit` of the hits at some positions once they are ranked.
    fn rank(&self, key: &SearchKey, found: Vec<usize>, limit: usize) -> (hits: Vec<SearchHit<'_>>)
        requires
            found@ == matching(self@, key@),
        ensures
            top_hits(hits@, self@, key@, limit as nat),
    {
        proof {
            use_type_invariant(self);
            assert(self.repos.len() <= usize::MAX);
            matching_is_exact(self@, key@);
        }
        let ghost records = self@;
        let repos = &self.repos;
        let q_lc = key.query_lc.as_str();
        let hit = |at: usize| -> (hit: SearchHit<'_>)
            requires
                at < repos@.len() && repos@[at as int].wf()
            ensures
                hit == hit_at(repos@, at, q_lc@)
            { SearchHit { repo: &repos[at].repo, score: repos[at].score(q_lc) } };
        let hits = par_map(found, hit);
        assert(hits@ =~= hits_of(records, key@));
        let mut sorted = par_sort(hits);
        assert(ranking(sorted@, records, key@));
        let ghost all = sorted@;
        if limit < sorted.len() {
            sorted.truncate(limit);
        }
        assert(sorted@ =~= first(all, limit as nat));
        sorted
    }

    /// Total matching hit count for a search (before `limit` is applied).
    pub fn match_count(&self, query: &str, lang: Option<&str>, topic: Option<&str>) -> (n: usize)
        ensures
            n == matching(self@, asked(query@, text::opt_str(lang), text::opt_str(topic))).len(),
    {
        let key = SearchKey::new(query, lang, topic);
        let verdicts = self.verdicts(&key);
        let ghost records = self@;
        let mut n: usize = 0;
        let mut i: usize = 0;
        assert(records.take(0) =~= Seq::<IndexedRepo>::empty());
        while i < verdicts.len()
            invariant
                i <= verdicts@.len() == records.len(),
                n <= i,
                forall|k: int| 0 <= k < records.len() ==> #[trigger] verdicts@[k] == answers(records[k].repo, key@),
                n == matching(records.take(i as int), key@).len(),
            decreases verdicts@.len() - i,
        {
            assert(records.take(i + 1).drop_last() =~= records.take(i as int));
            if verdicts[i] {
                n += 1;
            }
            i += 1;
        }
        assert(records.take(records.len() as int) =~= records);
        n
    }

    /// Count of cached query entries. Useful for benches / sanity checks.
    ///
    /// The cache is shared and changes behind a lock, so nothing is said of the
    /// count but that there is room for it. How a search changes what is
    /// remembered is stated by [`RepoIndex::search_in`], and the count of a cache
    /// by [`MatchCache::len`].
    pub fn cache_len(&self) -> (n: usize)
        ensures
            n <= cache::CACHE_CAPACITY,
    {
        let (cache, handle) = self.cache.acquire_write();
        let n: usize = cache.len();
        handle.release_write(cache);
        n
    }
}

// ---------------------------------------------------------------------------
// What holds of every search
// ---------------------------------------------------------------------------
/// As many hits are shown as match, but no more than `limit`; each is the hit
/// of a repository that answers the search.
pub proof fn shown_hits_answer(shown: Seq<SearchHit<'_>>, records: Seq<IndexedRepo>, k: cache::QueryView, limit: nat)
    requires
        records.len() <= usize::MAX,
        top_hits(shown, records, k, limit),
    ensures
        shown.len() == if limit < matching(records, k).len() {
            limit
        } else {
            matching(records, k).len()
        },
        ranked(shown),
        forall|i: int| 0 <= i < shown.len() ==> answers(*(#[trigger] shown[i]).repo, k),
{
    broadcast use vstd::seq_lib::group_to_multiset_ensures;

    let all = choose|all: Seq<SearchHit<'_>>| #[trigger] ranking(all, records, k) && shown == first(all, limit);
    let hits = hits_of(records, k);
    assert(all.to_multiset().len() == hits.to_multiset().len());
    matching_is_exact(records, k);
    assert forall|i: int| 0 <= i < shown.len() implies answers(*(#[trigger] shown[i]).repo, k) by {
        assert(all[i] == shown[i]);
        assert(all.contains(all[i]));
        assert(all.to_multiset().count(all[i]) > 0);
        assert(hits.contains(all[i]));
        let j = choose|j: int| 0 <= j < hits.len() && hits[j] == all[i];
        let at = matching(records, k)[j];
        assert(hits[j] == hit_at(records, at, k.0));
    }
}

/// A search without a limit shows as many hits as are counted.
pub proof fn unlimited_search_shows_all(shown: Seq<SearchHit<'_>>, records: Seq<IndexedRepo>, k: cache::QueryView, limit: nat)
    requires
        records.len() <= limit <= usize::MAX,
        top_hits(shown, records, k, limit),
    ensures
        shown.len() == matching(records, k).len(),
{
    shown_hits_answer(shown, records, k, limit);
    matching_is_exact(records, k);
}

/// A lookup remembers its search: what is recalled for it is what a search finds,
/// and looking it up again changes nothing. The count grows by one for a search
/// that is not remembered, where there is room, else not at all; the limit of a
/// search plays no part in it.
pub proof fn lookup_remembers(entries: Seq<cache::Entry>, records: Seq<IndexedRepo>, k: cache::QueryView)
    requires
        cache::one_entry_each(entries),
        entries.len() <= cache::CACHE_CAPACITY,
        all_fresh(entries, records),
    ensures
        ({
            let after = after_lookup(entries, records, k);
            &&& cache::recalled(after, k) == Some(matching(records, k))
            &&& after_lookup(after, records, k) == after
            &&& after.len() == if cache::recalled(entries, k) is None && entries.len() < cache::CACHE_CAPACITY {
                entries.len() + 1
            } else {
                entries.len()
            }
            &&& cache::one_entry_each(after)
            &&& all_fresh(after, records)
        }),
{
    let capacity = cache::CACHE_CAPACITY as nat;
    cache::entry_is_found(entries, k);
    cache::entries_stay_valid(entries, capacity, k, matching(records, k));
    lemma_stays_fresh(entries, records, k);
    let after = after_lookup(entries, records, k);
    if let Some(v) = cache::recalled(entries, k) {
        cache::recall_keeps_all(entries, k, k);
        let room = entries.len() + 1;
        cache::recall_after_record(entries, room, k, v);
        assert(after == cache::after_record(entries, room, k, v));
    } else {
        cache::recall_after_record(entries, capacity, k, matching(records, k));
    }
}

/// However many searches were looked up, no more are remembered than there is room
/// for.
pub proof fn lookups_stay_within(records: Seq<IndexedRepo>, keys: Seq<cache::QueryView>)
    ensures
        after_lookups(records, keys).len() <= cache::CACHE_CAPACITY,
        cache::one_entry_each(after_lookups(records, keys)),
        all_fresh(after_lookups(records, keys), records),
    decreases keys.len(),
{
    if keys.len() > 0 {
        lookups_stay_within(records, keys.drop_last());
        lookup_remembers(after_lookups(records, keys.drop_last()), records, keys.last());
    }
}

/// As long as there is room, the searches that are remembered are those that were
/// looked up, each once however often it was.
pub proof fn distinct_lookups_are_remembered(records: Seq<IndexedRepo>, keys: Seq<cache::QueryView>)
    requires
        keys.to_set().len() <= cache::CACHE_CAPACITY,
    ensures
        after_lookups(records, keys).len() == keys.to_set().len(),
        forall|k: cache::QueryView|
            cache::recalled(after_lookups(records, keys), k) is Some <==> #[trigger] keys.contains(k),
    decreases keys.len(),
{
    if keys.len() == 0 {
        assert(keys.to_set() =~= Set::empty());
    } else {
        let before = keys.drop_last();
        let k = keys.last();
        let entries = after_lookups(records, before);
        let after = after_lookups(records, keys);
        let capacity = cache::CACHE_CAPACITY as nat;
        assert(keys =~= before.push(k));
        vstd::seq_lib::seq_to_set_is_finite(before);
        assert forall|x: cache::QueryView| #[trigger] keys.contains(x) <==> before.contains(x) || x == k by {
            vstd::seq_lib::lemma_seq_contains_after_push(before, k, x);
        }
        assert(keys.to_set() =~= before.to_set().insert(k));
        distinct_lookups_are_remembered(records, before);
        lookups_stay_within(records, before);
        lookup_remembers(entries, records, k);
        assert(before.contains(k) <==> before.to_set().contains(k));
        assert forall|x: cache::QueryView| cache::recalled(after, x) is Some <==> #[trigger] keys.contains(x) by {
            if x != k {
                if cache::recalled(entries, k) is Some {
                    cache::recall_keeps_all(entries, k, x);
                } else {
                    cache::record_keeps_others(entries, capacity, k, matching(records, k), x);
                }
                assert(before.contains(x) <==> keys.contains(x));
            }
        }
    }
}

/// What answers a search answers every wider one, so the wider one counts no
/// fewer.
proof fn lemma_wider_counts_no_fewer(records: Seq<IndexedRepo>, k: cache::QueryView, wider: cache::QueryView)
    requires
        forall|r: Repo| #[trigger] answers(r, k) ==> answers(r, wider),
    ensures
        matching(records, k).len() <= matching(records, wider).len(),
    decreases records.len(),
{
    if records.len() > 0 {
        lemma_wider_counts_no_fewer(records.drop_last(), k, wider);
    }
}

/// Filters only narrow: a search with a language or a topic counts no more than
/// that without, and that no more than there are repositories, which is what the
/// empty query counts.
pub proof fn filters_only_narrow(records: Seq<IndexedRepo>, k: cache::QueryView)
    requires
        records.len() <= usize::MAX,
    ensures
        matching(records, k).len() <= matching(records, (k.0, None, None)).len() <= records.len(),
        matching(records, (Seq::empty(), None, None)).len() == records.len(),
{
    lemma_wider_counts_no_fewer(records, k, (k.0, None, None));
    matching_is_exact(records, (k.0, None, None));
    empty_query_finds_all(records);
}

/// Whether a heavier hit has no lower score.
pub open spec fn scores_never_fall(scores: [Score; 10]) -> bool {
    forall|v: int, w: int| 0 <= v <= w < 10 ==> (#[trigger] scores[v]).rank <= (#[trigger] scores[w]).rank
}

/// Lengthening a query never adds a match and never raises a weight or a score.
pub proof fn longer_query_finds_no_more(ir: IndexedRepo, q: Seq<char>, longer: Seq<char>)
    requires
        text::occurs_in(q, longer),
    ensures
        found_in(ir.repo, longer) ==> found_in(ir.repo, q),
        weight(ir.repo, longer) <= weight(ir.repo, q),
        scores_never_fall(ir.scores) ==> ir.scores[weight(ir.repo, longer)].rank <= ir.scores[weight(ir.repo, q)].rank,
{
    let r = ir.repo;
    let name = text::lowercase(r.full_name@);
    if in_name(r, longer) {
        text::part_of_part(q, longer, name);
    }
    if in_description(r, longer) {
        text::part_of_part(q, longer, lowered(r.description));
    }
    if in_topics(r, longer) {
        text::part_of_part(q, longer, topics_text(r));
    }
    if in_language(r, longer) {
        text::part_of_part(q, longer, lowered(r.language));
    }
    if in_readme(r, longer) {
        text::part_of_part(q, longer, lowered(r.readme));
    }
    found_where_weighed(r, q);
    found_where_weighed(r, longer);
}

/// Lengthening the query of a search never makes it count more.
pub proof fn longer_query_counts_no_more(
    records: Seq<IndexedRepo>,
    k: cache::QueryView,
    longer: Seq<char>,
)
    requires
        text::occurs_in(k.0, longer),
    ensures
        matching(records, (longer, k.1, k.2)).len() <= matching(records, k).len(),
    decreases records.len(),
{
    if records.len() > 0 {
        longer_query_counts_no_more(records.drop_last(), k, longer);
        longer_query_finds_no_more(records.last(), k.0, longer);
    }
}

/// Whether a heavier hit has a higher score, as it has where there are stars.
pub open spec fn scores_rise(scores: [Score; 10]) -> bool {
    forall|v: int, w: int| 0 <= v < w < 10 ==> (#[trigger] scores[v]).rank < (#[trigger] scores[w]).rank
}

/// Where a hit without weight scores zero and a heavier one always more, as it does
/// where there are stars, a query scores above zero exactly where it matches. Where
/// every hit scores zero, as it does where there are no stars, so does every query.
pub proof fn score_tells_match(ir: IndexedRepo, q: Seq<char>)
    requires
        ir.scores[0].rank == 0,
    ensures
        scores_rise(ir.scores) ==> (ir.scores[weight(ir.repo, q)].rank > 0 <==> found_in(ir.repo, q)),
        (forall|w: int| 0 <= w < 10 ==> (#[trigger] ir.scores[w]).rank == 0) ==> ir.scores[weight(ir.repo, q)].rank == 0,
{
    found_where_weighed(ir.repo, q);
}

/// Of two repositories with the same scores the one that a query matches more
/// strongly comes first.
pub proof fn heavier_hit_comes_first(records: Seq<IndexedRepo>, i: usize, j: usize, q: Seq<char>)
    requires
        i < records.len(),
        j < records.len(),
        records[i as int].scores == records[j as int].scores,
        scores_rise(records[i as int].scores),
        weight(records[i as int].repo, q) > weight(records[j as int].repo, q),
    ensures
        hit_le(hit_at(records, i, q), hit_at(records, j, q)),
        !hit_le(hit_at(records, j, q), hit_at(records, i, q)),
{
    found_where_weighed(records[i as int].repo, q);
    found_where_weighed(records[j as int].repo, q);
}

/// Whether no two hits have one full name.
spec fn hit_names_differ(hits: Seq<SearchHit<'_>>) -> bool {
    forall|i: int, j: int|
        0 <= i < hits.len() && 0 <= j < hits.len() && i != j ==> (#[trigger] hits[i]).repo.full_name@ != (#[trigger] hits[j]).repo.full_name@
}

proof fn lemma_rankings_agree(x: Seq<SearchHit<'_>>, y: Seq<SearchHit<'_>>)
    requires
        x.to_multiset() == y.to_multiset(),
        ranked(x),
        ranked(y),
        hit_names_differ(x),
    ensures
        x == y,
    decreases x.len(),
{
    broadcast use vstd::seq_lib::group_to_multiset_ensures;

    assert(x.len() == x.to_multiset().len());
    assert(y.len() == y.to_multiset().len());
    if x.len() > 0 {
        assert(x.contains(x[0]) && y.contains(y[0]));
        assert(x.to_multiset().count(x[0]) > 0);
        assert(y.to_multiset().count(y[0]) > 0);
        assert(y.contains(x[0]) && x.contains(y[0]));
        let i = choose|i: int| 0 <= i < x.len() && x[i] == y[0];
        let j = choose|j: int| 0 <= j < y.len() && y[j] == x[0];
        hit_order_is_total(x[0], y[0], y[0]);
        hit_order_is_total(y[0], x[0], x[0]);
        assert(i == 0);
        let rest_x = x.remove(0);
        let rest_y = y.remove(0);
        assert forall|a: int, b: int| 0 <= a < b < rest_x.len() implies hit_le(#[trigger] rest_x[a], #[trigger] rest_x[b]) by {
            assert(rest_x[a] == x[a + 1] && rest_x[b] == x[b + 1]);
        }
        assert forall|a: int, b: int| 0 <= a < b < rest_y.len() implies hit_le(#[trigger] rest_y[a], #[trigger] rest_y[b]) by {
            assert(rest_y[a] == y[a + 1] && rest_y[b] == y[b + 1]);
        }
        assert forall|a: int, b: int| 0 <= a < rest_x.len() && 0 <= b < rest_x.len() && a != b implies (
        #[trigger] rest_x[a]).repo.full_name@ != (#[trigger] rest_x[b]).repo.full_name@ by {
            assert(rest_x[a] == x[a + 1] && rest_x[b] == x[b + 1]);
        }
        lemma_rankings_agree(rest_x, rest_y);
        assert(x =~= seq![x[0]] + rest_x);
        assert(y =~= seq![y[0]] + rest_y);
    } else {
        assert(x =~= y);
    }
}

proof fn lemma_ranking_names_differ(all: Seq<SearchHit<'_>>, records: Seq<IndexedRepo>, k: cache::QueryView)
    requires
        records.len() <= usize::MAX,
        names_differ(records),
        ranking(all, records, k),
    ensures
        hit_names_differ(all),
{
    broadcast use vstd::seq_lib::group_to_multiset_ensures;

    let hits = hits_of(records, k);
    let m = matching(records, k);
    matching_is_exact(records, k);
    assert(hit_names_differ(hits)) by {
        assert forall|i: int, j: int| 0 <= i < hits.len() && 0 <= j < hits.len() && i != j implies (
        #[trigger] hits[i]).repo.full_name@ != (#[trigger] hits[j]).repo.full_name@ by {
            assert(m[i] != m[j]);
            assert(hits[i] == hit_at(records, m[i], k.0) && hits[j] == hit_at(records, m[j], k.0));
            if m[i] < m[j] {
                assert(records[m[i] as int].repo.full_name@ != records[m[j] as int].repo.full_name@);
            } else {
                assert(records[m[j] as int].repo.full_name@ != records[m[i] as int].repo.full_name@);
            }
        }
    }
    assert(hits.no_duplicates());
    hits.lemma_multiset_has_no_duplicates();
    all.lemma_multiset_has_no_duplicates_conv();
    assert forall|i: int, j: int| 0 <= i < all.len() && 0 <= j < all.len() && i != j implies (
    #[trigger] all[i]).repo.full_name@ != (#[trigger] all[j]).repo.full_name@ by {
        assert(all.contains(all[i]) && all.contains(all[j]));
        assert(all.to_multiset().count(all[i]) > 0 && all.to_multiset().count(all[j]) > 0);
        assert(hits.contains(all[i]) && hits.contains(all[j]));
        let a = choose|a: int| 0 <= a < hits.len() && hits[a] == all[i];
        let b = choose|b: int| 0 <= b < hits.len() && hits[b] == all[j];
        assert(a != b);
    }
}

/// Where no two repositories have one name, a search has one answer: whoever
/// asks, whatever the cache holds, and a smaller limit shows the beginning of
/// what a larger one shows.
pub proof fn searches_agree(
    shown: Seq<SearchHit<'_>>,
    limit: nat,
    shown2: Seq<SearchHit<'_>>,
    limit2: nat,
    records: Seq<IndexedRepo>,
    k: cache::QueryView,
)
    requires
        records.len() <= usize::MAX,
        names_differ(records),
        limit <= limit2,
        top_hits(shown, records, k, limit),
        top_hits(shown2, records, k, limit2),
    ensures
        shown == first(shown2, limit),
{
    let all = choose|all: Seq<SearchHit<'_>>| #[trigger] ranking(all, records, k) && shown == first(all, limit);
    let all2 = choose|all: Seq<SearchHit<'_>>| #[trigger] ranking(all, records, k) && shown2 == first(all, limit2);
    lemma_ranking_names_differ(all, records, k);
    lemma_rankings_agree(all, all2);
    assert(shown =~= first(shown2, limit));
}

// ---------------------------------------------------------------------------
// What a search is for
// ---------------------------------------------------------------------------
/// Whether `q` occurs in the lowercase form of a text that may be missing.
pub open spec fn occurs_in_field(q: Seq<char>, field: Option<String>) -> bool {
    match field {
        Some(s) => text::occurs_in(q, text::lowercase(s@)),
        None => q.len() == 0,
    }
}

/// Whether `q` occurs in the lowercase topics, written in their order with a space
/// between each two.
pub open spec fn occurs_in_topics(q: Seq<char>, topics: Seq<String>) -> bool {
    text::occurs_in(q, text::joined(topics.map_values(|t: String| text::lowercase(t@)), seq![' ']))
}

/// Whether `q` occurs in the lowercase form of a README that is not empty.
pub open spec fn occurs_in_readme(q: Seq<char>, readme: Option<String>) -> bool {
    readme is Some && text::lowercase(readme->0@).len() > 0 && text::occurs_in(q, text::lowercase(readme->0@))
}

/// Whether a repository is wanted: the query occurs in one of its fields, its
/// language is the one asked for, and so is one of its topics, all but for case. A
/// repository without a language has the empty one.
pub open spec fn wanted(r: Repo, query: Seq<char>, lang: Option<Seq<char>>, topic: Option<Seq<char>>) -> bool {
    let q = text::lowercase(query);
    &&& {
        ||| text::occurs_in(q, text::lowercase(r.full_name@))
        ||| occurs_in_field(q, r.description)
        ||| occurs_in_topics(q, r.topics@)
        ||| occurs_in_field(q, r.language)
        ||| occurs_in_readme(q, r.readme)
    }
    &&& lang is Some ==> text::lowercase(lang->0) == match r.language {
        Some(l) => text::lowercase(l@),
        None => Seq::empty(),
    }
    &&& topic is Some ==> exists|i: int|
        0 <= i < r.topics@.len() && text::lowercase((#[trigger] r.topics@[i])@) == text::lowercase(topic->0)
}

/// The positions of the repositories that are wanted.
pub open spec fn wanted_at(
    records: Seq<IndexedRepo>,
    query: Seq<char>,
    lang: Option<Seq<char>>,
    topic: Option<Seq<char>>,
) -> Set<int> {
    Set::new(|i: int| 0 <= i < records.len() && wanted(records[i].repo, query, lang, topic))
}

/// What a field that holds the query counts.
pub open spec fn worth(holds: bool, number: int) -> int {
    if holds {
        number
    } else {
        0
    }
}

proof fn lemma_fields(r: Repo, q: Seq<char>)
    ensures
        in_name(r, q) == text::occurs_in(q, text::lowercase(r.full_name@)),
        in_description(r, q) == occurs_in_field(q, r.description),
        in_topics(r, q) == occurs_in_topics(q, r.topics@),
        in_language(r, q) == occurs_in_field(q, r.language),
        in_readme(r, q) == occurs_in_readme(q, r.readme),
{
    reveal_strlit(" ");
    assert(" "@ =~= seq![' ']);
    assert(lower_topics(r) =~= r.topics@.map_values(|t: String| text::lowercase(t@)));
    lemma_in_nothing(q);
    let none = Seq::<char>::empty();
    assert(vstd::utf8::is_ascii_chars(none));
    assert(text::lowercase(none) =~= none);
}

proof fn lemma_in_nothing(q: Seq<char>)
    ensures
        text::occurs_in(q, Seq::empty()) <==> q.len() == 0,
{
    let none = Seq::<char>::empty();
    if q.len() == 0 {
        assert(none.subrange(0, 0) =~= q);
        assert(text::stands_at(q, none, 0));
    }
}

/// The weight of a query is the sum over the fields that it occurs in: three for
/// the name, two for the description, two for the topics, one for the language and
/// one for the README, each counted whatever the others hold.
pub proof fn weight_is_the_sum_of_the_fields(r: Repo, q: Seq<char>)
    ensures
        weight(r, q) == worth(text::occurs_in(q, text::lowercase(r.full_name@)), 3) + worth(
            occurs_in_field(q, r.description),
            2,
        ) + worth(occurs_in_topics(q, r.topics@), 2) + worth(occurs_in_field(q, r.language), 1) + worth(
            occurs_in_readme(q, r.readme),
            1,
        ),
{
    lemma_fields(r, q);
}

/// Where two repositories hold a query in the same fields but for one, their weights
/// differ by exactly what that field counts.
pub proof fn one_field_makes_its_difference(a: Repo, b: Repo, q: Seq<char>)
    ensures
        ({
            let name = text::occurs_in(q, text::lowercase(a.full_name@)) == text::occurs_in(q, text::lowercase(b.full_name@));
            let description = occurs_in_field(q, a.description) == occurs_in_field(q, b.description);
            let topics = occurs_in_topics(q, a.topics@) == occurs_in_topics(q, b.topics@);
            let language = occurs_in_field(q, a.language) == occurs_in_field(q, b.language);
            let readme = occurs_in_readme(q, a.readme) == occurs_in_readme(q, b.readme);
            &&& description && topics && language && readme && text::occurs_in(q, text::lowercase(a.full_name@)) && !name
                ==> weight(a, q) == weight(b, q) + 3
            &&& name && topics && language && readme && occurs_in_field(q, a.description) && !description ==> weight(a, q)
                == weight(b, q) + 2
            &&& name && description && language && readme && occurs_in_topics(q, a.topics@) && !topics ==> weight(a, q)
                == weight(b, q) + 2
            &&& name && description && topics && readme && occurs_in_field(q, a.language) && !language ==> weight(a, q)
                == weight(b, q) + 1
            &&& name && description && topics && language && occurs_in_readme(q, a.readme) && !readme ==> weight(a, q)
                == weight(b, q) + 1
            &&& name && description && topics && language && readme ==> weight(a, q) == weight(b, q)
        }),
{
    weight_is_the_sum_of_the_fields(a, q);
    weight_is_the_sum_of_the_fields(b, q);
}

/// A query matches a repository exactly where it occurs in one of its fields; the
/// empty query matches every one.
pub proof fn query_matches_where_it_occurs(r: Repo, q: Seq<char>)
    ensures
        found_in(r, q) <==> {
            ||| text::occurs_in(q, text::lowercase(r.full_name@))
            ||| occurs_in_field(q, r.description)
            ||| occurs_in_topics(q, r.topics@)
            ||| occurs_in_field(q, r.language)
            ||| occurs_in_readme(q, r.readme)
        },
        q.len() == 0 ==> found_in(r, q),
{
    lemma_fields(r, q);
    found_where_weighed(r, q);
}

/// A repository answers a search exactly where it is wanted.
pub proof fn wanted_repositories_answer(r: Repo, query: Seq<char>, lang: Option<Seq<char>>, topic: Option<Seq<char>>)
    ensures
        answers(r, asked(query, lang, topic)) <==> wanted(r, query, lang, topic),
{
    query_matches_where_it_occurs(r, text::lowercase(query));
    let none = Seq::<char>::empty();
    assert(vstd::utf8::is_ascii_chars(none));
    assert(text::lowercase(none) =~= none);
    if let Some(t) = topic {
        let want = text::lowercase(t);
        let all = lower_topics(r);
        assert(all.len() == r.topics@.len());
        assert forall|i: int| 0 <= i < all.len() implies #[trigger] all[i] == text::lowercase(r.topics@[i]@) by {}
        if all.contains(want) {
            let i = choose|i: int| 0 <= i < all.len() && all[i] == want;
            assert(text::lowercase(r.topics@[i]@) == want);
        }
        if exists|i: int| 0 <= i < r.topics@.len() && text::lowercase((#[trigger] r.topics@[i])@) == want {
            let i = choose|i: int| 0 <= i < r.topics@.len() && text::lowercase((#[trigger] r.topics@[i])@) == want;
            assert(all[i] == want);
        }
    }
}

/// Whatever else is asked for, what answers a search with a topic has that topic,
/// and what answers a search with a language has that language. With both, what
/// answers is what answers with the language alone and also with the topic alone.
pub proof fn filters_hold_together(r: Repo, query: Seq<char>, lang: Option<Seq<char>>, topic: Option<Seq<char>>)
    ensures
        topic is Some && answers(r, asked(query, lang, topic)) ==> exists|i: int|
            0 <= i < r.topics@.len() && text::lowercase((#[trigger] r.topics@[i])@) == text::lowercase(topic->0),
        lang is Some && answers(r, asked(query, lang, topic)) ==> text::lowercase(lang->0) == match r.language {
            Some(l) => text::lowercase(l@),
            None => Seq::empty(),
        },
        answers(r, asked(query, lang, topic)) <==> answers(r, asked(query, lang, None)) && answers(
            r,
            asked(query, None, topic),
        ),
        answers(r, asked(query, lang, topic)) ==> answers(r, asked(query, None, None)),
{
    wanted_repositories_answer(r, query, lang, topic);
    wanted_repositories_answer(r, query, lang, None);
    wanted_repositories_answer(r, query, None, topic);
    wanted_repositories_answer(r, query, None, None);
}

/// As many repositories match a search as are wanted, and these are they.
pub proof fn matching_are_the_wanted(
    records: Seq<IndexedRepo>,
    query: Seq<char>,
    lang: Option<Seq<char>>,
    topic: Option<Seq<char>>,
)
    requires
        records.len() <= usize::MAX,
    ensures
        wanted_at(records, query, lang, topic).finite(),
        matching(records, asked(query, lang, topic)).len() == wanted_at(records, query, lang, topic).len(),
        forall|i: int|
            #![trigger wanted_at(records, query, lang, topic).contains(i)]
            0 <= i < records.len() ==> (matching(records, asked(query, lang, topic)).contains(i as usize) <==> wanted_at(
                records,
                query,
                lang,
                topic,
            ).contains(i)),
{
    let k = asked(query, lang, topic);
    let m = matching(records, k);
    let ints = m.map_values(|x: usize| x as int);
    let want = wanted_at(records, query, lang, topic);
    matching_is_exact(records, k);
    assert forall|i: int, j: int| 0 <= i < j < ints.len() implies ints[i] != ints[j] by {
        assert(m[i] < m[j]);
    }
    assert(ints.no_duplicates());
    ints.unique_seq_to_set();
    vstd::seq_lib::seq_to_set_is_finite(ints);
    assert forall|x: int| #[trigger] ints.to_set().contains(x) <==> want.contains(x) by {
        if ints.to_set().contains(x) {
            let i = choose|i: int| 0 <= i < ints.len() && ints[i] == x;
            assert(ints[i] == m[i] as int);
            wanted_repositories_answer(records[x].repo, query, lang, topic);
        }
        if want.contains(x) {
            wanted_repositories_answer(records[x].repo, query, lang, topic);
            assert(answers(records[x].repo, k));
            assert(m.contains(x as usize));
            let i = choose|i: int| 0 <= i < m.len() && m[i] == x as usize;
            assert(ints[i] == x);
        }
    }
    assert(ints.to_set() =~= want);
    assert forall|i: int|
        #![trigger want.contains(i)]
        0 <= i < records.len() implies (m.contains(i as usize) <==> want.contains(i)) by {
        if m.contains(i as usize) {
            let j = choose|j: int| 0 <= j < m.len() && m[j] == i as usize;
            assert(ints[j] == i);
            assert(ints.to_set().contains(i));
        }
        if want.contains(i) {
            assert(ints.to_set().contains(i));
            let j = choose|j: int| 0 <= j < ints.len() && ints[j] == i;
            assert(m[j] == i as usize);
        }
    }
}

/// Whether a hit is that of the repository at a position: it shows the repository
/// with its own score for the weight that the query has in it.
pub open spec fn is_hit_of(h: SearchHit<'_>, ir: IndexedRepo, query: Seq<char>) -> bool {
    &&& *h.repo == ir.repo
    &&& *h.score == ir.scores[weight(ir.repo, text::lowercase(query))]
}

/// Whether a hit has to stand before another: by its score, then by its stars, then
/// by its name.
pub open spec fn outranks(a: SearchHit<'_>, b: SearchHit<'_>) -> bool {
    ||| a.score.rank > b.score.rank
    ||| a.score.rank == b.score.rank && a.repo.stargazers_count > b.repo.stargazers_count
    ||| a.score.rank == b.score.rank && a.repo.stargazers_count == b.repo.stargazers_count && a.repo.full_name@
        != b.repo.full_name@ && text::text_le(a.repo.full_name@, b.repo.full_name@)
}

/// What a search shows: as many of the wanted repositories as the limit allows, each
/// with its own score, and none before one that outranks it.
pub proof fn search_shows_the_wanted(
    shown: Seq<SearchHit<'_>>,
    records: Seq<IndexedRepo>,
    query: Seq<char>,
    lang: Option<Seq<char>>,
    topic: Option<Seq<char>>,
    limit: nat,
)
    requires
        records.len() <= usize::MAX,
        top_hits(shown, records, asked(query, lang, topic), limit),
    ensures
        limit < wanted_at(records, query, lang, topic).len() ==> shown.len() == limit,
        limit >= wanted_at(records, query, lang, topic).len() ==> shown.len() == wanted_at(records, query, lang, topic).len(),
        forall|i: int| 0 <= i < shown.len() ==> wanted(*(#[trigger] shown[i]).repo, query, lang, topic),
        forall|i: int| 0 <= i < shown.len() ==> exists|at: int|
            #![trigger records[at]]
            0 <= at < records.len() && is_hit_of(#[trigger] shown[i], records[at], query),
        forall|i: int, j: int| 0 <= i < j < shown.len() ==> !outranks(#[trigger] shown[j], #[trigger] shown[i]),
{
    broadcast use vstd::seq_lib::group_to_multiset_ensures;

    let k = asked(query, lang, topic);
    shown_hits_answer(shown, records, k, limit);
    matching_are_the_wanted(records, query, lang, topic);
    assert forall|i: int| 0 <= i < shown.len() implies wanted(*(#[trigger] shown[i]).repo, query, lang, topic) by {
        wanted_repositories_answer(*shown[i].repo, query, lang, topic);
    }
    let all = choose|all: Seq<SearchHit<'_>>| #[trigger] ranking(all, records, k) && shown == first(all, limit);
    let hits = hits_of(records, k);
    matching_is_exact(records, k);
    assert forall|i: int| 0 <= i < shown.len() implies exists|at: int|
        #![trigger records[at]]
        0 <= at < records.len() && is_hit_of(#[trigger] shown[i], records[at], query) by {
        assert(all[i] == shown[i]);
        assert(all.contains(all[i]));
        assert(all.to_multiset().count(all[i]) > 0);
        assert(hits.contains(all[i]));
        let j = choose|j: int| 0 <= j < hits.len() && hits[j] == all[i];
        let at = matching(records, k)[j];
        assert(hits[j] == hit_at(records, at, k.0));
        assert(is_hit_of(shown[i], records[at as int], query));
    }
    assert forall|i: int, j: int| 0 <= i < j < shown.len() implies !outranks(#[trigger] shown[j], #[trigger] shown[i]) by {
        assert(hit_le(shown[i], shown[j]));
        text::text_order_is_total(shown[i].repo.full_name@, shown[j].repo.full_name@);
    }
}

/// No wanted repository is left out for one that it outranks: its hit is shown, or
/// as many others are that it does not outrank.
pub proof fn search_leaves_out_no_better(
    shown: Seq<SearchHit<'_>>,
    records: Seq<IndexedRepo>,
    query: Seq<char>,
    lang: Option<Seq<char>>,
    topic: Option<Seq<char>>,
    limit: nat,
    at: int,
    h: SearchHit<'_>,
)
    requires
        records.len() <= usize::MAX,
        top_hits(shown, records, asked(query, lang, topic), limit),
        wanted_at(records, query, lang, topic).contains(at),
        is_hit_of(h, records[at], query),
    ensures
        shown.contains(h) || (shown.len() == limit && forall|i: int| 0 <= i < shown.len() ==> !outranks(h, #[trigger] shown[i])),
{
    broadcast use vstd::seq_lib::group_to_multiset_ensures;

    let k = asked(query, lang, topic);
    let all = choose|all: Seq<SearchHit<'_>>| #[trigger] ranking(all, records, k) && shown == first(all, limit);
    let hits = hits_of(records, k);
    let m = matching(records, k);
    matching_are_the_wanted(records, query, lang, topic);
    assert(m.contains(at as usize));
    let j = choose|j: int| 0 <= j < m.len() && m[j] == at as usize;
    assert(hits[j] == hit_at(records, at as usize, k.0));
    assert(h == hits[j]);
    assert(hits.contains(h));
    assert(hits.to_multiset().count(h) > 0);
    assert(all.contains(h));
    let p = choose|p: int| 0 <= p < all.len() && all[p] == h;
    if p < shown.len() {
        assert(shown[p] == h);
    } else {
        assert forall|i: int| 0 <= i < shown.len() implies !outranks(h, #[trigger] shown[i]) by {
            assert(shown[i] == all[i]);
            assert(hit_le(all[i], all[p]));
            text::text_order_is_total(shown[i].repo.full_name@, h.repo.full_name@);
        }
    }
}

/// The hits of different repositories are shown apart: with a limit that leaves none
/// out, every wanted repository is shown.
pub proof fn unlimited_search_shows_every_wanted(
    shown: Seq<SearchHit<'_>>,
    records: Seq<IndexedRepo>,
    query: Seq<char>,
    lang: Option<Seq<char>>,
    topic: Option<Seq<char>>,
    limit: nat,
    at: int,
)
    requires
        records.len() <= usize::MAX,
        records.len() < limit,
        top_hits(shown, records, asked(query, lang, topic), limit),
        wanted_at(records, query, lang, topic).contains(at),
    ensures
        exists|i: int| 0 <= i < shown.len() && is_hit_of(#[trigger] shown[i], records[at], query),
{
    let q = text::lowercase(query);
    let h = hit_at(records, at as usize, q);
    shown_hits_answer(shown, records, asked(query, lang, topic), limit);
    matching_is_exact(records, asked(query, lang, topic));
    search_leaves_out_no_better(shown, records, query, lang, topic, limit, at, h);
    let i = choose|i: int| 0 <= i < shown.len() && shown[i] == h;
    assert(is_hit_of(shown[i], records[at], query));
}

/// A hit may come before another exactly where the other does not outrank it.
pub proof fn hits_stand_by_score_stars_and_name(a: SearchHit<'_>, b: SearchHit<'_>)
    ensures
        hit_le(a, b) <==> !outranks(b, a),
{
    text::text_order_is_total(a.repo.full_name@, b.repo.full_name@);
}

/// A limit takes the beginning, and all where there is no more.
pub proof fn limit_takes_the_beginning<A>(items: Seq<A>, limit: nat, i: int)
    ensures
        first(items, limit).len() <= limit,
        first(items, limit).len() <= items.len(),
        first(items, limit).len() == limit || first(items, limit).len() == items.len(),
        0 <= i < first(items, limit).len() ==> first(items, limit)[i] == items[i],
{
}

} // verus!

//! The search + ranking pipeline.

use stargaze::cache::MatchCache;
use stargaze::cache::QueryKey;
use stargaze::index::hit_order;
use stargaze::IndexedRepo;
use stargaze::Repo;
use stargaze::RepoIndex;
use stargaze::Score;
use stargaze::SearchHit;
use stargaze::SearchKey;
use std::cmp::Ordering;

fn score_of(weight: usize, stars: u64) -> f64 {
    (weight as f64) * ((stars as f64) + 1.0).ln()
}

fn scores(stars: u64) -> [Score; 10] {
    std::array::from_fn(|weight| {
        let score = score_of(weight, stars);
        Score {
            rank: score.to_bits(),
            number: serde_json::Number::from_f64(score).unwrap(),
        }
    })
}

fn number(hit: &SearchHit<'_>) -> f64 {
    hit.score.number.as_f64().unwrap()
}

fn scored(repos: Vec<Repo>) -> Vec<(Repo, [Score; 10])> {
    repos
        .into_iter()
        .map(|r| {
            let s = scores(r.stargazers_count);
            (r, s)
        })
        .collect()
}

fn index(repos: Vec<Repo>) -> RepoIndex {
    RepoIndex::new(scored(repos))
}

fn indexed(repo: Repo) -> IndexedRepo {
    let s = scores(repo.stargazers_count);
    IndexedRepo::new(repo, s)
}

fn r(
    full_name: &str,
    lang: Option<&str>,
    stars: u64,
    desc: Option<&str>,
    topics: Vec<&str>,
) -> Repo {
    Repo {
        full_name: full_name.to_string(),
        owner: full_name.split('/').next().unwrap_or("").to_string(),
        name: full_name.split('/').nth(1).unwrap_or("").to_string(),
        description: desc.map(String::from),
        url: format!("https://github.com/{}", full_name),
        language: lang.map(String::from),
        stargazers_count: stars,
        forks_count: 0,
        open_issues_count: 0,
        topics: topics.iter().map(|s| s.to_string()).collect(),
        default_branch: Some("main".into()),
        license: None,
        archived: false,
        fork: false,
        pushed_at: None,
        created_at: None,
        updated_at: None,
        starred_at: None,
        cached_at: "2025-01-01T00:00:00Z".to_string(),
        readme: None,
        readme_fetched_at: None,
    }
}

fn sample_corpus() -> Vec<Repo> {
    vec![
        r(
            "launchbadge/sqlx",
            Some("Rust"),
            16000,
            Some("Rust SQL toolkit"),
            vec!["database", "rust", "sql"],
        ),
        r(
            "postgresml/postgresml",
            Some("Rust"),
            6000,
            Some("Postgres with GPUs for ML"),
            vec!["postgres", "ml"],
        ),
        r(
            "supabase/supabase",
            Some("TypeScript"),
            100000,
            Some("The Postgres development platform"),
            vec!["postgres", "database", "supabase"],
        ),
        r(
            "facebook/react",
            Some("JavaScript"),
            200000,
            Some("A JavaScript library"),
            vec!["javascript", "ui"],
        ),
        r(
            "torvalds/linux",
            Some("C"),
            150000,
            Some("Linux kernel"),
            vec![],
        ),
    ]
}

fn corpus() -> Vec<Repo> {
    vec![
        r(
            "launchbadge/sqlx",
            Some("Rust"),
            16_000,
            Some("Rust SQL toolkit"),
            vec!["database", "rust", "sql"],
        ),
        r(
            "postgresml/postgresml",
            Some("Rust"),
            6_000,
            Some("Postgres with GPUs for ML"),
            vec!["postgres", "ml"],
        ),
        r(
            "supabase/supabase",
            Some("TypeScript"),
            100_000,
            Some("The Postgres development platform"),
            vec!["postgres", "database", "supabase"],
        ),
        r(
            "grafana/grafana",
            Some("TypeScript"),
            70_000,
            Some("Observability and data visualization platform"),
            vec!["dashboard", "monitoring"],
        ),
        r(
            "prisma/prisma",
            Some("TypeScript"),
            45_000,
            Some("Next-generation ORM for Node.js & TypeScript"),
            vec!["orm", "database", "postgres"],
        ),
        r(
            "facebook/react",
            Some("JavaScript"),
            200_000,
            Some("A JavaScript library for building UIs"),
            vec!["javascript", "ui", "frontend"],
        ),
        r(
            "torvalds/linux",
            Some("C"),
            150_000,
            Some("Linux kernel source tree"),
            vec![],
        ),
        r(
            "rust-lang/rust",
            Some("Rust"),
            90_000,
            Some("Empowering everyone to build reliable software"),
            vec!["language", "rust"],
        ),
        r(
            "denoland/deno",
            Some("Rust"),
            95_000,
            Some("A modern runtime for JavaScript"),
            vec!["javascript", "runtime"],
        ),
        r(
            "tokio-rs/tokio",
            Some("Rust"),
            25_000,
            Some("A runtime for writing reliable async Rust"),
            vec!["rust", "async"],
        ),
    ]
}

// ─────────── IndexedRepo ───────────

#[test]
fn score_is_above_zero_where_the_query_matches() {
    let starred = indexed(r("a/tool", Some("Rust"), 1, Some("a thing"), vec!["cli"]));
    for q in ["", "tool", "thing", "cli", "rust", "missing"] {
        assert_eq!(starred.score(q).rank > 0, starred.matches(q));
    }
    let unstarred = indexed(r("a/tool", Some("Rust"), 0, Some("a thing"), vec!["cli"]));
    for q in ["", "tool", "thing", "missing"] {
        assert_eq!(unstarred.score(q).rank, 0);
    }
}

#[test]
fn indexed_repo_clones() {
    let ir = indexed(r("A/Tool", Some("Rust"), 7, Some("a thing"), vec!["CLI"]));
    let copy = ir.clone();
    assert_eq!(copy.repo, ir.repo);
    assert_eq!(copy.full_name_lc, "a/tool");
    assert_eq!(copy.topics_lower, ir.topics_lower);
    assert_eq!(copy.score("tool"), ir.score("tool"));
}

#[test]
fn indexed_repo_lowercase_precompute() {
    let repo = r(
        "Foo/PostgresBar",
        Some("Rust"),
        100,
        Some("A PostgreSQL helper"),
        vec!["Database", "CLI"],
    );
    let ir = indexed(repo);
    assert_eq!(ir.full_name_lc, "foo/postgresbar");
    assert_eq!(ir.description_lc, "a postgresql helper");
    assert_eq!(ir.language_lc, "rust");
    assert_eq!(ir.topics_lc, "database cli");
    assert_eq!(
        ir.topics_lower,
        vec!["database".to_string(), "cli".to_string()]
    );
}

#[test]
fn indexed_repo_matches_case_insensitive() {
    let ir = indexed(r(
        "Foo/PostgresBar",
        Some("Rust"),
        10,
        Some("A PostgreSQL helper"),
        vec!["database"],
    ));
    assert!(ir.matches("postgres"));
    assert!(ir.matches("rust"));
    assert!(ir.matches("database"));
    assert!(ir.matches("helper"));
    assert!(!ir.matches("mysql"));
}

#[test]
fn indexed_repo_matches_empty_query() {
    let ir = indexed(r("a/b", None, 0, None, vec![]));
    assert!(ir.matches(""));
}

#[test]
fn indexed_repo_score_weight_order() {
    // Full-name match should outweigh description match
    let ir_name = indexed(r(
        "foo/postgres",
        Some("rust"),
        100,
        Some("irrelevant"),
        vec![],
    ));
    let ir_desc = indexed(r(
        "foo/bar",
        Some("rust"),
        100,
        Some("a postgres wrapper"),
        vec![],
    ));
    assert!(ir_name.score("postgres").rank > ir_desc.score("postgres").rank);
}

#[test]
fn indexed_repo_score_log_scaling_with_stars() {
    let low = indexed(r("a/postgres", None, 10, None, vec![]));
    let high = indexed(r("a/postgres", None, 10_000, None, vec![]));
    assert!(high.score("postgres").rank > low.score("postgres").rank);
}

#[test]
fn indexed_repo_score_zero_on_no_match() {
    let ir = indexed(r("a/b", Some("rust"), 100, Some("hi"), vec![]));
    assert_eq!(ir.score("nothinghere").number.as_f64(), Some(0.0));
}

#[test]
fn indexed_repo_score_adds_up_all_fields() {
    let mut repo = r("rust/x", Some("Rust"), 9, Some("rust"), vec!["Rust"]);
    repo.readme = Some("rust".to_string());
    let ir = indexed(repo);
    assert_eq!(ir.score("rust").number.as_f64(), Some(score_of(9, 9)));
    assert_eq!(ir.score("x").number.as_f64(), Some(score_of(3, 9)));
    // The empty text is found in every field that is not a missing README.
    assert_eq!(ir.score("").number.as_f64(), Some(score_of(9, 9)));
    let bare = indexed(r("a/b", None, 9, None, vec![]));
    assert_eq!(bare.score("").number.as_f64(), Some(score_of(8, 9)));
}

#[test]
fn indexed_repo_single_field_weights() {
    let cases = [
        (r("a/needle", None, 5, None, vec![]), 3),
        (r("a/b", None, 5, Some("needle"), vec![]), 2),
        (r("a/b", None, 5, None, vec!["needle"]), 2),
        (r("a/b", Some("needle"), 5, None, vec![]), 1),
    ];
    for (repo, weight) in cases {
        assert_eq!(
            indexed(repo).score("needle").number.as_f64(),
            Some(score_of(weight, 5))
        );
    }
    let mut with_readme = r("a/b", None, 5, None, vec![]);
    with_readme.readme = Some("a NEEDLE in a README".to_string());
    let ir = indexed(with_readme);
    assert!(ir.matches("needle"));
    assert_eq!(
        ir.score("needle").number.as_f64(),
        Some(score_of(1, 5))
    );
}

#[test]
fn indexed_repo_topics_are_one_text() {
    let ir = indexed(r("a/b", None, 1, None, vec!["One", "Two"]));
    assert!(ir.matches("one two"));
    assert!(ir.matches("e t"));
    assert!(!ir.matches("two one"));
}

#[test]
fn indexed_repo_lowercases_beyond_ascii() {
    let ir = indexed(r("a/ÉTÉ", None, 1, None, vec![]));
    assert_eq!(ir.full_name_lc, "a/été");
    assert!(ir.matches("été"));
}

// ─────────── RepoIndex ───────────

#[test]
fn index_search_finds_substring_across_fields() {
    let idx = index(sample_corpus());
    let hits = idx.search("postgres", None, None, 10);
    assert_eq!(hits.len(), 2);
    let names: Vec<&str> = hits.iter().map(|h| h.repo.full_name.as_str()).collect();
    assert!(names.contains(&"postgresml/postgresml"));
    assert!(names.contains(&"supabase/supabase"));
}

#[test]
fn index_search_language_filter() {
    let idx = index(sample_corpus());
    let hits = idx.search("", Some("Rust"), None, 10);
    assert_eq!(hits.len(), 2);
    for h in &hits {
        assert_eq!(h.repo.language.as_deref(), Some("Rust"));
    }
}

#[test]
fn index_search_topic_filter() {
    let idx = index(sample_corpus());
    let hits = idx.search("", None, Some("database"), 10);
    assert_eq!(hits.len(), 2);
    for h in &hits {
        assert!(h.repo.topics.iter().any(|t| t == "database"));
    }
}

#[test]
fn index_search_language_case_insensitive() {
    let idx = index(sample_corpus());
    let upper = idx.search("", Some("RUST"), None, 10);
    let lower = idx.search("", Some("rust"), None, 10);
    assert_eq!(upper.len(), lower.len());
    assert_eq!(upper.len(), 2);
}

#[test]
fn index_search_topic_case_insensitive() {
    let idx = index(sample_corpus());
    assert_eq!(idx.search("", None, Some("DataBase"), 10).len(), 2);
    assert_eq!(idx.match_count("", None, Some("DATABASE")), 2);
    // A topic is matched as a whole.
    assert_eq!(idx.search("", None, Some("data"), 10).len(), 0);
}

#[test]
fn index_search_limit_respected() {
    let idx = index(sample_corpus());
    let hits = idx.search("", None, None, 2);
    assert_eq!(hits.len(), 2);
    assert_eq!(idx.search("", None, None, 0).len(), 0);
}

#[test]
fn index_search_sort_desc_by_score_then_stars() {
    let idx = index(sample_corpus());
    let hits = idx.search("postgres", None, None, 10);
    assert!(hits.len() >= 2);
    for w in hits.windows(2) {
        assert!(number(&w[0]) >= number(&w[1]));
    }
}

#[test]
fn index_search_empty_query_matches_all() {
    let idx = index(sample_corpus());
    let hits = idx.search("", None, None, 100);
    assert_eq!(hits.len(), 5);
}

#[test]
fn index_search_no_matches() {
    let idx = index(sample_corpus());
    let hits = idx.search("absolutelynothinglikethis", None, None, 10);
    assert_eq!(hits.len(), 0);
}

#[test]
fn index_search_lru_cache_populates() {
    let idx = index(sample_corpus());
    assert_eq!(idx.cache_len(), 0);
    let _ = idx.search("postgres", None, None, 10);
    assert_eq!(idx.cache_len(), 1);
    let _ = idx.search("postgres", None, None, 10);
    assert_eq!(idx.cache_len(), 1);
    let _ = idx.search("react", None, None, 10);
    assert_eq!(idx.cache_len(), 2);
}

#[test]
fn index_search_cache_distinct_by_filters() {
    let idx = index(sample_corpus());
    let _ = idx.search("", None, None, 10);
    let _ = idx.search("", Some("Rust"), None, 10);
    let _ = idx.search("", None, Some("database"), 10);
    assert_eq!(idx.cache_len(), 3);
}

#[test]
fn index_match_count_matches_unlimited_search() {
    let idx = index(sample_corpus());
    let count = idx.match_count("postgres", None, None);
    let hits = idx.search("postgres", None, None, 1_000_000);
    assert_eq!(count, hits.len());
}

#[test]
fn index_is_empty_and_len() {
    let empty = RepoIndex::new(Vec::new());
    assert!(empty.is_empty());
    assert_eq!(empty.len(), 0);

    let populated = index(sample_corpus());
    assert!(!populated.is_empty());
    assert_eq!(populated.len(), 5);
}

#[test]
fn index_iter_keeps_the_order() {
    let idx = index(sample_corpus());
    let names: Vec<&str> = idx.iter().iter().map(|r| r.full_name.as_str()).collect();
    assert_eq!(
        names,
        vec![
            "launchbadge/sqlx",
            "postgresml/postgresml",
            "supabase/supabase",
            "facebook/react",
            "torvalds/linux",
        ]
    );
}

#[test]
fn index_cached_search_shows_the_same() {
    let idx = index(corpus());
    let first = idx.search("Rust", Some("rust"), None, 4);
    let second = idx.search("rUST", Some("RUST"), None, 4);
    assert_eq!(idx.cache_len(), 1);
    assert_eq!(first, second);
    assert_eq!(number(&first[0]), score_of(3 + 2 + 1, 90_000));
    assert_eq!(first[0].repo.full_name, "rust-lang/rust");
}

#[test]
fn index_ties_are_broken_by_stars_then_name() {
    let idx = index(vec![
        r("b/x", None, 0, None, vec![]),
        r("a/x", None, 0, None, vec![]),
        r("c/x", None, 7, None, vec![]),
        r("B/x", None, 0, None, vec![]),
    ]);
    // Without stars every score is zero.
    let hits = idx.search("x", None, None, 10);
    let names: Vec<&str> = hits.iter().map(|h| h.repo.full_name.as_str()).collect();
    assert_eq!(names, vec!["c/x", "B/x", "a/x", "b/x"]);
    assert_eq!(hit_order(&hits[1], &hits[2]), Ordering::Less);
    assert_eq!(hit_order(&hits[2], &hits[1]), Ordering::Greater);
    assert_eq!(hit_order(&hits[0], &hits[1]), Ordering::Less);
    assert_eq!(hit_order(&hits[3], &hits[3]), Ordering::Equal);
}

#[test]
fn index_cache_forgets_the_oldest_query() {
    let idx = index(sample_corpus());
    for i in 0..300 {
        let _ = idx.search(&format!("query {}", i), None, None, 1);
    }
    assert_eq!(idx.cache_len(), 256);
}

#[test]
fn index_search_fills_a_cache_of_the_caller() {
    let idx = index(sample_corpus());
    let mut cache = MatchCache::new();
    assert_eq!(cache.len(), 0);
    let first = idx.search_in(&mut cache, "postgres", None, None, 10);
    assert_eq!(cache.len(), 1);
    let again = idx.search_in(&mut cache, "POSTGRES", None, None, 1);
    assert_eq!(cache.len(), 1);
    assert_eq!(first[..1], again[..]);
    assert_eq!(idx.search_in(&mut cache, "postgres", Some("Rust"), None, 10).len(), 1);
    assert_eq!(cache.len(), 2);
    let _ = idx.search_in(&mut cache, "react", None, None, 10);
    assert_eq!(cache.len(), 3);
    // Counting leaves every cache alone, and so does a search with another one.
    let _ = idx.match_count("linux", None, None);
    assert_eq!(cache.len(), 3);
    assert_eq!(idx.cache_len(), 0);
    let key = SearchKey::new("React", None, None);
    assert_eq!(idx.lookup_in(&mut cache, &key), vec![3]);
    assert_eq!(cache.len(), 3);
}

#[test]
fn index_search_on_nothing_is_remembered_too() {
    let idx = RepoIndex::new(Vec::new());
    assert_eq!(idx.cache_len(), 0);
    let _ = idx.search("postgres", None, None, 10);
    let _ = idx.search("postgres", None, None, 10);
    assert_eq!(idx.cache_len(), 1);
    let _ = idx.search("postgres", Some("Rust"), None, 10);
    assert_eq!(idx.cache_len(), 2);
    let _ = idx.match_count("linux", None, None);
    assert_eq!(idx.cache_len(), 2);
    let _ = idx.search("react", None, None, 10);
    assert_eq!(idx.cache_len(), 3);
}

#[test]
fn index_filters_only_narrow() {
    let idx = index(corpus());
    let all = idx.match_count("", None, None);
    assert_eq!(all, idx.len());
    for query in ["", "rust", "postgres", "nothing"] {
        let plain = idx.match_count(query, None, None);
        assert!(plain <= all);
        for (lang, topic) in [(Some("rust"), None), (None, Some("rust")), (Some("C"), Some("x"))] {
            assert!(idx.match_count(query, lang, topic) <= plain);
        }
    }
}

#[test]
fn index_longer_query_finds_no_more() {
    let idx = index(corpus());
    let mut last = idx.match_count("", None, None);
    for query in ["r", "ru", "rus", "rust", "rust-", "rust-lang"] {
        let n = idx.match_count(query, None, None);
        assert!(n <= last, "{}", query);
        last = n;
    }
    let ir = indexed(r("rust-lang/rust", Some("Rust"), 9, Some("rust"), vec!["rust"]));
    assert!(ir.score("rust-lang").rank <= ir.score("rust").rank);
}

#[test]
fn search_key_is_lowercase() {
    let key = SearchKey::new("Ab", Some("RUST"), Some("Cli"));
    assert_eq!(key.query_lc, "ab");
    assert_eq!(key.lang_lc.as_deref(), Some("rust"));
    assert_eq!(key.topic.as_deref(), Some("cli"));
    assert_eq!(SearchKey::new("", None, None).lang_lc, None);
}

// ─────────── the query cache ───────────

fn key(query: &str) -> QueryKey {
    (query.to_string(), None, Some("t".to_string()))
}

#[test]
fn cache_recalls_what_was_recorded() {
    let mut cache = MatchCache::new();
    assert_eq!(cache.recall(&key("a")), None);
    cache.record(key("a"), vec![1, 2]);
    cache.record(key("b"), vec![]);
    assert_eq!(cache.recall(&key("a")), Some(vec![1, 2]));
    assert_eq!(cache.recall(&key("b")), Some(vec![]));
    cache.record(key("a"), vec![3]);
    assert_eq!(cache.recall(&key("a")), Some(vec![3]));
    assert_eq!(cache.len(), 2);
}

#[test]
fn cache_drops_the_least_recently_used() {
    let mut cache = MatchCache::new();
    for i in 0..256usize {
        cache.record(key(&i.to_string()), vec![i]);
    }
    assert_eq!(cache.len(), 256);
    // Looking up the oldest entry makes the second oldest the next to go.
    assert_eq!(cache.recall(&key("0")), Some(vec![0]));
    cache.record(key("new"), vec![7]);
    assert_eq!(cache.len(), 256);
    assert_eq!(cache.recall(&key("1")), None);
    assert_eq!(cache.recall(&key("0")), Some(vec![0]));
    assert_eq!(cache.recall(&key("255")), Some(vec![255]));
}

// ─────────── listing ───────────

#[test]
fn list_is_by_stars_and_stable() {
    let idx = index(vec![
        r("a/one", None, 5, None, vec![]),
        r("a/two", None, 9, None, vec![]),
        r("a/three", None, 5, None, vec![]),
        r("a/four", None, 7, None, vec![]),
        r("a/five", None, 5, None, vec![]),
    ]);
    let names = |limit: usize| -> Vec<String> {
        idx.by_stars(limit)
            .iter()
            .map(|r| r.full_name.clone())
            .collect()
    };
    assert_eq!(
        names(10),
        vec!["a/two", "a/four", "a/one", "a/three", "a/five"]
    );
    assert_eq!(names(3), vec!["a/two", "a/four", "a/one"]);
    assert!(names(0).is_empty());
}

// ─────────── the larger corpus ───────────

#[test]
fn search_postgres_finds_three() {
    let idx = index(corpus());
    let hits = idx.search("postgres", None, None, 100);
    let names: Vec<&str> = hits.iter().map(|h| h.repo.full_name.as_str()).collect();
    assert!(names.contains(&"postgresml/postgresml"));
    assert!(names.contains(&"supabase/supabase"));
    assert!(names.contains(&"prisma/prisma"));
}

#[test]
fn search_sorts_by_score_then_stars_desc() {
    let idx = index(corpus());
    let hits = idx.search("rust", None, None, 100);
    for w in hits.windows(2) {
        assert!(
            number(&w[0]) > number(&w[1])
                || (number(&w[0]) == number(&w[1])
                    && w[0].repo.stargazers_count >= w[1].repo.stargazers_count),
            "sort order violated between {:?} and {:?}",
            w[0],
            w[1]
        );
    }
}

#[test]
fn search_lang_filter_rust_only() {
    let idx = index(corpus());
    let hits = idx.search("", Some("rust"), None, 100);
    assert!(!hits.is_empty());
    for h in &hits {
        assert_eq!(h.repo.language.as_deref(), Some("Rust"));
    }
}

#[test]
fn search_lang_filter_is_case_insensitive() {
    let idx = index(corpus());
    let a = idx.search("", Some("RUST"), None, 100);
    let b = idx.search("", Some("rust"), None, 100);
    assert_eq!(a.len(), b.len());
}

#[test]
fn search_topic_filter_postgres() {
    let idx = index(corpus());
    let hits = idx.search("", None, Some("postgres"), 100);
    for h in &hits {
        assert!(h.repo.topics.iter().any(|t| t == "postgres"));
    }
    assert!(hits.len() >= 2);
}

#[test]
fn search_combined_query_and_lang_filter() {
    let idx = index(corpus());
    let hits = idx.search("postgres", Some("TypeScript"), None, 100);
    for h in &hits {
        assert_eq!(h.repo.language.as_deref(), Some("TypeScript"));
    }
    assert!(!hits.is_empty());
}

#[test]
fn search_limit_truncates_result_set() {
    let idx = index(corpus());
    let full = idx.search("", None, None, 100);
    let cut = idx.search("", None, None, 3);
    assert_eq!(full.len(), 10);
    assert_eq!(cut.len(), 3);
    // The top 3 of `cut` should equal the top 3 of `full` (same sort).
    for (a, b) in cut.iter().zip(full.iter().take(3)) {
        assert_eq!(a.repo.full_name, b.repo.full_name);
    }
}

#[test]
fn search_empty_query_matches_all() {
    let idx = index(corpus());
    let hits = idx.search("", None, None, 100);
    assert_eq!(hits.len(), corpus().len());
}

#[test]
fn search_unknown_term_returns_empty() {
    let idx = index(corpus());
    let hits = idx.search("definitelynothinglikethis", None, None, 100);
    assert!(hits.is_empty());
}

#[test]
fn match_count_equals_unlimited_search_len() {
    let idx = index(corpus());
    let total = idx.match_count("rust", None, None);
    let all = idx.search("rust", None, None, 1_000_000);
    assert_eq!(total, all.len());
}

#[test]
fn cache_grows_on_distinct_queries() {
    let idx = index(corpus());
    assert_eq!(idx.cache_len(), 0);
    let _ = idx.search("postgres", None, None, 10);
    let _ = idx.search("rust", None, None, 10);
    let _ = idx.search("javascript", None, None, 10);
    assert_eq!(idx.cache_len(), 3);
}

#[test]
fn cache_reuse_does_not_grow_on_repeat() {
    let idx = index(corpus());
    let _ = idx.search("postgres", None, None, 10);
    let _ = idx.search("postgres", None, None, 10);
    let _ = idx.search("postgres", None, None, 10);
    assert_eq!(idx.cache_len(), 1);
}

#[test]
fn cache_key_considers_lang_filter() {
    let idx = index(corpus());
    let _ = idx.search("rust", None, None, 10);
    let _ = idx.search("rust", Some("Rust"), None, 10);
    let _ = idx.search("rust", Some("TypeScript"), None, 10);
    assert_eq!(idx.cache_len(), 3);
}

#[test]
fn large_corpus_search_completes_quickly() {
    // 5000 synthetic repos. Mostly a smoke test that rayon + LRU don't
    // blow up on a reasonably sized corpus.
    let mut big = Vec::new();
    for i in 0..5_000 {
        let full = format!("user{}/repo{}", i % 100, i);
        big.push(r(
            &full,
            Some(if i % 3 == 0 { "Rust" } else { "Go" }),
            (i as u64) * 3,
            Some(&format!("synthetic description {}", i)),
            vec!["synthetic"],
        ));
    }
    let idx = index(big);
    let hits = idx.search("synthetic", None, None, 50);
    assert_eq!(hits.len(), 50);
    let rust_hits = idx.search("", Some("Rust"), None, 10_000);
    assert!(!rust_hits.is_empty());
    for h in &rust_hits {
        assert_eq!(h.repo.language.as_deref(), Some("Rust"));
    }
}

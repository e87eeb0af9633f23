//! The redb storage layer.

use redb::backends::InMemoryBackend;
use redb::Database;
use redb::ReadTransaction;
use redb::StorageError;
use redb::TableError;
use stargaze::count_repos;
use stargaze::load_all;
use stargaze::load_one;
use stargaze::read_meta;
use stargaze::retain_repos;
use stargaze::store::done;
use stargaze::store::looked_up;
use stargaze::store::opened;
use stargaze::store::upsert_repos_at;
use stargaze::store::walk_repos;
use stargaze::store::MetaTable;
use stargaze::store::Record;
use stargaze::store::RepoTable;
use stargaze::store::StoreError;
use stargaze::upsert_repos;
use stargaze::Json;
use stargaze::Repo;
use stargaze::StringHashSet;

fn tmp_db() -> Database {
    Database::builder()
        .create_with_backend(InMemoryBackend::new())
        .expect("open database")
}

fn make_repo(name: &str, stars: u64) -> Repo {
    Repo {
        full_name: name.to_string(),
        owner: name.split('/').next().unwrap_or("").to_string(),
        name: name.split('/').nth(1).unwrap_or("").to_string(),
        description: Some(format!("desc of {}", name)),
        url: format!("https://github.com/{}", name),
        language: Some("Rust".into()),
        stargazers_count: stars,
        forks_count: 0,
        open_issues_count: 0,
        topics: vec!["rust".to_string()],
        default_branch: Some("main".into()),
        license: Some("MIT".into()),
        archived: false,
        fork: false,
        pushed_at: None,
        created_at: None,
        updated_at: None,
        starred_at: None,
        cached_at: "2025-01-01T00:00:00Z".to_string(),
        readme: None,
        readme_fetched_at: None,
    }
}

fn record(repo: &Repo) -> Record {
    Record::new(repo, repo.to_json().to_text().unwrap().into_bytes())
}

fn parsed(bytes: &[u8]) -> Json {
    Json::parse(std::str::from_utf8(bytes).unwrap()).unwrap()
}

fn upsert(db: &Database, repos: &[Repo]) -> usize {
    let records: Vec<Record> = repos.iter().map(record).collect();
    let txn = db.begin_write().unwrap();
    let n = {
        let mut table = RepoTable::open(&txn).unwrap();
        let mut meta = MetaTable::open(&txn).unwrap();
        upsert_repos(&mut table, &mut meta, &records).unwrap()
    };
    txn.commit().unwrap();
    n
}

fn read(db: &Database) -> ReadTransaction {
    db.begin_read().unwrap()
}

fn retain(db: &Database, keep: &[&str]) -> usize {
    let mut set = StringHashSet::new();
    for name in keep {
        set.insert(name.to_string());
    }
    let walk = walk_repos(&read(db)).unwrap();
    retain_walked(db, &walk, &set)
}

fn retain_walked(
    db: &Database,
    walk: &Vec<Result<String, StorageError>>,
    keep: &StringHashSet,
) -> usize {
    let txn = db.begin_write().unwrap();
    let n = {
        let mut table = RepoTable::open(&txn).unwrap();
        retain_repos(&mut table, walk, keep).unwrap()
    };
    txn.commit().unwrap();
    n
}

#[test]
fn roundtrip_upsert_then_load_all() {
    let db = tmp_db();
    let repos = vec![
        make_repo("foo/a", 10),
        make_repo("foo/b", 20),
        make_repo("bar/c", 30),
    ];
    let n = upsert(&db, &repos);
    assert_eq!(n, 3);

    let loaded = load_all(&read(&db)).unwrap();
    assert_eq!(loaded.len(), 3);
    let names: Vec<&str> = loaded.iter().map(|r| r.full_name.as_str()).collect();
    assert!(names.contains(&"foo/a"));
    assert!(names.contains(&"foo/b"));
    assert!(names.contains(&"bar/c"));
    // Alphabetical, and each with what was stored for it.
    assert_eq!(names, vec!["bar/c", "foo/a", "foo/b"]);
    assert_eq!(loaded[0], record(&repos[2]));
    assert_eq!(loaded[1], record(&repos[0]));
    assert_eq!(loaded[2], record(&repos[1]));
}

#[test]
fn load_all_empty_before_any_write() {
    let db = tmp_db();
    let loaded = load_all(&read(&db)).unwrap();
    assert!(loaded.is_empty());
}

#[test]
fn count_repos_matches_load_all_len() {
    let db = tmp_db();
    let repos = vec![
        make_repo("foo/a", 1),
        make_repo("foo/b", 2),
        make_repo("foo/c", 3),
        make_repo("foo/d", 4),
    ];
    upsert(&db, &repos);
    assert_eq!(count_repos(&read(&db)).unwrap(), 4);
    assert_eq!(load_all(&read(&db)).unwrap().len(), 4);
}

#[test]
fn count_repos_before_any_write_is_zero() {
    assert_eq!(count_repos(&read(&tmp_db())).unwrap(), 0);
}

#[test]
fn upsert_is_idempotent_on_same_full_name() {
    let db = tmp_db();
    let r = make_repo("foo/a", 10);
    upsert(&db, std::slice::from_ref(&r));
    upsert(&db, std::slice::from_ref(&r));
    upsert(&db, std::slice::from_ref(&r));
    assert_eq!(count_repos(&read(&db)).unwrap(), 1);
}

#[test]
fn upsert_overwrites_changed_fields() {
    let db = tmp_db();
    let mut r = make_repo("foo/a", 10);
    upsert(&db, &[r.clone()]);

    r.stargazers_count = 999;
    r.description = Some("new desc".into());
    upsert(&db, &[r.clone()]);

    let bytes = load_one(&read(&db), "foo/a").unwrap().unwrap();
    let loaded = parsed(&bytes);
    assert_eq!(loaded.u64_at("stargazers_count"), Some(999));
    assert_eq!(loaded.str_at("description"), Some("new desc"));
}

#[test]
fn upsert_last_of_one_name_counts() {
    let db = tmp_db();
    let repos = [make_repo("foo/a", 1), make_repo("foo/a", 2)];
    assert_eq!(upsert(&db, &repos), 2);
    assert_eq!(count_repos(&read(&db)).unwrap(), 1);
    let bytes = load_one(&read(&db), "foo/a").unwrap().unwrap();
    assert_eq!(parsed(&bytes).u64_at("stargazers_count"), Some(2));
}

#[test]
fn load_one_missing_returns_none() {
    let db = tmp_db();
    upsert(&db, &[make_repo("foo/a", 1)]);
    assert!(load_one(&read(&db), "nope/nope").unwrap().is_none());
}

#[test]
fn load_one_before_any_write_returns_none() {
    let db = tmp_db();
    assert!(load_one(&read(&db), "foo/a").unwrap().is_none());
}

#[test]
fn meta_tracks_last_sync_time_and_count() {
    let db = tmp_db();
    upsert(&db, &[make_repo("foo/a", 1), make_repo("foo/b", 2)]);

    let ts = read_meta(&read(&db), "last_sync").unwrap().unwrap();
    assert!(ts.contains('T'), "expected ISO-8601 timestamp, got {}", ts);
    assert!(ts.ends_with("+00:00"), "expected UTC, got {}", ts);

    let count = read_meta(&read(&db), "last_sync_count").unwrap().unwrap();
    assert_eq!(count, "2");
}

#[test]
fn meta_holds_the_given_time() {
    let db = tmp_db();
    let txn = db.begin_write().unwrap();
    {
        let mut table = RepoTable::open(&txn).unwrap();
        let mut meta = MetaTable::open(&txn).unwrap();
        let n = upsert_repos_at(&mut table, &mut meta, &Vec::new(), "then").unwrap();
        assert_eq!(n, 0);
    }
    txn.commit().unwrap();
    let meta = read(&db);
    assert_eq!(read_meta(&meta, "last_sync").unwrap().as_deref(), Some("then"));
    assert_eq!(
        read_meta(&meta, "last_sync_count").unwrap().as_deref(),
        Some("0")
    );
}

#[test]
fn read_meta_missing_key_returns_none() {
    let db = tmp_db();
    assert!(read_meta(&read(&db), "nonexistent").unwrap().is_none());
    upsert(&db, &[]);
    assert!(read_meta(&read(&db), "nonexistent").unwrap().is_none());
}

#[test]
fn retain_repos_removes_missing_keys() {
    let db = tmp_db();
    upsert(
        &db,
        &[
            make_repo("foo/a", 1),
            make_repo("foo/b", 2),
            make_repo("foo/c", 3),
        ],
    );

    let removed = retain(&db, &["foo/a", "foo/c"]);
    assert_eq!(removed, 1);

    let remaining = load_all(&read(&db)).unwrap();
    assert_eq!(remaining.len(), 2);
    assert!(remaining.iter().any(|r| r.full_name == "foo/a"));
    assert!(remaining.iter().any(|r| r.full_name == "foo/c"));
    assert!(remaining.iter().all(|r| r.full_name != "foo/b"));
}

#[test]
fn retain_repos_noop_when_all_kept() {
    let db = tmp_db();
    upsert(&db, &[make_repo("foo/a", 1), make_repo("foo/b", 2)]);
    assert_eq!(retain(&db, &["foo/a", "foo/b"]), 0);
    assert_eq!(count_repos(&read(&db)).unwrap(), 2);
}

#[test]
fn retain_repos_empty_table_is_zero() {
    let db = tmp_db();
    assert_eq!(retain(&db, &[]), 0);
}

#[test]
fn walk_gives_the_keys_in_order() {
    let db = tmp_db();
    assert!(walk_repos(&read(&db)).unwrap().is_empty());
    upsert(
        &db,
        &[make_repo("b/b", 1), make_repo("a/z", 2), make_repo("B/a", 3)],
    );
    let keys: Vec<String> = walk_repos(&read(&db))
        .unwrap()
        .into_iter()
        .map(|row| row.unwrap())
        .collect();
    assert_eq!(keys, vec!["B/a", "a/z", "b/b"]);
}

#[test]
fn retain_passes_over_rows_that_cannot_be_read() {
    let db = tmp_db();
    upsert(
        &db,
        &[make_repo("a/a", 1), make_repo("b/b", 2), make_repo("c/c", 3)],
    );
    let mut keep = StringHashSet::new();
    keep.insert("b/b".to_string());
    let walk = vec![
        Ok("a/a".to_string()),
        Ok("b/b".to_string()),
        Err(StorageError::PreviousIo),
    ];
    assert_eq!(retain_walked(&db, &walk, &keep), 1);
    let names: Vec<String> = load_all(&read(&db))
        .unwrap()
        .into_iter()
        .map(|r| r.full_name)
        .collect();
    assert_eq!(names, vec!["b/b", "c/c"]);
}

#[test]
fn prune_after_sync_leaves_the_synced() {
    let db = tmp_db();
    upsert(&db, &[make_repo("old/a", 1), make_repo("old/b", 2)]);
    upsert(&db, &[make_repo("old/b", 3), make_repo("new/c", 4)]);
    assert_eq!(retain(&db, &["old/b", "new/c", "not/there"]), 1);
    let names: Vec<String> = load_all(&read(&db))
        .unwrap()
        .into_iter()
        .map(|r| r.full_name)
        .collect();
    assert_eq!(names, vec!["new/c", "old/b"]);
}

#[test]
fn snapshot_does_not_see_later_writes() {
    let db = tmp_db();
    upsert(&db, &[make_repo("foo/a", 1)]);
    let before = read(&db);
    upsert(&db, &[make_repo("foo/b", 2)]);
    assert_eq!(count_repos(&before).unwrap(), 1);
    assert_eq!(count_repos(&read(&db)).unwrap(), 2);
}

#[test]
fn many_repos_roundtrip() {
    let db = tmp_db();
    let repos: Vec<Repo> = (0..500)
        .map(|i| make_repo(&format!("user/repo{}", i), i as u64))
        .collect();
    upsert(&db, &repos);
    assert_eq!(count_repos(&read(&db)).unwrap(), 500);
    let loaded = load_all(&read(&db)).unwrap();
    assert_eq!(loaded.len(), 500);
}

#[test]
fn answers_of_the_database_are_passed_on() {
    assert!(matches!(opened(Ok(7)), Ok(7)));
    assert!(matches!(done(Ok("x")), Ok("x")));
    assert!(matches!(looked_up(Ok(Some(Ok(7))), 0), Ok(7)));
    // Where there is no table there is nothing to read, and nothing wrong.
    assert!(matches!(looked_up(Ok(None), 3), Ok(3)));
}

#[test]
fn errors_of_the_database_are_told_apart() {
    let table = || TableError::TableIsMultimap("repos".to_string());
    let storage = || StorageError::ValueTooLarge(9);
    assert!(matches!(
        opened::<u8>(Err(table())),
        Err(StoreError::Table(TableError::TableIsMultimap(_)))
    ));
    assert!(matches!(
        done::<u8>(Err(storage())),
        Err(StoreError::Storage(StorageError::ValueTooLarge(9)))
    ));
    assert!(matches!(
        looked_up::<u8>(Err(table()), 0),
        Err(StoreError::Table(TableError::TableIsMultimap(_)))
    ));
    assert!(matches!(
        looked_up::<u8>(Ok(Some(Err(storage()))), 0),
        Err(StoreError::Storage(StorageError::ValueTooLarge(9)))
    ));
}

#[test]
fn table_cannot_be_opened_twice_for_writing() {
    let db = tmp_db();
    let txn = db.begin_write().unwrap();
    let first = RepoTable::open(&txn);
    assert!(first.is_ok());
    assert!(matches!(
        RepoTable::open(&txn),
        Err(StoreError::Table(TableError::TableAlreadyOpen(_, _)))
    ));
    // The tables have names of their own.
    assert!(MetaTable::open(&txn).is_ok());
}

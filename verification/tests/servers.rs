//! The MCP server and the HTTP API.

use redb::backends::InMemoryBackend;
use redb::Database;
use redb::StorageError;
use stargaze::api::api_request_need;
use stargaze::api::api_store_need;
use stargaze::api::is_readable;
use stargaze::api::ApiReply;
use stargaze::api::ApiRequest;
use stargaze::handle_api_request;
use stargaze::handle_mcp_request;
use stargaze::load_one;
use stargaze::mcp::mcp_store_need;
use stargaze::mcp::read_line;
use stargaze::mcp::respond;
use stargaze::mcp::write_line;
use stargaze::mcp::Line;
use stargaze::mcp::Output;
use stargaze::replies::read_stats;
use stargaze::replies::StoreNeed;
use stargaze::replies::StoreReads;
use stargaze::route_api;
use stargaze::store::MetaTable;
use stargaze::store::Record;
use stargaze::store::upsert_repos_at;
use stargaze::store::RepoTable;
use stargaze::store::StoreError;
use stargaze::upsert_repos;
use stargaze::ApiResponse;
use stargaze::Json;
use stargaze::Repo;
use stargaze::RepoIndex;
use stargaze::Score;
use stargaze::StringHashMap;
use stargaze::MCP_PROTOCOL_VERSION;

fn scores(stars: u64) -> [Score; 10] {
    std::array::from_fn(|weight| {
        let score = (weight as f64) * ((stars as f64) + 1.0).ln();
        Score {
            rank: score.to_bits(),
            number: serde_json::Number::from_f64(score).unwrap(),
        }
    })
}

fn make_repo(
    full_name: &str,
    lang: Option<&str>,
    stars: u64,
    desc: Option<&str>,
    topics: Vec<&str>,
) -> Repo {
    Repo {
        full_name: full_name.to_string(),
        owner: full_name.split('/').next().unwrap_or("").to_string(),
        name: full_name.split('/').nth(1).unwrap_or("").to_string(),
        description: desc.map(String::from),
        url: format!("https://github.com/{}", full_name),
        language: lang.map(String::from),
        stargazers_count: stars,
        forks_count: 0,
        open_issues_count: 0,
        topics: topics.iter().map(|s| s.to_string()).collect(),
        default_branch: Some("main".into()),
        license: None,
        archived: false,
        fork: false,
        pushed_at: None,
        created_at: None,
        updated_at: None,
        starred_at: None,
        cached_at: "2025-01-01T00:00:00Z".to_string(),
        readme: None,
        readme_fetched_at: None,
    }
}

fn sample_corpus() -> Vec<Repo> {
    vec![
        make_repo(
            "launchbadge/sqlx",
            Some("Rust"),
            16000,
            Some("Rust SQL toolkit"),
            vec!["database", "rust", "sql"],
        ),
        make_repo(
            "postgresml/postgresml",
            Some("Rust"),
            6000,
            Some("Postgres with GPUs for ML"),
            vec!["postgres", "ml"],
        ),
        make_repo(
            "supabase/supabase",
            Some("TypeScript"),
            100000,
            Some("The Postgres development platform"),
            vec!["postgres", "database", "supabase"],
        ),
        make_repo(
            "facebook/react",
            Some("JavaScript"),
            200000,
            Some("A JavaScript library"),
            vec!["javascript", "ui"],
        ),
        make_repo(
            "torvalds/linux",
            Some("C"),
            150000,
            Some("Linux kernel"),
            vec![],
        ),
    ]
}

/// The index over the sample corpus, and a store that holds it.
fn test_index() -> (RepoIndex, Database) {
    let repos = sample_corpus();
    let db = Database::builder()
        .create_with_backend(InMemoryBackend::new())
        .unwrap();
    let records: Vec<Record> = repos
        .iter()
        .map(|r| Record::new(r, r.to_json().to_text().unwrap().into_bytes()))
        .collect();
    let txn = db.begin_write().unwrap();
    {
        let mut table = RepoTable::open(&txn).unwrap();
        let mut meta = MetaTable::open(&txn).unwrap();
        upsert_repos(&mut table, &mut meta, &records).unwrap();
    }
    txn.commit().unwrap();
    let scored = repos
        .into_iter()
        .map(|r| {
            let s = scores(r.stargazers_count);
            (r, s)
        })
        .collect();
    (RepoIndex::new(scored), db)
}

/// What was not read.
fn no_reads() -> StoreReads {
    StoreReads {
        count: Err(StoreError::Storage(StorageError::PreviousIo)),
        last_sync: Err(StoreError::Storage(StorageError::PreviousIo)),
        last_sync_count: Err(StoreError::Storage(StorageError::PreviousIo)),
        record: Err("not read".to_string()),
    }
}

fn reads(need: &StoreNeed, db: &Database) -> StoreReads {
    let txn = db.begin_read().unwrap();
    match need {
        StoreNeed::Nothing => no_reads(),
        StoreNeed::Stats => read_stats(&txn),
        StoreNeed::Record(name) => {
            let found = load_one(&txn, name).unwrap();
            StoreReads {
                record: Ok(found.map(|_| {
                    sample_corpus()
                        .into_iter()
                        .find(|r| r.full_name == *name)
                        .unwrap()
                })),
                ..no_reads()
            }
        }
    }
}

fn mcp(req: &str, index: &RepoIndex, db: &Database) -> Option<Json> {
    let req = Json::parse(req).unwrap();
    let reads = reads(&mcp_store_need(&req), db);
    handle_mcp_request(&req, index, &reads)
}

fn at<'a>(v: &'a Json, path: &[&str]) -> &'a Json {
    path.iter().fold(v, |v, key| v.get(key).unwrap())
}

fn text_of(resp: &Json) -> String {
    let content = at(resp, &["result", "content"]).as_array().unwrap();
    content[0].str_at("text").unwrap().to_string()
}

// ─────────── MCP protocol handler ───────────

#[test]
fn mcp_initialize_advertises_tools_capability() {
    let (idx, db) = test_index();
    let req = r#"{
        "jsonrpc": "2.0",
        "id": 1,
        "method": "initialize",
        "params": {}
    }"#;
    let resp = mcp(req, &idx, &db).unwrap();
    assert_eq!(resp.u64_at("id"), Some(1));
    assert_eq!(
        at(&resp, &["result", "serverInfo"]).str_at("name"),
        Some("stargaze")
    );
    assert!(matches!(
        at(&resp, &["result", "capabilities", "tools"]),
        Json::Object(_)
    ));
    assert_eq!(
        at(&resp, &["result"]).str_at("protocolVersion").unwrap(),
        MCP_PROTOCOL_VERSION
    );
}

#[test]
fn mcp_tools_list_includes_search_stars() {
    let (idx, db) = test_index();
    let req = r#"{
        "jsonrpc": "2.0",
        "id": 2,
        "method": "tools/list",
        "params": {}
    }"#;
    let resp = mcp(req, &idx, &db).unwrap();
    let tools = at(&resp, &["result", "tools"]).as_array().unwrap();
    let names: Vec<&str> = tools.iter().filter_map(|t| t.str_at("name")).collect();
    assert!(names.contains(&"search_stars"));
    assert!(names.contains(&"show_star"));
    assert!(names.contains(&"list_stars"));
    assert!(names.contains(&"stats"));
}

#[test]
fn mcp_tools_call_search_stars_returns_hits() {
    let (idx, db) = test_index();
    let req = r#"{
        "jsonrpc": "2.0",
        "id": 3,
        "method": "tools/call",
        "params": {
            "name": "search_stars",
            "arguments": {"query": "postgres", "limit": 10}
        }
    }"#;
    let resp = mcp(req, &idx, &db).unwrap();
    let content = at(&resp, &["result", "content"]).as_array().unwrap();
    assert!(!content.is_empty());
    let text = content[0].str_at("text").unwrap();
    assert!(text.contains("postgres") || text.contains("supabase"));
}

#[test]
fn mcp_tools_call_search_stars_missing_query_errors() {
    let (idx, db) = test_index();
    let req = r#"{
        "jsonrpc": "2.0",
        "id": 4,
        "method": "tools/call",
        "params": {
            "name": "search_stars",
            "arguments": {}
        }
    }"#;
    let resp = mcp(req, &idx, &db).unwrap();
    assert!(resp.get("error").is_some());
}

#[test]
fn mcp_tools_call_show_star_returns_record_or_null() {
    let (idx, db) = test_index();
    let req = r#"{
        "jsonrpc": "2.0",
        "id": 5,
        "method": "tools/call",
        "params": {
            "name": "show_star",
            "arguments": {"full_name": "supabase/supabase"}
        }
    }"#;
    let resp = mcp(req, &idx, &db).unwrap();
    assert!(text_of(&resp).contains("supabase/supabase"));
    let missing = req.replace("supabase/supabase", "nope/nope");
    assert_eq!(text_of(&mcp(&missing, &idx, &db).unwrap()), "null");
}

#[test]
fn mcp_tools_call_stats_returns_cache_size() {
    let (idx, db) = test_index();
    let req = r#"{
        "jsonrpc": "2.0",
        "id": 6,
        "method": "tools/call",
        "params": {"name": "stats", "arguments": {}}
    }"#;
    let resp = mcp(req, &idx, &db).unwrap();
    let text = text_of(&resp);
    assert!(text.contains("cached"));
    let stats = Json::parse(&text).unwrap();
    assert_eq!(stats.u64_at("cached"), Some(5));
    assert_eq!(stats.str_at("last_sync_count"), Some("5"));
    assert!(stats.str_at("last_sync").unwrap().contains('T'));
}

#[test]
fn mcp_tools_call_list_stars_respects_limit() {
    let (idx, db) = test_index();
    let req = r#"{
        "jsonrpc": "2.0",
        "id": 7,
        "method": "tools/call",
        "params": {
            "name": "list_stars",
            "arguments": {"limit": 2}
        }
    }"#;
    let resp = mcp(req, &idx, &db).unwrap();
    let parsed = Json::parse(&text_of(&resp)).unwrap();
    let listed = parsed.as_array().unwrap();
    assert_eq!(listed.len(), 2);
    assert_eq!(listed[0].str_at("full_name"), Some("facebook/react"));
    assert_eq!(listed[1].str_at("full_name"), Some("torvalds/linux"));
}

#[test]
fn mcp_notification_gets_no_response() {
    let (idx, db) = test_index();
    let req = r#"{
        "jsonrpc": "2.0",
        "method": "notifications/initialized"
    }"#;
    assert!(mcp(req, &idx, &db).is_none());
}

#[test]
fn mcp_unknown_method_returns_jsonrpc_error() {
    let (idx, db) = test_index();
    let req = r#"{
        "jsonrpc": "2.0",
        "id": 99,
        "method": "definitely/not/a/method"
    }"#;
    let resp = mcp(req, &idx, &db).unwrap();
    assert_eq!(at(&resp, &["error", "code"]), &Json::Signed(-32601));
    assert_eq!(
        at(&resp, &["error"]).str_at("message"),
        Some("method not found: definitely/not/a/method")
    );
}

#[test]
fn mcp_tools_call_unknown_tool_returns_error() {
    let (idx, db) = test_index();
    let req = r#"{
        "jsonrpc": "2.0",
        "id": 42,
        "method": "tools/call",
        "params": {"name": "not_a_real_tool", "arguments": {}}
    }"#;
    let resp = mcp(req, &idx, &db).unwrap();
    assert_eq!(at(&resp, &["error", "code"]), &Json::Signed(-32601));
}

#[test]
fn mcp_ping_echoes_the_id() {
    let (idx, db) = test_index();
    let resp = mcp(r#"{"id": "abc", "method": "ping"}"#, &idx, &db).unwrap();
    assert_eq!(
        resp.to_text().unwrap(),
        r#"{"id":"abc","jsonrpc":"2.0","result":{}}"#
    );
    let resp = mcp(r#"{"method": "ping"}"#, &idx, &db).unwrap();
    assert_eq!(resp.get("id"), Some(&Json::Null));
}

#[test]
fn mcp_request_without_a_method() {
    let (idx, db) = test_index();
    let resp = mcp("{}", &idx, &db).unwrap();
    assert_eq!(
        resp.to_text().unwrap(),
        r#"{"error":{"code":-32601,"message":"method not found: "},"id":null,"jsonrpc":"2.0"}"#
    );
}

#[test]
fn mcp_tools_call_refuses_what_is_incomplete() {
    let (idx, db) = test_index();
    let cases = [
        (r#"{"method":"tools/call"}"#, "missing params"),
        (r#"{"method":"tools/call","params":{}}"#, "missing params.name"),
        (
            r#"{"method":"tools/call","params":{"name":"search_stars"}}"#,
            "missing arguments.query",
        ),
        (
            r#"{"method":"tools/call","params":{"name":"show_star","arguments":{"full_name":1}}}"#,
            "missing arguments.full_name",
        ),
    ];
    for (req, message) in cases {
        let resp = mcp(req, &idx, &db).unwrap();
        assert_eq!(at(&resp, &["error", "code"]), &Json::Signed(-32602));
        assert_eq!(at(&resp, &["error"]).str_at("message"), Some(message));
    }
}

#[test]
fn mcp_show_star_reports_a_load_error() {
    let (idx, _db) = test_index();
    let req = Json::parse(
        r#"{"id":1,"method":"tools/call","params":{"name":"show_star","arguments":{"full_name":"a/b"}}}"#,
    )
    .unwrap();
    let mut reads = no_reads();
    reads.record = Err("disk on fire".to_string());
    let resp = handle_mcp_request(&req, &idx, &reads).unwrap();
    assert_eq!(at(&resp, &["error", "code"]), &Json::Signed(-32603));
    assert_eq!(
        at(&resp, &["error"]).str_at("message"),
        Some("load error: disk on fire")
    );
}

#[test]
fn mcp_stats_that_cannot_be_read_are_empty() {
    let (idx, _db) = test_index();
    let req = Json::parse(r#"{"id":1,"method":"tools/call","params":{"name":"stats"}}"#).unwrap();
    let resp = handle_mcp_request(&req, &idx, &no_reads()).unwrap();
    let stats = Json::parse(&text_of(&resp)).unwrap();
    assert_eq!(
        stats.to_text().unwrap(),
        r#"{"cached":0,"last_sync":null,"last_sync_count":null}"#
    );
}

#[test]
fn mcp_store_need_is_what_is_read() {
    let need = |req: &str| mcp_store_need(&Json::parse(req).unwrap());
    assert_eq!(need(r#"{"method":"initialize"}"#), StoreNeed::Nothing);
    assert_eq!(
        need(r#"{"method":"tools/call","params":{"name":"stats"}}"#),
        StoreNeed::Stats
    );
    assert_eq!(
        need(r#"{"method":"tools/call","params":{"name":"show_star","arguments":{"full_name":"a/b"}}}"#),
        StoreNeed::Record("a/b".to_string())
    );
    assert_eq!(
        need(r#"{"method":"tools/call","params":{"name":"show_star"}}"#),
        StoreNeed::Nothing
    );
    assert_eq!(
        need(r#"{"method":"tools/call","params":{"name":"list_stars"}}"#),
        StoreNeed::Nothing
    );
}

#[test]
fn mcp_lines_are_read_one_by_one() {
    assert!(matches!(read_line(""), Line::End));
    assert!(matches!(read_line(" \t \r\n"), Line::Blank));
    assert!(matches!(read_line("\u{3000}\u{a0}\n"), Line::Blank));
    assert!(matches!(read_line("{oops\n"), Line::Malformed(_)));
    match read_line("  {\"method\":\"ping\"} \n") {
        Line::Request(req) => assert_eq!(req.str_at("method"), Some("ping")),
        other => panic!("{:?}", other),
    }
}

#[test]
fn mcp_answer_is_one_line() {
    let line = write_line(&Json::object().with("a", Json::text("x\ny"))).unwrap();
    assert_eq!(line, "{\"a\":\"x\\ny\"}\n");
}

#[test]
fn mcp_responds_with_a_line_or_not_at_all() {
    let (idx, _db) = test_index();
    let ping = Json::parse(r#"{"id":1,"method":"ping"}"#).unwrap();
    assert_eq!(
        respond(&ping, &idx, &no_reads()),
        Output::Line("{\"id\":1,\"jsonrpc\":\"2.0\",\"result\":{}}\n".to_string())
    );
    let note = Json::parse(r#"{"method":"notifications/cancelled"}"#).unwrap();
    assert_eq!(respond(&note, &idx, &no_reads()), Output::Nothing);
}

#[test]
fn mcp_tools_list_schema() {
    let (idx, db) = test_index();
    let resp = mcp(r#"{"id":1,"method":"tools/list"}"#, &idx, &db).unwrap();
    let tools = at(&resp, &["result", "tools"]).as_array().unwrap();
    let search = tools[0].get("inputSchema").unwrap();
    assert_eq!(
        search.to_text().unwrap(),
        r#"{"properties":{"lang":{"description":"Optional primary language filter (case-insensitive exact match)","type":"string"},"limit":{"default":30,"description":"Max results to return","type":"integer"},"query":{"description":"Substring to search for (case-insensitive)","type":"string"},"topic":{"description":"Optional topic filter (exact match)","type":"string"}},"required":["query"],"type":"object"}"#
    );
    let list = tools[2].get("inputSchema").unwrap();
    assert_eq!(
        list.to_text().unwrap(),
        r#"{"properties":{"limit":{"default":50,"type":"integer"}},"type":"object"}"#
    );
    assert_eq!(
        tools[3].str_at("description"),
        Some("Cache size, last sync timestamp, top languages.")
    );
}

// ─────────── HTTP API router ───────────

fn api_params(pairs: &[(&str, &str)]) -> StringHashMap<String> {
    let mut params = StringHashMap::new();
    for (k, v) in pairs {
        params.insert(k.to_string(), v.to_string());
    }
    params
}

fn route(method: &str, path: &str, pairs: &[(&str, &str)], idx: &RepoIndex, db: &Database) -> ApiResponse {
    let reads = reads(&api_store_need(method, path), db);
    route_api(method, path, &api_params(pairs), idx, &reads)
}

#[test]
fn api_health_returns_200_with_version() {
    let (idx, db) = test_index();
    let r = route("GET", "/api/v1/health", &[], &idx, &db);
    assert_eq!(r.status, 200);
    assert_eq!(r.body.str_at("status"), Some("ok"));
    assert!(r.body.str_at("version").is_some());
    assert_eq!(r.body.u64_at("cached"), Some(idx.len() as u64));
}

#[test]
fn api_stats_matches_cache_size() {
    let (idx, db) = test_index();
    let r = route("GET", "/api/v1/stats", &[], &idx, &db);
    assert_eq!(r.status, 200);
    assert_eq!(r.body.u64_at("cached"), Some(idx.len() as u64));
}

#[test]
fn api_search_requires_q_param() {
    let (idx, db) = test_index();
    let r = route("GET", "/api/v1/search", &[], &idx, &db);
    assert_eq!(r.status, 400);
}

#[test]
fn api_search_returns_hits_with_total() {
    let (idx, db) = test_index();
    let r = route(
        "GET",
        "/api/v1/search",
        &[("q", "postgres"), ("limit", "5")],
        &idx,
        &db,
    );
    assert_eq!(r.status, 200);
    assert!(r.body.u64_at("total").unwrap() >= 2);
    let hits = r.body.get("hits").unwrap().as_array().unwrap();
    assert!(hits.len() >= 2);
    let names: Vec<&str> = hits.iter().filter_map(|h| h.str_at("full_name")).collect();
    assert!(names.contains(&"supabase/supabase"));
}

#[test]
fn api_search_lang_filter() {
    let (idx, db) = test_index();
    let r = route(
        "GET",
        "/api/v1/search",
        &[("q", ""), ("lang", "Rust")],
        &idx,
        &db,
    );
    assert_eq!(r.status, 200);
    let hits = r.body.get("hits").unwrap().as_array().unwrap();
    assert_eq!(hits.len(), 2);
    for h in hits {
        assert_eq!(h.str_at("language"), Some("Rust"));
    }
}

#[test]
fn api_list_respects_limit() {
    let (idx, db) = test_index();
    let r = route("GET", "/api/v1/list", &[("limit", "3")], &idx, &db);
    assert_eq!(r.status, 200);
    let arr = r.body.as_array().unwrap();
    assert_eq!(arr.len(), 3);
}

#[test]
fn api_show_existing_repo() {
    let (idx, db) = test_index();
    let r = route("GET", "/api/v1/stars/supabase/supabase", &[], &idx, &db);
    assert_eq!(r.status, 200);
    assert_eq!(r.body.str_at("full_name"), Some("supabase/supabase"));
}

#[test]
fn api_show_missing_repo_returns_404() {
    let (idx, db) = test_index();
    let r = route("GET", "/api/v1/stars/nope/nope", &[], &idx, &db);
    assert_eq!(r.status, 404);
    assert_eq!(
        r.body.to_text().unwrap(),
        r#"{"detail":"nope/nope","error":"not found"}"#
    );
}

#[test]
fn api_unknown_path_returns_404() {
    let (idx, db) = test_index();
    let r = route("GET", "/not/a/path", &[], &idx, &db);
    assert_eq!(r.status, 404);
    assert_eq!(r.body.str_at("detail"), Some("/not/a/path"));
}

#[test]
fn api_non_get_returns_405() {
    let (idx, db) = test_index();
    let r = route("POST", "/api/v1/search", &[], &idx, &db);
    assert_eq!(r.status, 405);
    assert_eq!(
        r.body.to_text().unwrap(),
        r#"{"error":"method not allowed"}"#
    );
}

#[test]
fn api_search_hit_has_every_field() {
    let (idx, db) = test_index();
    let r = route("GET", "/api/v1/search", &[("q", "linux")], &idx, &db);
    let score = 5.0 * (150001f64).ln();
    assert_eq!(
        r.body.to_text().unwrap(),
        format!(
            r#"{{"hits":[{{"description":"Linux kernel","full_name":"torvalds/linux","language":"C","score":{},"stars":150000,"topics":[],"url":"https://github.com/torvalds/linux"}}],"shown":1,"total":1}}"#,
            serde_json::Number::from_f64(score).unwrap()
        )
    );
}

#[test]
fn api_limit_falls_back_where_it_is_no_number() {
    let (idx, db) = test_index();
    for (limit, shown) in [("2", 2), ("+2", 2), ("x", 5), ("-1", 5), ("", 5), ("99999999999999999999999", 5), ("0", 0)] {
        let r = route("GET", "/api/v1/list", &[("limit", limit)], &idx, &db);
        assert_eq!(r.body.as_array().unwrap().len(), shown, "{}", limit);
        let r = route("GET", "/api/v1/search", &[("q", ""), ("limit", limit)], &idx, &db);
        assert_eq!(r.body.u64_at("shown"), Some(shown as u64), "{}", limit);
        assert_eq!(r.body.u64_at("total"), Some(5));
    }
}

#[test]
fn api_stars_wants_owner_and_name() {
    let (idx, db) = test_index();
    for path in ["/api/v1/stars/", "/api/v1/stars/nameonly"] {
        let r = route("GET", path, &[], &idx, &db);
        assert_eq!(r.status, 400);
        assert_eq!(
            r.body.str_at("detail"),
            Some("path must be /api/v1/stars/<owner>/<name>")
        );
    }
    // The prefix is taken off as often as it is there.
    let twice = "/api/v1/stars//api/v1/stars/torvalds/linux";
    assert_eq!(
        api_store_need("GET", twice),
        StoreNeed::Record("torvalds/linux".to_string())
    );
    assert_eq!(route("GET", twice, &[], &idx, &db).status, 200);
}

#[test]
fn api_show_reports_an_internal_error() {
    let (idx, _db) = test_index();
    let mut reads = no_reads();
    reads.record = Err("disk on fire".to_string());
    let r = route_api("GET", "/api/v1/stars/a/b", &api_params(&[]), &idx, &reads);
    assert_eq!(r.status, 500);
    assert_eq!(
        r.body.to_text().unwrap(),
        r#"{"detail":"disk on fire","error":"internal"}"#
    );
}

// ─────────── whole HTTP requests ───────────

fn request(method: &str, url: &str, headers: &[(&str, &str)]) -> ApiRequest {
    ApiRequest {
        method: method.to_string(),
        url: url.to_string(),
        headers: headers
            .iter()
            .map(|(k, v)| (k.to_string(), v.to_string()))
            .collect(),
    }
}

fn handle(req: &ApiRequest, key: Option<&str>, idx: &RepoIndex, db: &Database) -> ApiReply {
    let reads = reads(&api_request_need(req, key), db);
    assert!(is_readable(req));
    handle_api_request(req, idx, &reads, key)
}

#[test]
fn api_request_without_the_key_is_refused() {
    let (idx, db) = test_index();
    let url = "/api/v1/stats";
    let refused = [
        request("GET", url, &[]),
        request("GET", url, &[("Authorization", "Bearer wrong")]),
        request("GET", url, &[("Authorization", "s3cret")]),
        request("GET", url, &[("Authorization", "bearer s3cret")]),
        request("GET", url, &[("Authorization", "Bearer s3cret ")]),
        request("GET", url, &[("Authorization", "x"), ("Authorization", "Bearer s3cret")]),
        request("POST", "/nowhere", &[]),
    ];
    for req in &refused {
        assert_eq!(api_request_need(req, Some("s3cret")), StoreNeed::Nothing);
        let reply = handle(req, Some("s3cret"), &idx, &db);
        assert_eq!(reply.status, 401);
        assert_eq!(reply.body, "unauthorized\n");
        assert!(reply.headers.is_empty());
    }
    let served = [
        request("GET", url, &[("Authorization", "Bearer s3cret")]),
        request("GET", url, &[("Host", "x"), ("aUTHORIZATION", "Bearer s3cret")]),
    ];
    for req in &served {
        assert_eq!(api_request_need(req, Some("s3cret")), StoreNeed::Stats);
        assert_eq!(handle(req, Some("s3cret"), &idx, &db).status, 200);
    }
}

#[test]
fn api_request_is_open_without_a_key() {
    let (idx, db) = test_index();
    let reply = handle(&request("GET", "/api/v1/health", &[]), None, &idx, &db);
    assert_eq!(reply.status, 200);
    assert_eq!(
        reply.body,
        r#"{"cached":5,"status":"ok","version":"0.3.0"}"#
    );
    assert_eq!(
        reply.headers,
        vec![
            (
                "Content-Type".to_string(),
                "application/json; charset=utf-8".to_string()
            ),
            ("Access-Control-Allow-Origin".to_string(), "*".to_string()),
        ]
    );
}

#[test]
fn api_request_reads_its_query() {
    let (idx, db) = test_index();
    let req = request("GET", "/api/v1/search?q=the+postgres&limit=1", &[]);
    let body = Json::parse(&handle(&req, None, &idx, &db).body).unwrap();
    assert_eq!(body.u64_at("total"), Some(1));
    let req = request("GET", "/api/v1/search?q=%70ostgres&limit=1?", &[]);
    let body = Json::parse(&handle(&req, None, &idx, &db).body).unwrap();
    assert_eq!(body.u64_at("total"), Some(2));
    assert_eq!(body.u64_at("shown"), Some(2));
    assert_eq!(handle(&request("GET", "/api/v1/search", &[]), None, &idx, &db).status, 400);
    assert_eq!(handle(&request("DELETE", "/api/v1/list?", &[]), None, &idx, &db).status, 405);
}

#[test]
fn api_and_mcp_show_the_same_hits() {
    let (idx, db) = test_index();
    let r = route(
        "GET",
        "/api/v1/search",
        &[("q", "Postgres"), ("topic", "postgres"), ("limit", "9")],
        &idx,
        &db,
    );
    let resp = mcp(
        r#"{"id":1,"method":"tools/call","params":{"name":"search_stars","arguments":{"query":"Postgres","topic":"postgres","limit":9}}}"#,
        &idx,
        &db,
    )
    .unwrap();
    assert_eq!(
        text_of(&resp),
        r.body.get("hits").unwrap().to_pretty_text().unwrap()
    );
}

#[test]
fn api_and_mcp_list_show_and_count_the_same() {
    let (idx, db) = test_index();
    let payload = |name: &str, arguments: &str| {
        let req = format!(
            r#"{{"id":1,"method":"tools/call","params":{{"name":"{}","arguments":{}}}}}"#,
            name, arguments
        );
        text_of(&mcp(&req, &idx, &db).unwrap())
    };
    let body = |path: &str, pairs: &[(&str, &str)]| {
        let r = route("GET", path, pairs, &idx, &db);
        assert_eq!(r.status, 200);
        r.body.to_pretty_text().unwrap()
    };
    assert_eq!(
        payload("list_stars", r#"{"limit":4}"#),
        body("/api/v1/list", &[("limit", "4")])
    );
    assert_eq!(payload("stats", "{}"), body("/api/v1/stats", &[]));
    assert_eq!(
        payload("show_star", r#"{"full_name":"facebook/react"}"#),
        body("/api/v1/stars/facebook/react", &[])
    );
}

#[test]
fn statistics_are_read_under_their_keys() {
    let db = Database::builder()
        .create_with_backend(InMemoryBackend::new())
        .unwrap();
    let none = read_stats(&db.begin_read().unwrap());
    assert_eq!(none.count.unwrap(), 0);
    assert!(none.last_sync.unwrap().is_none());
    assert!(none.last_sync_count.unwrap().is_none());
    let txn = db.begin_write().unwrap();
    {
        let mut table = RepoTable::open(&txn).unwrap();
        let mut meta = MetaTable::open(&txn).unwrap();
        let records = vec![
            Record::new(&make_repo("a/a", None, 1, None, vec![]), vec![1]),
            Record::new(&make_repo("a/a", None, 1, None, vec![]), vec![2]),
        ];
        upsert_repos_at(&mut table, &mut meta, &records, "2025-02-03T04:05:06+00:00").unwrap();
    }
    txn.commit().unwrap();
    let some = read_stats(&db.begin_read().unwrap());
    assert_eq!(some.count.unwrap(), 1);
    assert_eq!(
        some.last_sync.unwrap().as_deref(),
        Some("2025-02-03T04:05:06+00:00")
    );
    assert_eq!(some.last_sync_count.unwrap().as_deref(), Some("2"));
}

#[test]
fn statistics_that_cannot_be_read_are_shown_as_none() {
    let (idx, _) = test_index();
    let r = route_api("GET", "/api/v1/stats", &api_params(&[]), &idx, &no_reads());
    assert_eq!(r.status, 200);
    assert_eq!(r.body.u64_at("cached"), Some(0));
    assert!(matches!(at(&r.body, &["last_sync"]), Json::Null));
    assert!(matches!(at(&r.body, &["last_sync_count"]), Json::Null));
}

#[test]
fn api_and_mcp_find_the_same_for_any_letters() {
    let repo = make_repo("a/\u{e9}t\u{e9}", None, 9, Some("\u{65e5}\u{672c} + %"), vec![]);
    let s = scores(9);
    let idx = RepoIndex::new(vec![(repo, s)]);
    for (query, form) in [
        ("\u{e9}T\u{e9}", "%C3%A9T%c3%a9"),
        ("\u{e9}t", "\u{e9}t"),
        ("\u{65e5}\u{672c} +", "%E6%97%A5%e6%9c%ac+%2B"),
        ("\u{672c} + %", "\u{672c}%20%2b+%25"),
    ] {
        let req = ApiRequest {
            method: "GET".to_string(),
            url: format!("/api/v1/search?q={}", form),
            headers: vec![],
        };
        assert!(is_readable(&req));
        let reply = handle_api_request(&req, &idx, &no_reads(), None);
        let body = Json::parse(&reply.body).unwrap();
        let hits = body.get("hits").unwrap();
        assert_eq!(hits.as_array().unwrap().len(), 1);
        let call = format!(
            r#"{{"id":1,"method":"tools/call","params":{{"name":"search_stars","arguments":{{"query":"{}"}}}}}}"#,
            query
        );
        let reply = handle_mcp_request(&Json::parse(&call).unwrap(), &idx, &no_reads()).unwrap();
        assert_eq!(text_of(&reply), hits.to_pretty_text().unwrap());
    }
}

#[test]
fn what_is_not_needed_makes_no_difference() {
    let (idx, db) = test_index();
    let all = StoreReads {
        record: reads(&StoreNeed::Record("facebook/react".to_string()), &db).record,
        ..reads(&StoreNeed::Stats, &db)
    };
    for req in [
        r#"{"id":1,"method":"tools/list"}"#,
        r#"{"id":1,"method":"tools/call","params":{"name":"stats"}}"#,
        r#"{"id":1,"method":"tools/call","params":{"name":"show_star","arguments":{"full_name":"facebook/react"}}}"#,
        r#"{"id":1,"method":"tools/call","params":{"name":"show_star"}}"#,
    ] {
        let needed = mcp(req, &idx, &db).unwrap();
        let req = Json::parse(req).unwrap();
        let given = handle_mcp_request(&req, &idx, &all).unwrap();
        assert_eq!(needed.to_text(), given.to_text());
    }
    for path in ["/api/v1/health", "/api/v1/stats", "/api/v1/stars/facebook/react"] {
        let needed = route("GET", path, &[], &idx, &db);
        let given = route_api("GET", path, &api_params(&[]), &idx, &all);
        assert_eq!(needed.status, given.status);
        assert_eq!(needed.body.to_text(), given.body.to_text());
    }
}

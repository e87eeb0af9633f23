//! Link headers, items of the GitHub API, tokens and query strings.

use stargaze::auth::NoToken;
use stargaze::parse_link_next;
use stargaze::parse_query_string;
use stargaze::query::is_readable;
use stargaze::query::pct_decode;
use stargaze::repo::RepoError;
use stargaze::resolve_token;
use stargaze::truncate;
use stargaze::text::clip;
use stargaze::Json;
use stargaze::Repo;

fn json(text: &str) -> Json {
    Json::parse(text).unwrap()
}

// ─────────── parse_link_next ───────────

#[test]
fn link_next_simple_next_and_last() {
    let h = r#"<https://api.github.com/user/starred?page=2>; rel="next", <https://api.github.com/user/starred?page=5>; rel="last""#;
    assert_eq!(
        parse_link_next(h).unwrap(),
        "https://api.github.com/user/starred?page=2"
    );
}

#[test]
fn link_next_only_last_no_next() {
    let h = r#"<https://api.github.com/user/starred?page=1>; rel="first", <https://api.github.com/user/starred?page=5>; rel="last""#;
    assert!(parse_link_next(h).is_none());
}

#[test]
fn link_next_next_appears_second() {
    let h = r#"<https://api.github.com/user/starred?page=1>; rel="first", <https://api.github.com/user/starred?page=3>; rel="next""#;
    assert_eq!(
        parse_link_next(h).unwrap(),
        "https://api.github.com/user/starred?page=3"
    );
}

#[test]
fn link_next_empty_header() {
    assert!(parse_link_next("").is_none());
}

#[test]
fn link_next_malformed_header_no_rel_key() {
    let h = "<https://api.github.com/user/starred?page=2>";
    assert!(parse_link_next(h).is_none());
}

#[test]
fn link_next_whitespace_tolerant() {
    let h = r#"  <https://api.github.com/user/starred?page=2>  ;   rel="next"  "#;
    assert_eq!(
        parse_link_next(h).unwrap(),
        "https://api.github.com/user/starred?page=2"
    );
}

#[test]
fn link_next_with_prev_next_last() {
    let h = r#"<https://api.github.com/user/starred?page=1>; rel="prev", <https://api.github.com/user/starred?page=3>; rel="next", <https://api.github.com/user/starred?page=5>; rel="last""#;
    assert_eq!(
        parse_link_next(h).unwrap(),
        "https://api.github.com/user/starred?page=3"
    );
}

#[test]
fn link_next_absent_when_last_only() {
    let h = r#"<https://api.github.com/user/starred?page=1>; rel="last""#;
    assert!(parse_link_next(h).is_none());
}

#[test]
fn link_next_empty_string() {
    assert!(parse_link_next("").is_none());
}

#[test]
fn link_next_url_with_commas() {
    let h = r#"<https://x/y?a=1,2>; rel="prev", <https://x/y?a=3,4,5>; rel="next""#;
    assert_eq!(parse_link_next(h).unwrap(), "https://x/y?a=3,4,5");
}

#[test]
fn link_next_unclosed_bracket_does_not_swallow() {
    let h = r#"<https://x/a; rel="prev", <https://x/b>; rel="next""#;
    assert_eq!(parse_link_next(h).unwrap(), "https://x/b");
}

#[test]
fn link_next_entry_without_parameters_is_passed_over() {
    let h = r#"<https://x/a>, <https://x/b>; rel="next""#;
    assert_eq!(parse_link_next(h).unwrap(), "https://x/b");
    assert!(parse_link_next("<https://x/a>,,").is_none());
}

#[test]
fn link_next_url_with_semicolon() {
    assert_eq!(
        parse_link_next(r#"<https://h/a;x>; rel="next""#).unwrap(),
        "https://h/a;x"
    );
    let h = r#"<https://h/a;rel="next">; rel="prev", <https://h/b;1,2;3>;rel="next""#;
    assert_eq!(parse_link_next(h).unwrap(), "https://h/b;1,2;3");
    assert!(parse_link_next("<https://h/a; rel=\"next\">").is_none());
}

#[test]
fn link_next_any_spacing() {
    let h = "\t<https://x/a,1>;rel=\"prev\",<https://x/b,2> \u{a0};  rel=\"next\"; title=b \n,<https://x/c>";
    assert_eq!(parse_link_next(h).unwrap(), "https://x/b,2");
}

#[test]
fn link_next_without_brackets() {
    assert_eq!(
        parse_link_next(r#"https://x/a; rel="next""#).unwrap(),
        "https://x/a"
    );
}

// ─────────── Repo::from_api ───────────

#[test]
fn repo_from_api_plain() {
    let v = json(
        r#"{
            "full_name": "foo/bar",
            "name": "bar",
            "owner": {"login": "foo"},
            "description": "a thing",
            "html_url": "https://github.com/foo/bar",
            "stargazers_count": 42,
            "forks_count": 3,
            "open_issues_count": 0,
            "language": "Rust",
            "topics": ["cli", "rust"],
            "default_branch": "main",
            "archived": false,
            "fork": false
        }"#,
    );
    let r = Repo::from_api(&v).unwrap();
    assert_eq!(r.full_name, "foo/bar");
    assert_eq!(r.owner, "foo");
    assert_eq!(r.name, "bar");
    assert_eq!(r.stargazers_count, 42);
    assert_eq!(r.forks_count, 3);
    assert_eq!(r.topics, vec!["cli".to_string(), "rust".to_string()]);
    assert_eq!(r.language.as_deref(), Some("Rust"));
    assert!(r.starred_at.is_none());
}

#[test]
fn repo_from_api_star_wrapper() {
    let v = json(
        r#"{
            "starred_at": "2024-03-14T10:20:30Z",
            "repo": {
                "full_name": "foo/bar",
                "name": "bar",
                "owner": {"login": "foo"},
                "html_url": "https://github.com/foo/bar",
                "stargazers_count": 1,
                "forks_count": 0,
                "open_issues_count": 0,
                "archived": false,
                "fork": false
            }
        }"#,
    );
    let r = Repo::from_api(&v).unwrap();
    assert!(r.starred_at.is_some());
    assert_eq!(r.full_name, "foo/bar");
}

#[test]
fn repo_from_api_missing_full_name_errors() {
    let v = json(r#"{"name": "bar", "owner": {"login": "foo"}}"#);
    assert!(Repo::from_api(&v).is_err());
}

#[test]
fn repo_from_api_missing_name_errors() {
    let v = json(r#"{"full_name": "foo/bar", "owner": {"login": "foo"}}"#);
    assert!(Repo::from_api(&v).is_err());
}

#[test]
fn repo_from_api_missing_optionals_collapse_to_none() {
    let v = json(
        r#"{
            "full_name": "foo/bar",
            "name": "bar",
            "owner": {"login": "foo"},
            "html_url": "https://github.com/foo/bar",
            "archived": false,
            "fork": false
        }"#,
    );
    let r = Repo::from_api(&v).unwrap();
    assert_eq!(r.description, None);
    assert_eq!(r.language, None);
    assert_eq!(r.topics, Vec::<String>::new());
    assert_eq!(r.license, None);
    assert_eq!(r.default_branch, None);
    assert_eq!(r.stargazers_count, 0);
}

#[test]
fn repo_from_api_topics_wrong_type_becomes_empty() {
    let v = json(
        r#"{
            "full_name": "foo/bar",
            "name": "bar",
            "owner": {"login": "foo"},
            "html_url": "",
            "topics": "not-an-array"
        }"#,
    );
    let r = Repo::from_api(&v).unwrap();
    assert_eq!(r.topics, Vec::<String>::new());
}

#[test]
fn repo_from_api_license_spdx_id() {
    let v = json(
        r#"{
            "full_name": "foo/bar",
            "name": "bar",
            "owner": {"login": "foo"},
            "html_url": "",
            "license": {"spdx_id": "MIT", "name": "MIT License"}
        }"#,
    );
    let r = Repo::from_api(&v).unwrap();
    assert_eq!(r.license.as_deref(), Some("MIT"));
}

#[test]
fn repo_from_api_license_null() {
    let v = json(
        r#"{
            "full_name": "foo/bar",
            "name": "bar",
            "owner": {"login": "foo"},
            "html_url": "",
            "license": null
        }"#,
    );
    let r = Repo::from_api(&v).unwrap();
    assert_eq!(r.license, None);
}

#[test]
fn repo_from_api_invalid_timestamps_are_none() {
    let v = json(
        r#"{
            "full_name": "foo/bar",
            "name": "bar",
            "owner": {"login": "foo"},
            "html_url": "",
            "pushed_at": "not-a-date",
            "created_at": "also-not-a-date",
            "updated_at": "2024-03-14T10:20:30Z"
        }"#,
    );
    let r = Repo::from_api(&v).unwrap();
    assert!(r.pushed_at.is_none());
    assert!(r.created_at.is_none());
    assert!(r.updated_at.is_some());
}

#[test]
fn repo_from_api_owner_fallback_from_full_name() {
    let v = json(
        r#"{
            "full_name": "foo/bar",
            "name": "bar",
            "html_url": ""
        }"#,
    );
    let r = Repo::from_api(&v).unwrap();
    assert_eq!(r.owner, "foo");
}

#[test]
fn repo_parses_minimal_payload() {
    let v = json(
        r#"{
            "full_name": "x/y",
            "name": "y",
            "html_url": ""
        }"#,
    );
    let r = Repo::from_api(&v).unwrap();
    assert_eq!(r.full_name, "x/y");
    assert_eq!(r.owner, "x");
    assert_eq!(r.stargazers_count, 0);
}

#[test]
fn repo_parses_star_wrapper_with_full_payload() {
    let v = json(
        r#"{
            "starred_at": "2024-01-15T12:34:56Z",
            "repo": {
                "full_name": "foo/bar",
                "name": "bar",
                "owner": {"login": "foo"},
                "description": "a real repo",
                "html_url": "https://github.com/foo/bar",
                "language": "Python",
                "stargazers_count": 5,
                "forks_count": 1,
                "open_issues_count": 2,
                "topics": ["machine-learning", "python"],
                "license": {"spdx_id": "Apache-2.0", "name": "Apache License 2.0"},
                "default_branch": "main",
                "archived": false,
                "fork": false,
                "pushed_at": "2024-03-14T10:20:30Z",
                "created_at": "2020-06-01T00:00:00Z",
                "updated_at": "2024-03-15T00:00:00Z"
            }
        }"#,
    );
    let r = Repo::from_api(&v).unwrap();
    assert_eq!(r.full_name, "foo/bar");
    assert_eq!(r.owner, "foo");
    assert_eq!(r.language.as_deref(), Some("Python"));
    assert_eq!(r.topics.len(), 2);
    assert_eq!(r.license.as_deref(), Some("Apache-2.0"));
    assert!(r.starred_at.is_some());
    assert!(r.pushed_at.is_some());
    assert!(r.created_at.is_some());
    assert!(r.updated_at.is_some());
}

#[test]
fn repo_rejects_missing_full_name() {
    let v = json(r#"{"name": "bar"}"#);
    assert!(Repo::from_api(&v).is_err());
}

#[test]
fn repo_rejects_missing_name() {
    let v = json(r#"{"full_name": "foo/bar"}"#);
    assert!(Repo::from_api(&v).is_err());
}

#[test]
fn repo_invalid_starred_at_is_none() {
    let v = json(
        r#"{
            "starred_at": "not-a-date",
            "repo": {
                "full_name": "foo/bar",
                "name": "bar",
                "html_url": ""
            }
        }"#,
    );
    let r = Repo::from_api(&v).unwrap();
    assert!(r.starred_at.is_none());
}

#[test]
fn repo_from_api_many_realistic_payloads() {
    let payloads = [
        json(
            r#"{
                "full_name": "rust-lang/rust",
                "name": "rust",
                "owner": {"login": "rust-lang"},
                "description": "Empowering everyone to build reliable and efficient software.",
                "html_url": "https://github.com/rust-lang/rust",
                "stargazers_count": 90000,
                "language": "Rust",
                "topics": ["compiler", "language", "rust"],
                "archived": false,
                "fork": false
            }"#,
        ),
        json(
            r#"{
                "full_name": "facebook/react",
                "name": "react",
                "owner": {"login": "facebook"},
                "html_url": "https://github.com/facebook/react",
                "stargazers_count": 200000,
                "language": "JavaScript",
                "topics": ["javascript", "ui"],
                "archived": false,
                "fork": false
            }"#,
        ),
    ];
    let parsed: Vec<Repo> = payloads
        .iter()
        .map(|p| Repo::from_api(p).unwrap())
        .collect();
    assert_eq!(parsed.len(), 2);
    assert_eq!(parsed[0].full_name, "rust-lang/rust");
    assert_eq!(parsed[1].owner, "facebook");
}

#[test]
fn repo_errors_name_the_field() {
    let no_full_name = json(r#"{"full_name": 7, "name": "y"}"#);
    let e = Repo::from_api(&no_full_name).unwrap_err();
    assert_eq!(e, RepoError::FullName);
    assert_eq!(e.message(), "missing or non-string `full_name`");
    let no_name = json(r#"{"full_name": "x/y", "name": null}"#);
    let e = Repo::from_api(&no_name).unwrap_err();
    assert_eq!(e, RepoError::Name);
    assert_eq!(e.message(), "missing or non-string `name`");
    assert_eq!(
        Repo::from_api(&Json::Null).unwrap_err(),
        RepoError::FullName
    );
}

#[test]
fn repo_times_are_utc() {
    let v = json(
        r#"{
            "starred_at": "2024-03-14T12:20:30.250+02:00",
            "repo": {"full_name": "x/y", "name": "y", "pushed_at": "2024-03-14T10:20:30Z"}
        }"#,
    );
    let r = Repo::from_api_at(&v, "2025-01-01T00:00:00Z".to_string()).unwrap();
    assert_eq!(r.starred_at.as_deref(), Some("2024-03-14T10:20:30.250Z"));
    assert_eq!(r.pushed_at.as_deref(), Some("2024-03-14T10:20:30Z"));
    assert_eq!(r.cached_at, "2025-01-01T00:00:00Z");
    assert!(r.readme.is_none() && r.readme_fetched_at.is_none());
}

#[test]
fn repo_cached_at_is_read_from_the_clock() {
    let v = json(r#"{"full_name": "x/y", "name": "y"}"#);
    let r = Repo::from_api(&v).unwrap();
    assert!(r.cached_at.contains('T') && r.cached_at.ends_with('Z'));
}

#[test]
fn repo_both_shapes_agree() {
    let plain = r#"{"full_name": "x/y", "name": "y", "stargazers_count": 7, "topics": ["a", 1, "b"]}"#;
    let wrapped = format!(r#"{{"starred_at": "2024-03-14T10:20:30Z", "repo": {}}}"#, plain);
    let a = Repo::from_api_at(&json(plain), "now".to_string()).unwrap();
    let mut b = Repo::from_api_at(&json(&wrapped), "now".to_string()).unwrap();
    assert_eq!(b.starred_at.take().as_deref(), Some("2024-03-14T10:20:30Z"));
    assert_eq!(a, b);
    assert_eq!(a.topics, vec!["a".to_string(), "b".to_string()]);
    // An item says one thing, however often it is read.
    assert_eq!(Repo::from_api_at(&json(plain), "now".to_string()).unwrap(), a);
}

#[test]
fn repo_numbers_have_to_be_counts() {
    let v = json(
        r#"{"full_name": "x/y", "name": "y", "stargazers_count": -3, "forks_count": 1.5,
            "open_issues_count": "4", "archived": 1, "fork": true}"#,
    );
    let r = Repo::from_api(&v).unwrap();
    assert_eq!(
        (r.stargazers_count, r.forks_count, r.open_issues_count),
        (0, 0, 0)
    );
    assert!(!r.archived && r.fork);
}

#[test]
fn repo_null_under_repo_is_no_repository() {
    let v = json(r#"{"full_name": "x/y", "name": "y", "repo": null}"#);
    assert_eq!(Repo::from_api(&v).unwrap_err(), RepoError::FullName);
}

#[test]
fn repo_with_readme() {
    let v = json(r#"{"full_name": "x/y", "name": "y"}"#);
    let r = Repo::from_api(&v).unwrap();
    assert!(r.needs_readme(false) && r.needs_readme(true));
    let failed = r.clone().with_readme(None);
    assert_eq!(failed, r);
    let fetched = r.clone().with_readme_at(Some("# y".to_string()), "then".to_string());
    assert_eq!(fetched.readme.as_deref(), Some("# y"));
    assert_eq!(fetched.readme_fetched_at.as_deref(), Some("then"));
    assert!(!fetched.needs_readme(false) && fetched.needs_readme(true));
    let now = r.with_readme(Some(String::new()));
    assert_eq!(now.readme.as_deref(), Some(""));
    assert!(now.readme_fetched_at.unwrap().ends_with('Z'));
}

#[test]
fn repo_record_has_every_field() {
    let v = json(
        r#"{"full_name": "x/y", "name": "y", "language": "Rust", "stargazers_count": 7, "topics": ["a"]}"#,
    );
    let r = Repo::from_api_at(&v, "2025-01-01T00:00:00Z".to_string()).unwrap();
    let want = concat(&[
        r#"{"archived":false,"cached_at":"2025-01-01T00:00:00Z","created_at":null,"#,
        r#""default_branch":null,"description":null,"fork":false,"forks_count":0,"#,
        r#""full_name":"x/y","language":"Rust","license":null,"name":"y","#,
        r#""open_issues_count":0,"owner":"x","pushed_at":null,"readme":null,"#,
        r#""readme_fetched_at":null,"stargazers_count":7,"starred_at":null,"#,
        r#""topics":["a"],"updated_at":null,"url":""}"#,
    ]);
    assert_eq!(r.to_json().to_text().unwrap(), want);
}

fn concat(parts: &[&str]) -> String {
    parts.join("")
}

// ─────────── truncate ───────────

#[test]
fn truncate_shorter_than_n_unchanged() {
    assert_eq!(truncate("hi", 10), "hi");
}

#[test]
fn truncate_exact_boundary_unchanged() {
    assert_eq!(truncate("hello", 5), "hello");
}

#[test]
fn truncate_adds_ellipsis() {
    assert_eq!(truncate("hello world", 6), "hello…");
}

#[test]
fn truncate_multibyte_safe() {
    assert_eq!(truncate("日本語テキスト", 4), "日本語…");
}

#[test]
fn truncate_zero_n() {
    assert_eq!(truncate("hello", 0), "…");
    assert_eq!(truncate("", 0), "");
}

#[test]
fn truncate_twice_is_truncate_once() {
    for n in 0..8 {
        for m in n..8 {
            assert_eq!(truncate(&truncate("日本語テキスト", m), n), truncate("日本語テキスト", n));
        }
    }
}

#[test]
fn clip_cuts_at_a_character() {
    assert_eq!(clip("hello".to_string(), 5), "hello");
    assert_eq!(clip("hello".to_string(), 3), "hel");
    assert_eq!(clip("aé日😀".to_string(), 2), "a");
    assert_eq!(clip("aé日😀".to_string(), 3), "aé");
    assert_eq!(clip("aé日😀".to_string(), 5), "aé");
    assert_eq!(clip("aé日😀".to_string(), 6), "aé日");
    assert_eq!(clip("aé日😀".to_string(), 9), "aé日");
    assert_eq!(clip("aé日😀".to_string(), 10), "aé日😀");
    assert_eq!(clip("é".to_string(), 0), "");
}

// ─────────── resolve_token ───────────

#[test]
fn resolve_token_flag_wins() {
    let tok = resolve_token(Some("flag-token".into()), None, None).unwrap();
    assert_eq!(tok, "flag-token");
    let tok = resolve_token(Some("flag-token".into()), Some("a".into()), Some("b".into())).unwrap();
    assert_eq!(tok, "flag-token");
}

#[test]
fn resolve_token_empty_flag_falls_through() {
    let tok = resolve_token(Some(String::new()), Some("env-token".into()), None).unwrap();
    assert_eq!(tok, "env-token");
}

#[test]
fn resolve_token_missing_errors_with_hint() {
    let e = resolve_token(None, None, None).unwrap_err();
    let msg = e.message();
    assert!(msg.contains("GH_TOKEN"));
    assert!(msg.contains("gh auth token"));
}

#[test]
fn resolve_token_second_variable_comes_last() {
    let tok = resolve_token(None, Some(String::new()), Some("github".into())).unwrap();
    assert_eq!(tok, "github");
    assert_eq!(
        resolve_token(Some(String::new()), None, Some(String::new())),
        Err(NoToken)
    );
}

// ─────────── parse_query_string ───────────

#[test]
fn parse_query_string_basic() {
    let m = parse_query_string("q=postgres&limit=10");
    assert_eq!(m.get("q").unwrap(), "postgres");
    assert_eq!(m.get("limit").unwrap(), "10");
}

#[test]
fn parse_query_string_pct_decode() {
    let m = parse_query_string("q=hello%20world&topic=web%2dservers");
    assert_eq!(m.get("q").unwrap(), "hello world");
    assert_eq!(m.get("topic").unwrap(), "web-servers");
}

#[test]
fn parse_query_string_plus_is_space() {
    let m = parse_query_string("q=hello+world");
    assert_eq!(m.get("q").unwrap(), "hello world");
}

#[test]
fn parse_query_string_empty() {
    let m = parse_query_string("");
    assert!(m.is_empty());
}

#[test]
fn parse_query_string_odd_pairs() {
    let m = parse_query_string("&&a&b=&=c&d=e=f&a=2&%61=3");
    assert_eq!(m.len(), 3);
    assert_eq!(m.get("a").unwrap(), "3");
    assert_eq!(m.get("b").unwrap(), "");
    assert_eq!(m.get("d").unwrap(), "e=f");
}

#[test]
fn pct_decode_escapes() {
    assert_eq!(pct_decode("%41%5a%5A"), "AZZ");
    assert_eq!(pct_decode("100%"), "100%");
    assert_eq!(pct_decode("%4"), "%4");
    assert_eq!(pct_decode("%zz%41"), "%zzA");
    assert_eq!(pct_decode("%%41"), "%A");
    assert_eq!(pct_decode("%+f"), "\u{f}");
    assert_eq!(pct_decode("%-1"), "%-1");
    assert_eq!(pct_decode("%C3%A9"), "é");
    assert_eq!(pct_decode("é"), "é");
    assert_eq!(pct_decode("%é"), "%é");
    assert_eq!(pct_decode("%E6%97%A5%f0%9f%98%80"), "日😀");
}

#[test]
fn pct_decode_gives_back_what_was_escaped() {
    let mut escaped = String::new();
    let mut want = String::new();
    for b in 0..=255u8 {
        escaped.push_str(&format!("%{:02x}", b));
        want.push(b as char);
    }
    assert_eq!(pct_decode(&escaped), want);
    assert_eq!(pct_decode("a%2Bb+c%2bd%20e%C3"), "a+b c+d e\u{c3}");
    let text = "aé日😀 +%=&";
    let form: String = text.bytes().map(|b| format!("%{:02X}", b)).collect();
    assert_eq!(pct_decode(&form), text);
    let params = parse_query_string(&format!("q=x&{}={}", form, form));
    assert_eq!(params.get(text).map(String::as_str), Some(text));
}

#[test]
fn escapes_that_cut_a_character_are_told_apart() {
    assert!(is_readable("q=%41&x=é%é"));
    assert!(!is_readable("q=%aé"));
    assert!(!is_readable("q=%日"));
    assert!(is_readable("=%日"));
    assert!(is_readable("%=é"));
}

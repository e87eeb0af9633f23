//! Requests to the GitHub API and the replies to them.

use stargaze::github::HttpFailure;
use stargaze::github::PageError;
use stargaze::GhClient;
use stargaze::Json;
use stargaze::README_MAX_BYTES;
use stargaze::USER_AGENT;

fn client() -> GhClient {
    GhClient::with_base("tok".to_string(), "http://localhost:1".to_string())
}

fn page(text: &str) -> Json {
    Json::parse(text).unwrap()
}

#[test]
fn user_agent_names_the_version() {
    assert_eq!(USER_AGENT, "stargaze/0.3.0");
}

#[test]
fn page_request_carries_the_headers() {
    let r = client().page_request("http://x/y");
    assert_eq!(r.url, "http://x/y");
    assert_eq!(r.authorization, "Bearer tok");
    assert_eq!(
        r.accept,
        "application/vnd.github.star+json, application/vnd.github+json"
    );
    assert_eq!(r.api_version, "2022-11-28");
}

#[test]
fn readme_request_names_the_repo() {
    let r = client().readme_request("foo", "bar");
    assert_eq!(r.url, "http://localhost:1/repos/foo/bar/readme");
    assert_eq!(r.accept, "application/vnd.github.raw");
    let public = GhClient::new("t".to_string()).readme_request("a", "b");
    assert_eq!(public.url, "https://api.github.com/repos/a/b/readme");
    assert_eq!(public.authorization, "Bearer t");
}

#[test]
fn walk_begins_at_the_first_page() {
    let mine = client().starred(None);
    assert!(mine.items.is_empty());
    assert_eq!(
        mine.next.as_deref(),
        Some("http://localhost:1/user/starred?per_page=100")
    );
    let theirs = client().starred(Some("octocat"));
    assert_eq!(
        theirs.next.as_deref(),
        Some("http://localhost:1/users/octocat/starred?per_page=100")
    );
}

#[test]
fn walk_follows_the_links() {
    let walk = client().starred(None);
    let walk = walk
        .receive(Some(r#"<http://x/2>; rel="next""#), page("[1, 2]"))
        .unwrap();
    assert_eq!(walk.next.as_deref(), Some("http://x/2"));
    let walk = walk
        .receive(Some(r#"<http://x/1>; rel="prev""#), page("[3]"))
        .unwrap();
    assert_eq!(walk.next, None);
    let items: Vec<Option<u64>> = walk.items.iter().map(|i| i.as_u64()).collect();
    assert_eq!(items, vec![Some(1), Some(2), Some(3)]);
}

#[test]
fn walk_stops_at_an_empty_page() {
    let walk = client().starred(None);
    let walk = walk
        .receive(Some(r#"<http://x/2>; rel="next""#), page("[]"))
        .unwrap();
    assert_eq!(walk.next, None);
    assert!(walk.items.is_empty());
}

#[test]
fn walk_stops_without_a_link() {
    let walk = client().starred(None).receive(None, page("[7]")).unwrap();
    assert_eq!(walk.next, None);
    assert_eq!(walk.items.len(), 1);
}

#[test]
fn walk_refuses_what_is_no_array() {
    let e = client()
        .starred(None)
        .receive(None, page(r#"{"message": "Bad credentials"}"#))
        .unwrap_err();
    assert!(matches!(e, PageError::NoArray(_)));
    assert_eq!(
        e.message(),
        r#"expected JSON array, got {"message":"Bad credentials"}"#
    );
}

#[test]
fn readme_is_passed_on() {
    let text = client().readme("a", "b", Ok("# b".to_string())).unwrap();
    assert_eq!(text, "# b");
}

#[test]
fn readme_is_cut_at_the_cap() {
    assert_eq!(README_MAX_BYTES, 64 * 1024);
    let body = "é".repeat(README_MAX_BYTES);
    let text = client().readme("a", "b", Ok(body)).unwrap();
    assert_eq!(text.len(), README_MAX_BYTES);
    let body = format!("x{}", "é".repeat(README_MAX_BYTES));
    let text = client().readme("a", "b", Ok(body)).unwrap();
    assert_eq!(text.len(), README_MAX_BYTES - 1);
}

#[test]
fn readme_missing_is_empty() {
    let reply = Err(HttpFailure {
        status: Some(404),
        message: "status code 404".to_string(),
    });
    assert_eq!(client().readme("a", "b", reply), Ok(String::new()));
}

#[test]
fn readme_failure_names_the_url() {
    let reply = Err(HttpFailure {
        status: Some(500),
        message: "status code 500".to_string(),
    });
    assert_eq!(
        client().readme("a", "b", reply),
        Err("GET http://localhost:1/repos/a/b/readme: status code 500".to_string())
    );
    let reply = Err(HttpFailure {
        status: None,
        message: "timed out".to_string(),
    });
    assert_eq!(
        client().readme("a", "b", reply),
        Err("GET http://localhost:1/repos/a/b/readme: timed out".to_string())
    );
}

//! The HTTP API: the same read-only operations as over MCP.

use crate::index::IndexedRepo;
use crate::index::RepoIndex;
use crate::index::SearchHit;
use crate::index;
use crate::json::Json;
use crate::json::JsonView;
use crate::json;
use crate::listing;
use crate::mcp;
use crate::query;
use crate::replies::NeedView;
use crate::replies::StoreNeed;
use crate::replies::StoreReads;
use crate::replies::VERSION;
use crate::replies;
use crate::repo::Repo;
use crate::repo;
use crate::text;
use vstd::hash_map::StringHashMap;
use vstd::prelude::*;

verus! {

// ---------------------------------------------------------------------------
// Responses
// ---------------------------------------------------------------------------
/// Result of routing one HTTP request.
#[derive(Debug, Clone)]
pub struct ApiResponse {
    pub status: u16,
    pub body: Json,
}

/// The view of an [`ApiResponse`]: its status and its body.
pub type ResponseView = (u16, JsonView);

impl View for ApiResponse {
    type V = ResponseView;

    open spec fn view(&self) -> ResponseView {
        (self.status, self.body@)
    }
}

/// The response that all went well.
pub open spec fn ok(body: JsonView) -> ResponseView {
    (200, body)
}

/// The response that something went wrong.
pub open spec fn problem(status: u16, error: Seq<char>, detail: Seq<char>) -> ResponseView {
    (
        status,
        JsonView::object().with("error"@, JsonView::Str(error)).with("detail"@, JsonView::Str(detail)),
    )
}

/// The response that there is no such thing.
pub open spec fn not_found(what: Seq<char>) -> ResponseView {
    problem(404, "not found"@, what)
}

/// The response that the request is not understood.
pub open spec fn bad(what: Seq<char>) -> ResponseView {
    problem(400, "bad request"@, what)
}

/// The response that only GET is served.
pub open spec fn method_not_allowed() -> ResponseView {
    (405, JsonView::object().with("error"@, JsonView::Str("method not allowed"@)))
}

impl ApiResponse {
    fn ok(body: Json) -> (r: ApiResponse)
        ensures
            r@ == ok(body@),
    {
        ApiResponse { status: 200, body }
    }

    fn problem(status: u16, error: &str, detail: &str) -> (r: ApiResponse)
        ensures
            r@ == problem(status, error@, detail@),
    {
        let body = Json::object().with("error", Json::text(error)).with("detail", Json::text(detail));
        ApiResponse { status, body }
    }

    fn not_found(what: &str) -> (r: ApiResponse)
        ensures
            r@ == not_found(what@),
    {
        ApiResponse::problem(404, "not found", what)
    }

    fn bad(what: &str) -> (r: ApiResponse)
        ensures
            r@ == bad(what@),
    {
        ApiResponse::problem(400, "bad request", what)
    }

    fn method_not_allowed() -> (r: ApiResponse)
        ensures
            r@ == method_not_allowed(),
    {
        let body = Json::object().with("error", Json::text("method not allowed"));
        ApiResponse { status: 405, body }
    }
}

// ---------------------------------------------------------------------------
// Routes
// ---------------------------------------------------------------------------
/// The parameters of a request.
pub type Params = Map<Seq<char>, Seq<char>>;

/// A parameter; nothing where it was not given.
pub open spec fn param(params: Params, key: Seq<char>) -> Option<Seq<char>> {
    if params.contains_key(key) {
        Some(params[key])
    } else {
        None
    }
}

/// The limit among the parameters; the default where it was not given or is no
/// number.
pub open spec fn limit_of(params: Params, default: usize) -> nat {
    match param(params, "limit"@) {
        Some(s) => match text::parsed_usize(s) {
            Some(n) => n as nat,
            None => default as nat,
        },
        None => default as nat,
    }
}

/// `s` without the prefix, as often as it begins with it.
pub open spec fn without_prefix(s: Seq<char>, prefix: Seq<char>) -> Seq<char>
    decreases s.len(),
{
    if prefix.len() > 0 && text::begins_with(prefix, s) {
        without_prefix(s.skip(prefix.len() as int), prefix)
    } else {
        s
    }
}

/// What a path under `/api/v1/stars/` asks for.
pub open spec fn star_name(path: Seq<char>) -> Seq<char> {
    without_prefix(path, "/api/v1/stars/"@)
}

/// The response to `/api/v1/health`.
pub open spec fn health(records: Seq<IndexedRepo>) -> ResponseView {
    ok(
        JsonView::object()
            .with("status"@, JsonView::Str("ok"@))
            .with("version"@, JsonView::Str(VERSION@))
            .with("cached"@, JsonView::Unsigned(records.len() as u64)),
    )
}

/// The key of a search with these parameters.
pub open spec fn search_key(params: Params) -> (Seq<char>, Option<Seq<char>>, Option<Seq<char>>) {
    index::asked(param(params, "q"@)->0, param(params, "lang"@), param(params, "topic"@))
}

/// Whether a search with these parameters finds these hits.
pub open spec fn found(params: Params, records: Seq<IndexedRepo>, hits: Seq<SearchHit<'_>>) -> bool {
    index::top_hits(hits, records, search_key(params), limit_of(params, 30))
}

/// The response that shows the hits of a search.
pub open spec fn hits_shown(params: Params, records: Seq<IndexedRepo>, hits: Seq<SearchHit<'_>>) -> ResponseView {
    ok(
        JsonView::object()
            .with("total"@, JsonView::Unsigned(index::matching(records, search_key(params)).len() as u64))
            .with("shown"@, JsonView::Unsigned(hits.len() as u64))
            .with("hits"@, replies::hits_json(hits)),
    )
}

/// Whether `r` is the response to `/api/v1/search`.
pub open spec fn searched(params: Params, records: Seq<IndexedRepo>, r: ResponseView) -> bool {
    if param(params, "q"@) is None {
        r == bad("missing ?q=<query>"@)
    } else {
        exists|hits: Seq<SearchHit<'_>>| #[trigger] found(params, records, hits) && r == hits_shown(params, records, hits)
    }
}

/// Whether `r` is the response to `/api/v1/list`.
pub open spec fn listed(params: Params, records: Seq<IndexedRepo>, r: ResponseView) -> bool {
    exists|repos: Seq<&Repo>| #[trigger]
        listing::top_starred(repos, records, limit_of(params, 50)) && r == ok(replies::records_json(repos))
}

/// The response to a path under `/api/v1/stars/`.
pub open spec fn star_shown(path: Seq<char>, reads: StoreReads) -> ResponseView {
    let name = star_name(path);
    if !name.contains('/') {
        bad("path must be /api/v1/stars/<owner>/<name>"@)
    } else {
        match replies::read_record(reads.record) {
            Ok(JsonView::Null) => not_found(name),
            Ok(record) => ok(record),
            Err(e) => problem(500, "internal"@, e),
        }
    }
}

/// Whether `r` is the response to a request.
pub open spec fn routed(
    method: Seq<char>,
    path: Seq<char>,
    params: Params,
    records: Seq<IndexedRepo>,
    reads: StoreReads,
    r: ResponseView,
) -> bool {
    if method != "GET"@ {
        r == method_not_allowed()
    } else if path == "/api/v1/health"@ {
        r == health(records)
    } else if path == "/api/v1/stats"@ {
        r == ok(replies::stats_json(reads))
    } else if path == "/api/v1/search"@ {
        searched(params, records, r)
    } else if path == "/api/v1/list"@ {
        listed(params, records, r)
    } else if text::begins_with("/api/v1/stars/"@, path) {
        r == star_shown(path, reads)
    } else {
        r == not_found(path)
    }
}

/// What has to be read from the store to answer a request.
pub open spec fn need_of(method: Seq<char>, path: Seq<char>) -> NeedView {
    if method != "GET"@ {
        NeedView::Nothing
    } else if path == "/api/v1/stats"@ {
        NeedView::Stats
    } else if text::begins_with("/api/v1/stars/"@, path) && star_name(path).contains('/') {
        NeedView::Record(star_name(path))
    } else {
        NeedView::Nothing
    }
}

/// A parameter; nothing where it was not given.
fn param_in<'a>(params: &'a StringHashMap<String>, key: &str) -> (s: Option<&'a str>)
    ensures
        text::opt_str(s) == param(query::params_view(params@), key@),
{
    match params.get(key) {
        Some(s) => Some(s.as_str()),
        None => None,
    }
}

/// The limit among the parameters.
fn limit_in(params: &StringHashMap<String>, default: usize) -> (limit: usize)
    ensures
        limit as nat == limit_of(query::params_view(params@), default),
{
    match param_in(params, "limit") {
        Some(s) => match text::parse_usize(s) {
            Some(n) => n,
            None => default,
        },
        None => default,
    }
}

/// `s` without the prefix, as often as it begins with it.
fn strip_all(s: &str, prefix: &str) -> (t: String)
    requires
        prefix@.len() > 0,
    ensures
        t@ == without_prefix(s@, prefix@),
{
    let mut t = s.to_owned();
    loop
        invariant
            prefix@.len() > 0,
            without_prefix(t@, prefix@) == without_prefix(s@, prefix@),
        decreases t@.len(),
    {
        match text::strip_prefix(t.as_str(), prefix) {
            Some(rest) => {
                t = rest;
            },
            None => {
                return t;
            },
        }
    }
}

/// What a path under `/api/v1/stars/` asks for.
fn star_name_in(path: &str) -> (name: String)
    ensures
        name@ == star_name(path@),
{
    proof {
        reveal_strlit("/api/v1/stars/");
    }
    strip_all(path, "/api/v1/stars/")
}

/// Whether a name has a slash in it.
fn has_slash(name: &str) -> (yes: bool)
    ensures
        yes == name@.contains('/'),
{
    let chars = text::chars_of(name);
    let at: usize = text::find(&chars, '/', 0);
    assert(at < name@.len() ==> name@[at as int] == '/');
    at < chars.len()
}

fn search(params: &StringHashMap<String>, index: &RepoIndex) -> (r: ApiResponse)
    ensures
        searched(query::params_view(params@), index@, r@),
{
    let q = match param_in(params, "q") {
        Some(q) => q,
        None => {
            return ApiResponse::bad("missing ?q=<query>");
        },
    };
    let lang = param_in(params, "lang");
    let topic = param_in(params, "topic");
    let hits = index.search(q, lang, topic, limit_in(params, 30));
    let total: usize = index.match_count(q, lang, topic);
    assert(found(query::params_view(params@), index@, hits@));
    ApiResponse::ok(
        Json::object()
            .with("total", Json::Unsigned(total as u64))
            .with("shown", Json::Unsigned(hits.len() as u64))
            .with("hits", replies::hits_to_json(&hits)),
    )
}

fn show(path: &str, reads: &StoreReads) -> (r: ApiResponse)
    ensures
        r@ == star_shown(path@, *reads),
{
    let name = star_name_in(path);
    if !has_slash(name.as_str()) {
        return ApiResponse::bad("path must be /api/v1/stars/<owner>/<name>");
    }
    match &reads.record {
        Ok(Some(repo)) => ApiResponse::ok(repo.to_json()),
        Ok(None) => ApiResponse::not_found(name.as_str()),
        Err(e) => ApiResponse::problem(500, "internal", e.as_str()),
    }
}

/// Pure routing function — deterministic, no I/O. Testable without a TCP
/// socket.
pub fn route_api(
    method: &str,
    path: &str,
    params: &StringHashMap<String>,
    index: &RepoIndex,
    reads: &StoreReads,
) -> (r: ApiResponse)
    ensures
        routed(method@, path@, query::params_view(params@), index@, *reads, r@),
{
    if !(*method == *"GET") {
        return ApiResponse::method_not_allowed();
    }
    if *path == *"/api/v1/health" {
        ApiResponse::ok(
            Json::object()
                .with("status", Json::text("ok"))
                .with("version", Json::text(VERSION))
                .with("cached", Json::Unsigned(index.len() as u64)),
        )
    } else if *path == *"/api/v1/stats" {
        ApiResponse::ok(replies::stats_to_json(reads))
    } else if *path == *"/api/v1/search" {
        search(params, index)
    } else if *path == *"/api/v1/list" {
        let repos = index.by_stars(limit_in(params, 50));
        ApiResponse::ok(replies::records_to_json(&repos))
    } else if text::starts_with(path, "/api/v1/stars/") {
        show(path, reads)
    } else {
        ApiResponse::not_found(path)
    }
}

/// What has to be read from the store to answer a request.
pub fn api_store_need(method: &str, path: &str) -> (need: StoreNeed)
    ensures
        need@ == need_of(method@, path@),
{
    if !(*method == *"GET") {
        return StoreNeed::Nothing;
    }
    if *path == *"/api/v1/stats" {
        return StoreNeed::Stats;
    }
    if text::starts_with(path, "/api/v1/stars/") {
        let name = star_name_in(path);
        if has_slash(name.as_str()) {
            return StoreNeed::Record(name);
        }
    }
    StoreNeed::Nothing
}

// ---------------------------------------------------------------------------
// Requests
// ---------------------------------------------------------------------------
/// A request as it came in: the method, the path and query, and the headers.
#[derive(Debug, Clone, PartialEq)]
pub struct ApiRequest {
    pub method: String,
    pub url: String,
    pub headers: Vec<(String, String)>,
}

/// What is sent back: the status, the headers, and the body.
#[derive(Debug, Clone, PartialEq)]
pub struct ApiReply {
    pub status: u16,
    pub headers: Vec<(String, String)>,
    pub body: String,
}

/// Whether two texts are equal but for the case of ASCII letters.
pub open spec fn same_header(a: Seq<char>, b: Seq<char>) -> bool {
    a.map_values(|c: char| text::ascii_lower(c)) == b.map_values(|c: char| text::ascii_lower(c))
}

/// The value of the first header of a name.
pub open spec fn header(headers: Seq<(String, String)>, name: Seq<char>) -> Option<Seq<char>>
    decreases headers.len(),
{
    if headers.len() == 0 {
        None
    } else if same_header(headers[0].0@, name) {
        Some(headers[0].1@)
    } else {
        header(headers.drop_first(), name)
    }
}

/// Whether a request may be served: no key is asked for, or the first
/// `Authorization` header is `Bearer` and the key.
pub open spec fn authorized(req: ApiRequest, api_key: Option<Seq<char>>) -> bool {
    match api_key {
        None => true,
        Some(key) => header(req.headers@, "Authorization"@) == Some("Bearer "@ + key),
    }
}

/// The path of a URL: what stands before the question mark.
pub open spec fn path_of(url: Seq<char>) -> Seq<char> {
    url.take(text::position(url, '?') as int)
}

/// The query of a URL: what stands behind the question mark.
pub open spec fn query_of(url: Seq<char>) -> Seq<char> {
    let at = text::position(url, '?');
    if at < url.len() {
        url.skip(at as int + 1)
    } else {
        Seq::empty()
    }
}

/// Headers as texts.
pub open spec fn headers_view(headers: Seq<(String, String)>) -> Seq<(Seq<char>, Seq<char>)> {
    headers.map_values(|h: (String, String)| (h.0@, h.1@))
}

/// Whether `reply` refuses a request for want of authorization.
pub open spec fn refused(reply: ApiReply) -> bool {
    &&& reply.status == 401
    &&& reply.headers@.len() == 0
    &&& reply.body@ == "unauthorized\n"@
}

/// Whether `reply` sends a response.
pub open spec fn sends(reply: ApiReply, r: ResponseView) -> bool {
    &&& reply.status == r.0
    &&& headers_view(reply.headers@) == seq![
        ("Content-Type"@, "application/json; charset=utf-8"@),
        ("Access-Control-Allow-Origin"@, "*"@),
    ]
    &&& reply.body@ == match json::compact_text(r.1) {
        Some(t) => t,
        None => "{}"@,
    }
}

/// Whether two texts are equal but for the case of ASCII letters.
fn is_same_header(a: &str, b: &str) -> (yes: bool)
    ensures
        yes == same_header(a@, b@),
{
    let x = text::chars_of(a);
    let y = text::chars_of(b);
    let ghost want_x = a@.map_values(|c: char| text::ascii_lower(c));
    let ghost want_y = b@.map_values(|c: char| text::ascii_lower(c));
    if x.len() != y.len() {
        assert(want_x.len() != want_y.len());
        return false;
    }
    let mut i: usize = 0;
    while i < x.len()
        invariant
            x@ == a@,
            y@ == b@,
            x@.len() == y@.len(),
            i <= x@.len(),
            want_x == a@.map_values(|c: char| text::ascii_lower(c)),
            want_y == b@.map_values(|c: char| text::ascii_lower(c)),
            forall|k: int| 0 <= k < i ==> want_x[k] == want_y[k],
        decreases x@.len() - i,
    {
        assert(want_x[i as int] == text::ascii_lower(a@[i as int]));
        assert(want_y[i as int] == text::ascii_lower(b@[i as int]));
        if text::to_ascii_lower(x[i]) != text::to_ascii_lower(y[i]) {
            return false;
        }
        i += 1;
    }
    assert(want_x =~= want_y);
    true
}

/// The value of the first header of a name.
fn find_header<'a>(headers: &'a Vec<(String, String)>, name: &str) -> (value: Option<&'a str>)
    ensures
        text::opt_str(value) == header(headers@, name@),
{
    let mut i: usize = 0;
    assert(headers@.skip(0) =~= headers@);
    while i < headers.len()
        invariant
            i <= headers@.len(),
            header(headers@.skip(i as int), name@) == header(headers@, name@),
        decreases headers@.len() - i,
    {
        assert(headers@.skip(i as int).drop_first() =~= headers@.skip(i + 1));
        if is_same_header(headers[i].0.as_str(), name) {
            return Some(headers[i].1.as_str());
        }
        i += 1;
    }
    None
}

/// Whether a request may be served.
pub fn is_authorized(req: &ApiRequest, api_key: Option<&str>) -> (yes: bool)
    ensures
        yes == authorized(*req, text::opt_str(api_key)),
{
    let key = match api_key {
        Some(key) => key,
        None => {
            return true;
        },
    };
    let value = match find_header(&req.headers, "Authorization") {
        Some(v) => v,
        None => {
            return false;
        },
    };
    match text::strip_prefix(value, "Bearer ") {
        Some(token) => {
            assert(value@ =~= "Bearer "@ + token@);
            proof {
                if value@ == "Bearer "@ + key@ {
                    assert(token@ =~= key@);
                }
            }
            *token.as_str() == *key
        },
        None => {
            proof {
                if value@ == "Bearer "@ + key@ {
                    assert(value@.subrange(0, "Bearer "@.len() as int) =~= "Bearer "@);
                }
            }
            false
        },
    }
}

/// The path and the query of a URL.
fn split_url(url: &str) -> (parts: (String, String))
    ensures
        parts.0@ == path_of(url@),
        parts.1@ == query_of(url@),
{
    let chars = text::chars_of(url);
    assert(url@.skip(0) =~= url@);
    let at: usize = text::find(&chars, '?', 0);
    let path = text::string_of(&chars, 0, at);
    assert(path@ =~= path_of(url@));
    let from: usize = if at < chars.len() {
        at + 1
    } else {
        at
    };
    let query = text::string_of(&chars, from, chars.len());
    assert(query@ =~= query_of(url@));
    (path, query)
}

/// Whether the escapes in the query of a request can be read.
pub fn is_readable(req: &ApiRequest) -> (yes: bool)
    ensures
        yes == query::readable(query_of(req.url@)),
{
    let (_path, qs) = split_url(req.url.as_str());
    query::is_readable(qs.as_str())
}

/// What has to be read from the store to answer a request; nothing where it is
/// refused.
pub fn api_request_need(req: &ApiRequest, api_key: Option<&str>) -> (need: StoreNeed)
    ensures
        need@ == if authorized(*req, text::opt_str(api_key)) {
            need_of(req.method@, path_of(req.url@))
        } else {
            NeedView::Nothing
        },
        !authorized(*req, text::opt_str(api_key)) ==> need@ is Nothing,
        authorized(*req, text::opt_str(api_key)) && req.method@ == "GET"@ && path_of(req.url@) == "/api/v1/stats"@ ==> need@
            is Stats,
{
    if !is_authorized(req, api_key) {
        return StoreNeed::Nothing;
    }
    let (path, _qs) = split_url(req.url.as_str());
    api_store_need(req.method.as_str(), path.as_str())
}

/// Whether a request is answered: by refusing it, or by sending the response
/// that its method, its path and its parameters call for.
pub open spec fn handled(
    req: ApiRequest,
    records: Seq<IndexedRepo>,
    reads: StoreReads,
    api_key: Option<Seq<char>>,
    reply: ApiReply,
) -> bool {
    if authorized(req, api_key) {
        exists|r: ResponseView| #[trigger]
            routed(
                req.method@,
                path_of(req.url@),
                query::params_of(query_of(req.url@)),
                records,
                reads,
                r,
            ) && sends(reply, r)
    } else {
        refused(reply)
    }
}

/// Answer one HTTP request. Optional `api_key` gates every request — when set,
/// clients must pass `Authorization: Bearer <key>`. When unset, the server is
/// fully open (fine for localhost).
pub fn handle_api_request(req: &ApiRequest, index: &RepoIndex, reads: &StoreReads, api_key: Option<&str>) -> (reply: ApiReply)
    requires
        authorized(*req, text::opt_str(api_key)) ==> query::readable(query_of(req.url@)),
    ensures
        handled(*req, index@, *reads, text::opt_str(api_key), reply),
{
    if !is_authorized(req, api_key) {
        return ApiReply { status: 401, headers: Vec::new(), body: "unauthorized\n".to_owned() };
    }
    let (path, qs) = split_url(req.url.as_str());
    let params = query::parse_query_string(qs.as_str());
    let resp = route_api(req.method.as_str(), path.as_str(), &params, index, reads);
    let body = match resp.body.to_text() {
        Some(t) => t,
        None => "{}".to_owned(),
    };
    let mut headers: Vec<(String, String)> = Vec::new();
    headers.push(("Content-Type".to_owned(), "application/json; charset=utf-8".to_owned()));
    headers.push(("Access-Control-Allow-Origin".to_owned(), "*".to_owned()));
    assert(headers_view(headers@) =~= seq![
        ("Content-Type"@, "application/json; charset=utf-8"@),
        ("Access-Control-Allow-Origin"@, "*"@),
    ]);
    let reply = ApiReply { status: resp.status, headers, body };
    assert(sends(reply, resp@));
    reply
}

// ---------------------------------------------------------------------------
// What holds of every request
// ---------------------------------------------------------------------------
/// The response to a request depends on no more of the store than was asked
/// for.
pub proof fn response_needs_no_more(
    method: Seq<char>,
    path: Seq<char>,
    params: Params,
    records: Seq<IndexedRepo>,
    reads: StoreReads,
    reads2: StoreReads,
    r: ResponseView,
)
    requires
        replies::same_reads(need_of(method, path), reads, reads2),
    ensures
        routed(method, path, params, records, reads, r) <==> routed(method, path, params, records, reads2, r),
{
}

/// Nothing but GET is served.
pub proof fn only_get_is_served(
    method: Seq<char>,
    path: Seq<char>,
    params: Params,
    records: Seq<IndexedRepo>,
    reads: StoreReads,
    r: ResponseView,
)
    requires
        routed(method, path, params, records, reads, r),
        method != "GET"@,
    ensures
        r.0 == 405,
{
}

/// With a key set, a request that does not carry it learns nothing: it is
/// refused whatever it asks for. Without a key none is refused.
pub proof fn key_gates_every_request(
    req: ApiRequest,
    records: Seq<IndexedRepo>,
    reads: StoreReads,
    key: Seq<char>,
    reply: ApiReply,
)
    ensures
        handled(req, records, reads, Some(key), reply) && header(req.headers@, "Authorization"@) != Some("Bearer "@ + key)
            ==> refused(reply),
        authorized(req, None),
{
}

/// MCP and HTTP list the same records for the same limit.
pub proof fn listings_agree(
    id: Option<JsonView>,
    args: JsonView,
    params: Params,
    records: Seq<IndexedRepo>,
    reply: JsonView,
    r: ResponseView,
)
    requires
        mcp::limit_of(args, 50) == limit_of(params, 50),
        mcp::listed(id, args, records, reply),
        listed(params, records, r),
    ensures
        r.0 == 200,
        reply == mcp::success(id, mcp::tool_result(r.1)),
{
    let a = choose|repos: Seq<&Repo>| #[trigger]
        listing::top_starred(repos, records, mcp::limit_of(args, 50)) && reply == mcp::success(
            id,
            mcp::tool_result(replies::records_json(repos)),
        );
    let b = choose|repos: Seq<&Repo>| #[trigger]
        listing::top_starred(repos, records, limit_of(params, 50)) && r == ok(replies::records_json(repos));
    let limit = limit_of(params, 50);
    listing::listings_agree(a, limit, b, limit, records);
    assert(index::first(b, limit) =~= b);
}

/// MCP and HTTP show the same statistics.
pub proof fn statistics_agree(
    req: JsonView,
    params: Params,
    records: Seq<IndexedRepo>,
    reads: StoreReads,
    reply: JsonView,
    r: ResponseView,
)
    requires
        req.get("params"@) is Some,
        req.get("params"@)->0.str_at("name"@) == Some("stats"@),
        mcp::called(req, records, reads, reply),
        routed("GET"@, "/api/v1/stats"@, params, records, reads, r),
    ensures
        r.0 == 200,
        reply == mcp::success(req.get("id"@), mcp::tool_result(r.1)),
{
    reveal_strlit("/api/v1/stats");
    reveal_strlit("/api/v1/health");
    reveal_strlit("stats");
    reveal_strlit("search_stars");
    reveal_strlit("show_star");
    reveal_strlit("list_stars");
    assert("/api/v1/stats"@.len() != "/api/v1/health"@.len());
    assert("stats"@.len() == 5 && "search_stars"@.len() == 12 && "show_star"@.len() == 9 && "list_stars"@.len() == 10);
}

/// MCP and HTTP show the same record of a repository.
pub proof fn records_agree(id: Option<JsonView>, args: JsonView, path: Seq<char>, reads: StoreReads)
    requires
        reads.record is Ok && reads.record->Ok_0 is Some,
        args.str_at("full_name"@) == Some(star_name(path)),
        star_name(path).contains('/'),
    ensures
        star_shown(path, reads).0 == 200,
        mcp::shown(id, args, reads) == mcp::success(id, mcp::tool_result(star_shown(path, reads).1)),
{
}

/// MCP and HTTP show the same hits for the same search, where no two
/// repositories have one name.
pub proof fn surfaces_agree(
    id: Option<JsonView>,
    args: JsonView,
    params: Params,
    records: Seq<IndexedRepo>,
    reply: JsonView,
    r: ResponseView,
)
    requires
        records.len() <= usize::MAX,
        index::names_differ(records),
        args.str_at("query"@) is Some,
        args.str_at("query"@) == param(params, "q"@),
        args.str_at("lang"@) == param(params, "lang"@),
        args.str_at("topic"@) == param(params, "topic"@),
        mcp::limit_of(args, 30) == limit_of(params, 30),
        mcp::searched(id, args, records, reply),
        searched(params, records, r),
    ensures
        r.0 == 200,
        r.1.get("hits"@) is Some,
        reply == mcp::success(id, mcp::tool_result(r.1.get("hits"@)->0)),
{
    let a = choose|hits: Seq<SearchHit<'_>>| #[trigger] mcp::found(args, records, hits) && reply == mcp::success(
        id,
        mcp::tool_result(replies::hits_json(hits)),
    );
    let b = choose|hits: Seq<SearchHit<'_>>| #[trigger] found(params, records, hits) && r == hits_shown(
        params,
        records,
        hits,
    );
    let limit = limit_of(params, 30);
    index::searches_agree(a, limit, b, limit, records, search_key(params));
    index::shown_hits_answer(b, records, search_key(params), limit);
    assert(index::first(b, limit) =~= b);
}

// ---------------------------------------------------------------------------
// What a response tells
// ---------------------------------------------------------------------------
/// The response to a search tells what was asked for: `total` is the number of the
/// repositories that are wanted by the query, the language and the topic among the
/// parameters; the hits show such repositories, each with that topic and that
/// language, as many as the limit allows, of which there are `shown`.
pub proof fn search_response_shows_the_wanted(params: Params, records: Seq<IndexedRepo>, r: ResponseView)
    requires
        records.len() <= usize::MAX,
        params.contains_key("q"@),
        searched(params, records, r),
    ensures
        ({
            let lang = if params.contains_key("lang"@) {
                Some(params["lang"@])
            } else {
                None
            };
            let topic = if params.contains_key("topic"@) {
                Some(params["topic"@])
            } else {
                None
            };
            let limit: nat = if params.contains_key("limit"@) && text::parsed_usize(params["limit"@]) is Some {
                text::parsed_usize(params["limit"@])->0 as nat
            } else {
                30
            };
            let want = index::wanted_at(records, params["q"@], lang, topic);
            let hits = r.1.get("hits"@)->0->Array_0;
            &&& r.0 == 200
            &&& r.1.get("total"@) == Some(JsonView::Unsigned(want.len() as u64))
            &&& r.1.get("shown"@) == Some(JsonView::Unsigned(hits.len() as u64))
            &&& r.1.get("hits"@) == Some(JsonView::Array(hits))
            &&& limit < want.len() ==> hits.len() == limit
            &&& limit >= want.len() ==> hits.len() == want.len()
            &&& forall|i: int|
                0 <= i < hits.len() ==> replies::shows_a_wanted(#[trigger] hits[i], records, params["q"@], lang, topic)
        }),
{
    reveal_strlit("total");
    reveal_strlit("shown");
    reveal_strlit("hits");
    assert("total"@.len() == 5 && "shown"@.len() == 5 && "hits"@.len() == 4);
    assert("total"@[0] != "shown"@[0]);
    let hits = choose|hits: Seq<SearchHit<'_>>| #[trigger] found(params, records, hits) && r == hits_shown(
        params,
        records,
        hits,
    );
    let lang = param(params, "lang"@);
    let topic = param(params, "topic"@);
    replies::hits_show_the_wanted(hits, records, params["q"@], lang, topic, limit_of(params, 30));
    index::matching_are_the_wanted(records, params["q"@], lang, topic);
    let items = r.1.get("hits"@)->0->Array_0;
    assert(items == replies::hits_json(hits)->Array_0);
    assert forall|i: int| 0 <= i < items.len() implies replies::shows_a_wanted(
        #[trigger] items[i],
        records,
        params["q"@],
        lang,
        topic,
    ) by {
        assert(items[i] == replies::hits_json(hits)->Array_0[i]);
    }
}

/// A search without a query is refused, and only such a search is.
pub proof fn search_needs_a_query(params: Params, records: Seq<IndexedRepo>, r: ResponseView)
    requires
        searched(params, records, r),
    ensures
        r.0 == 400 <==> !params.contains_key("q"@),
        !params.contains_key("q"@) ==> r.1.get("error"@) == Some(JsonView::Str("bad request"@)) && r.1.get("detail"@) == Some(
            JsonView::Str("missing ?q=<query>"@),
        ),
{
    reveal_strlit("error");
    reveal_strlit("detail");
    assert("error"@.len() == 5 && "detail"@.len() == 6);
}

/// The response to a listing is the records of the most starred repositories, as
/// many as the limit among the parameters allows, fifty where there is none.
pub proof fn list_response_shows_the_most_starred(params: Params, records: Seq<IndexedRepo>, r: ResponseView) -> (at: Seq<int>)
    requires
        records.len() <= usize::MAX,
        listed(params, records, r),
    ensures
        r.0 == 200,
        r.1 is Array,
        replies::show_the_most_starred(
            r.1->Array_0,
            records,
            if params.contains_key("limit"@) && text::parsed_usize(params["limit"@]) is Some {
                text::parsed_usize(params["limit"@])->0 as nat
            } else {
                50
            },
            at,
        ),
{
    let repos = choose|repos: Seq<&Repo>| #[trigger]
        listing::top_starred(repos, records, limit_of(params, 50)) && r == ok(replies::records_json(repos));
    replies::listing_shows_records(repos, records, limit_of(params, 50))
}

/// The response to a path that names a repository is its record; where it is not
/// cached, that it is not found, with its name; where reading failed, what went
/// wrong. A path that names none is refused. What is read is the record of that
/// name.
pub proof fn star_response_shows_the_named(path: Seq<char>, name: Seq<char>, reads: StoreReads)
    requires
        path == "/api/v1/stars/"@ + name,
        !text::begins_with("/api/v1/stars/"@, name),
    ensures
        ({
            let r = star_shown(path, reads);
            &&& !name.contains('/') ==> r.0 == 400 && r.1.get("error"@) == Some(JsonView::Str("bad request"@))
            &&& name.contains('/') ==> need_of("GET"@, path) == NeedView::Record(name)
            &&& name.contains('/') && reads.record is Ok && reads.record->Ok_0 is Some ==> r.0 == 200 && r.1 == repo::record(
                reads.record->Ok_0->0,
            )
            &&& name.contains('/') && reads.record is Ok && reads.record->Ok_0 is None ==> r.0 == 404 && r.1.get("error"@)
                == Some(JsonView::Str("not found"@)) && r.1.get("detail"@) == Some(JsonView::Str(name))
            &&& name.contains('/') && reads.record is Err ==> r.0 == 500 && r.1.get("error"@) == Some(
                JsonView::Str("internal"@),
            ) && r.1.get("detail"@) == Some(JsonView::Str(reads.record->Err_0@))
        }),
{
    let prefix = "/api/v1/stars/"@;
    reveal_strlit("/api/v1/stars/");
    reveal_strlit("/api/v1/stats");
    reveal_strlit("error");
    reveal_strlit("detail");
    assert("error"@.len() == 5 && "detail"@.len() == 6);
    assert(prefix.len() == 14 && "/api/v1/stats"@.len() == 13);
    text::prefix_and_rest(prefix, path, name);
    assert(path.skip(14) =~= name);
    reveal_with_fuel(without_prefix, 2);
    assert(star_name(path) == name);
    assert(path.len() > 13);
    if let Ok(Some(found)) = reads.record {
        assert(repo::record(found) is Object);
    }
}

/// Each path has its own response: that all is well and how many repositories are
/// indexed, the statistics, a search, a listing, a repository; any other path is not
/// found, and the response says which.
pub proof fn each_path_has_its_response(
    path: Seq<char>,
    params: Params,
    records: Seq<IndexedRepo>,
    reads: StoreReads,
    r: ResponseView,
)
    requires
        routed("GET"@, path, params, records, reads, r),
    ensures
        path == "/api/v1/health"@ ==> r.0 == 200 && r.1.get("status"@) == Some(JsonView::Str("ok"@)) && r.1.get("version"@)
            == Some(JsonView::Str("0.3.0"@)) && r.1.get("cached"@) == Some(JsonView::Unsigned(records.len() as u64)),
        path == "/api/v1/stats"@ ==> r.0 == 200 && r.1 == replies::stats_json(reads),
        path == "/api/v1/search"@ ==> searched(params, records, r),
        path == "/api/v1/list"@ ==> listed(params, records, r),
        text::begins_with("/api/v1/stars/"@, path) ==> r == star_shown(path, reads),
        r.0 == 404 && !text::begins_with("/api/v1/stars/"@, path) ==> r.1.get("detail"@) == Some(JsonView::Str(path)),
        path != "/api/v1/health"@ && path != "/api/v1/stats"@ && path != "/api/v1/search"@ && path != "/api/v1/list"@
            && !text::begins_with("/api/v1/stars/"@, path) ==> r.0 == 404,
{
    let stars = "/api/v1/stars/"@;
    reveal_strlit("/api/v1/health");
    reveal_strlit("/api/v1/stats");
    reveal_strlit("/api/v1/search");
    reveal_strlit("/api/v1/list");
    reveal_strlit("/api/v1/stars/");
    reveal_strlit("status");
    reveal_strlit("version");
    reveal_strlit("cached");
    reveal_strlit("error");
    reveal_strlit("detail");
    assert("error"@.len() == 5 && "detail"@.len() == 6);
    assert("status"@.len() == 6 && "version"@.len() == 7 && "cached"@.len() == 6);
    assert("status"@[0] != "cached"@[0]);
    assert("/api/v1/health"@.len() == 14 && "/api/v1/stats"@.len() == 13 && "/api/v1/search"@.len() == 14);
    assert("/api/v1/list"@.len() == 12 && stars.len() == 14);
    assert("/api/v1/health"@[8] != "/api/v1/search"@[8]);
    if text::begins_with(stars, path) {
        text::prefix_and_rest(stars, path, Seq::empty());
        assert(path[10] == stars[10] && path[9] == stars[9] && path[8] == stars[8]);
        assert("/api/v1/health"@[8] != stars[8]);
        assert("/api/v1/search"@[9] != stars[9]);
        assert(path.len() >= 14);
    }
}

/// The first header of a name decides whether a request is served, the case of the
/// name aside: its value has to be `Bearer`, a space and the key.
pub proof fn first_authorization_decides(req: ApiRequest, key: Seq<char>, i: int)
    requires
        0 <= i < req.headers@.len(),
        same_header(req.headers@[i].0@, "Authorization"@),
        forall|j: int| 0 <= j < i ==> !same_header((#[trigger] req.headers@[j]).0@, "Authorization"@),
    ensures
        authorized(req, Some(key)) <==> req.headers@[i].1@ == "Bearer "@ + key,
{
    lemma_first_header(req.headers@, "Authorization"@, i);
}

/// Without the header no request is served where a key is set; with no key set every
/// one is.
pub proof fn no_authorization_no_service(req: ApiRequest, key: Seq<char>)
    requires
        forall|j: int| 0 <= j < req.headers@.len() ==> !same_header((#[trigger] req.headers@[j]).0@, "Authorization"@),
    ensures
        !authorized(req, Some(key)),
        authorized(req, None),
{
    lemma_no_header(req.headers@, "Authorization"@);
}

/// Two names of a header are one exactly where they are as long and agree letter by
/// letter but for the case of ASCII letters.
pub proof fn header_names_differ_by_case_alone(a: Seq<char>, b: Seq<char>)
    ensures
        same_header(a, b) <==> a.len() == b.len() && forall|i: int|
            0 <= i < a.len() ==> text::ascii_lower(#[trigger] a[i]) == text::ascii_lower(b[i]),
        same_header(a, a),
{
    let x = a.map_values(|c: char| text::ascii_lower(c));
    let y = b.map_values(|c: char| text::ascii_lower(c));
    if same_header(a, b) {
        assert(x.len() == y.len());
        assert forall|i: int| 0 <= i < a.len() implies text::ascii_lower(#[trigger] a[i]) == text::ascii_lower(b[i]) by {
            assert(x[i] == y[i]);
        }
    }
    if a.len() == b.len() && forall|i: int| 0 <= i < a.len() ==> text::ascii_lower(#[trigger] a[i]) == text::ascii_lower(b[i]) {
        assert(x =~= y);
    }
}

proof fn lemma_first_header(headers: Seq<(String, String)>, name: Seq<char>, i: int)
    requires
        0 <= i < headers.len(),
        same_header(headers[i].0@, name),
        forall|j: int| 0 <= j < i ==> !same_header((#[trigger] headers[j]).0@, name),
    ensures
        header(headers, name) == Some(headers[i].1@),
    decreases headers.len(),
{
    if i > 0 {
        let rest = headers.drop_first();
        assert(!same_header(headers[0].0@, name));
        assert forall|j: int| 0 <= j < i - 1 implies !same_header((#[trigger] rest[j]).0@, name) by {
            assert(rest[j] == headers[j + 1]);
        }
        assert(rest[i - 1] == headers[i]);
        lemma_first_header(rest, name, i - 1);
    }
}

proof fn lemma_no_header(headers: Seq<(String, String)>, name: Seq<char>)
    requires
        forall|j: int| 0 <= j < headers.len() ==> !same_header((#[trigger] headers[j]).0@, name),
    ensures
        header(headers, name) is None,
    decreases headers.len(),
{
    if headers.len() > 0 {
        let rest = headers.drop_first();
        assert forall|j: int| 0 <= j < rest.len() implies !same_header((#[trigger] rest[j]).0@, name) by {
            assert(rest[j] == headers[j + 1]);
        }
        assert(!same_header(headers[0].0@, name));
        lemma_no_header(rest, name);
    }
}

/// A URL is its path, and its query behind the first question mark where there is
/// one.
pub proof fn url_is_path_and_query(path: Seq<char>, query: Seq<char>)
    requires
        !path.contains('?'),
    ensures
        path_of(path) == path,
        query_of(path).len() == 0,
        path_of(path + seq!['?'] + query) == path,
        query_of(path + seq!['?'] + query) == query,
{
    let url = path + seq!['?'] + query;
    text::position_is_first(path, '?');
    text::position_is_first(url, '?');
    let at = text::position(path, '?');
    let place = text::position(url, '?');
    if at < path.len() {
        assert(path.contains(path[at as int]));
    }
    assert(url[path.len() as int] == '?');
    if place < path.len() {
        assert(path.contains(path[place as int])) by {
            assert(url[place as int] == path[place as int]);
        }
    }
    assert(path_of(path) =~= path);
    assert(path_of(url) =~= path);
    assert(query_of(url) =~= query);
}

/// What is sent carries the response: its status, and its body as the text that
/// `serde_json` writes for it, said to be JSON.
pub proof fn reply_carries_the_response(reply: ApiReply, r: ResponseView)
    requires
        sends(reply, r),
    ensures
        reply.status == r.0,
        json::compact_text(r.1) is Some ==> reply.body@ == json::compact_text(r.1)->0,
        exists|i: int|
            0 <= i < reply.headers@.len() && (#[trigger] reply.headers@[i]).0@ == "Content-Type"@ && reply.headers@[i].1@
                == "application/json; charset=utf-8"@,
        exists|i: int|
            0 <= i < reply.headers@.len() && (#[trigger] reply.headers@[i]).0@ == "Access-Control-Allow-Origin"@
                && reply.headers@[i].1@ == "*"@,
{
    let view = headers_view(reply.headers@);
    assert(view.len() == 2);
    assert(view[0] == (reply.headers@[0].0@, reply.headers@[0].1@));
    assert(view[1] == (reply.headers@[1].0@, reply.headers@[1].1@));
}

/// The prefix of the paths that name a repository is taken off as often as it stands
/// there.
pub proof fn every_prefix_is_taken_off(path: Seq<char>)
    ensures
        star_name("/api/v1/stars/"@ + path) == star_name(path),
        !text::begins_with("/api/v1/stars/"@, star_name(path)),
    decreases path.len(),
{
    let prefix = "/api/v1/stars/"@;
    reveal_strlit("/api/v1/stars/");
    assert(prefix.len() == 14);
    text::prefix_and_rest(prefix, path, path);
    assert((prefix + path).skip(14) =~= path);
    if text::begins_with(prefix, path) {
        every_prefix_is_taken_off(path.skip(14));
    }
}

/// A request that may be served is answered by its method, by the path before the
/// question mark of its URL, and by the parameters in the query behind it.
pub proof fn request_is_answered_as_it_stands(
    req: ApiRequest,
    path: Seq<char>,
    qs: Seq<char>,
    records: Seq<IndexedRepo>,
    reads: StoreReads,
    api_key: Option<Seq<char>>,
    reply: ApiReply,
) -> (r: ResponseView)
    requires
        handled(req, records, reads, api_key, reply),
        authorized(req, api_key),
        !path.contains('?'),
        req.url@ == path + seq!['?'] + qs,
    ensures
        routed(req.method@, path, query::params_of(qs), records, reads, r),
        reply.status == r.0,
        json::compact_text(r.1) is Some ==> reply.body@ == json::compact_text(r.1)->0,
{
    url_is_path_and_query(path, qs);
    let r = choose|r: ResponseView| #[trigger]
        routed(req.method@, path_of(req.url@), query::params_of(query_of(req.url@)), records, reads, r) && sends(reply, r);
    reply_carries_the_response(reply, r);
    r
}

/// A request without a query is answered as one without parameters.
pub proof fn request_without_query_has_no_parameters(
    req: ApiRequest,
    records: Seq<IndexedRepo>,
    reads: StoreReads,
    api_key: Option<Seq<char>>,
    reply: ApiReply,
) -> (r: ResponseView)
    requires
        handled(req, records, reads, api_key, reply),
        authorized(req, api_key),
        !req.url@.contains('?'),
    ensures
        routed(req.method@, req.url@, Map::empty(), records, reads, r),
        reply.status == r.0,
{
    url_is_path_and_query(req.url@, Seq::empty());
    let none = Seq::<char>::empty();
    assert(query_of(req.url@) =~= none);
    text::parts_of_two(none, '&', none);
    query::later_pair_counts(Seq::empty(), none);
    assert(Seq::<Seq<char>>::empty().push(none) =~= seq![none]);
    choose|r: ResponseView| #[trigger]
        routed(req.method@, path_of(req.url@), query::params_of(query_of(req.url@)), records, reads, r) && sends(reply, r)
}

/// A request that may not be served is told so, and nothing else.
pub proof fn refusal_tells_nothing(
    req: ApiRequest,
    records: Seq<IndexedRepo>,
    reads: StoreReads,
    api_key: Option<Seq<char>>,
    reply: ApiReply,
)
    requires
        handled(req, records, reads, api_key, reply),
        !authorized(req, api_key),
    ensures
        reply.status == 401,
        reply.body@ == "unauthorized\n"@,
        reply.headers@.len() == 0,
{
}

/// What is read from the store for a request is what its response shows: the
/// statistics for their path, the record of the repository that a path names, and
/// nothing for any other path or method.
pub proof fn need_is_what_is_shown(method: Seq<char>, path: Seq<char>)
    ensures
        need_of("GET"@, "/api/v1/stats"@) == NeedView::Stats,
        method != "GET"@ ==> need_of(method, path) == NeedView::Nothing,
        path != "/api/v1/stats"@ && !text::begins_with("/api/v1/stars/"@, path) ==> need_of(method, path) == NeedView::Nothing,
{
}

/// A request of another method is told that it is not allowed.
pub proof fn other_methods_are_not_allowed(
    method: Seq<char>,
    path: Seq<char>,
    params: Params,
    records: Seq<IndexedRepo>,
    reads: StoreReads,
    r: ResponseView,
)
    requires
        routed(method, path, params, records, reads, r),
        method != "GET"@,
    ensures
        r.0 == 405,
        r.1.get("error"@) == Some(JsonView::Str("method not allowed"@)),
{
}

} // verus!

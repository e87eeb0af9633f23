//! MCP (Model Context Protocol) over stdio.
//!
//! A minimal implementation of the subset of MCP that clients actually use for
//! a read-only tool server: `initialize`, `tools/list`, `tools/call`, `ping`,
//! plus the `notifications/initialized` courtesy ack. MCP over stdio is just
//! line-delimited JSON-RPC 2.0.

use crate::index::IndexedRepo;
use crate::index::RepoIndex;
use crate::index::SearchHit;
use crate::index;
use crate::json::Json;
use crate::json::JsonView;
use crate::json;
use crate::listing;
use crate::replies::NeedView;
use crate::replies::StoreNeed;
use crate::replies::StoreReads;
use crate::replies::VERSION;
use crate::replies;
use crate::repo::Repo;
use crate::repo;
use crate::text;
use vstd::prelude::*;

verus! {

/// Protocol version we advertise during `initialize`.
pub const MCP_PROTOCOL_VERSION: &'static str = "2024-11-05";

/// The code of an error that a method or a tool is not known.
pub const METHOD_NOT_FOUND: i64 = -32601;

/// The code of an error that a parameter is missing.
pub const INVALID_PARAMS: i64 = -32602;

/// The code of an error of the server.
pub const INTERNAL_ERROR: i64 = -32603;

/// What `search_stars` does.
pub const SEARCH_STARS_HELP: &'static str = "Search cached GitHub starred repos by substring across name, description, topics, language, and README. Optional lang/topic filters. Ranked by weighted hit count × log(stars).";

/// What `query` is.
pub const QUERY_HELP: &'static str = "Substring to search for (case-insensitive)";

/// What `lang` is.
pub const LANG_HELP: &'static str = "Optional primary language filter (case-insensitive exact match)";

/// What `topic` is.
pub const TOPIC_HELP: &'static str = "Optional topic filter (exact match)";

/// What `limit` is.
pub const LIMIT_HELP: &'static str = "Max results to return";

/// What `show_star` does.
pub const SHOW_STAR_HELP: &'static str = "Return the full cached record for one repo by owner/name.";

/// What `list_stars` does.
pub const LIST_STARS_HELP: &'static str = "List cached repos sorted by stargazer count descending.";

/// What `stats` does.
pub const STATS_HELP: &'static str = "Cache size, last sync timestamp, top languages.";

// ---------------------------------------------------------------------------
// Envelopes
// ---------------------------------------------------------------------------
/// An answer to a request: its version, the id of the request, and one field
/// more.
pub open spec fn envelope(id: Option<JsonView>, key: Seq<char>, value: JsonView) -> JsonView {
    JsonView::object()
        .with("jsonrpc"@, JsonView::Str("2.0"@))
        .with(
            "id"@,
            match id {
                Some(v) => v,
                None => JsonView::Null,
            },
        )
        .with(key, value)
}

/// The answer that a request succeeded.
pub open spec fn success(id: Option<JsonView>, result: JsonView) -> JsonView {
    envelope(id, "result"@, result)
}

/// The answer that a request failed.
pub open spec fn failure(id: Option<JsonView>, code: i64, message: Seq<char>) -> JsonView {
    envelope(
        id,
        "error"@,
        JsonView::object().with("code"@, json::signed_view(code)).with("message"@, JsonView::Str(message)),
    )
}

/// The result of a tool: its payload as indented text.
pub open spec fn tool_result(payload: JsonView) -> JsonView {
    let body = match json::pretty_text(payload) {
        Some(t) => t,
        None => "<serialization error>"@,
    };
    JsonView::object()
        .with(
            "content"@,
            JsonView::Array(
                seq![
                    JsonView::object().with("type"@, JsonView::Str("text"@)).with("text"@, JsonView::Str(body)),
                ],
            ),
        )
        .with("isError"@, JsonView::Bool(false))
}

/// The id of a request.
fn id_of(req: &Json) -> (id: Option<Json>)
    ensures
        match id {
            Some(v) => req@.get("id"@) == Some(v@),
            None => req@.get("id"@) is None,
        },
{
    match req.get("id") {
        Some(v) => Some(v.clone()),
        None => None,
    }
}

fn wrap(req: &Json, key: &str, value: Json) -> (j: Json)
    ensures
        j@ == envelope(req@.get("id"@), key@, value@),
{
    let id = match id_of(req) {
        Some(v) => v,
        None => Json::Null,
    };
    Json::object().with("jsonrpc", Json::text("2.0")).with("id", id).with(key, value)
}

/// The answer that a request succeeded.
fn succeed(req: &Json, result: Json) -> (j: Json)
    ensures
        j@ == success(req@.get("id"@), result@),
{
    wrap(req, "result", result)
}

/// The answer that a request failed.
fn fail(req: &Json, code: i64, message: &str) -> (j: Json)
    ensures
        j@ == failure(req@.get("id"@), code, message@),
{
    wrap(
        req,
        "error",
        Json::object().with("code", Json::Signed(code)).with("message", Json::text(message)),
    )
}

/// The result of a tool: its payload as indented text.
pub fn mcp_tool_result_json(payload: &Json) -> (j: Json)
    ensures
        j@ == tool_result(payload@),
{
    let body = match payload.to_pretty_text() {
        Some(t) => t,
        None => "<serialization error>".to_owned(),
    };
    let content = Json::object().with("type", Json::text("text")).with("text", Json::Str(body));
    let mut items: Vec<Json> = Vec::new();
    items.push(content);
    assert(json::items_view(items@) =~= seq![content@]);
    Json::object().with("content", Json::Array(items)).with("isError", Json::Bool(false))
}

// ---------------------------------------------------------------------------
// What the server says of itself
// ---------------------------------------------------------------------------
/// The answer to `initialize`.
pub open spec fn initialize_json() -> JsonView {
    JsonView::object()
        .with("protocolVersion"@, JsonView::Str(MCP_PROTOCOL_VERSION@))
        .with(
            "serverInfo"@,
            JsonView::object().with("name"@, JsonView::Str("stargaze"@)).with("version"@, JsonView::Str(VERSION@)),
        )
        .with("capabilities"@, JsonView::object().with("tools"@, JsonView::object()))
}

fn initialize_to_json() -> (j: Json)
    ensures
        j@ == initialize_json(),
{
    Json::object()
        .with("protocolVersion", Json::text(MCP_PROTOCOL_VERSION))
        .with(
            "serverInfo",
            Json::object().with("name", Json::text("stargaze")).with("version", Json::text(VERSION)),
        )
        .with("capabilities", Json::object().with("tools", Json::object()))
}

/// A parameter of a tool.
pub open spec fn param_json(kind: Seq<char>, help: Seq<char>) -> JsonView {
    JsonView::object().with("type"@, JsonView::Str(kind)).with("description"@, JsonView::Str(help))
}

fn param(kind: &str, help: &str) -> (j: Json)
    ensures
        j@ == param_json(kind@, help@),
{
    Json::object().with("type", Json::text(kind)).with("description", Json::text(help))
}

/// The schema of the parameters of a tool.
pub open spec fn schema_json(properties: JsonView) -> JsonView {
    JsonView::object().with("type"@, JsonView::Str("object"@)).with("properties"@, properties)
}

fn schema(properties: Json) -> (j: Json)
    ensures
        j@ == schema_json(properties@),
{
    Json::object().with("type", Json::text("object")).with("properties", properties)
}

/// A schema with one parameter that has to be given.
pub open spec fn requiring_json(schema: JsonView, name: Seq<char>) -> JsonView {
    schema.with("required"@, JsonView::strs(seq![name]))
}

fn requiring(schema: Json, name: &str) -> (j: Json)
    ensures
        j@ == requiring_json(schema@, name@),
{
    let mut names: Vec<String> = Vec::new();
    names.push(name.to_owned());
    assert(text::texts(names@) =~= seq![name@]);
    schema.with("required", Json::texts(&names))
}

/// A tool.
pub open spec fn tool_json(name: Seq<char>, help: Seq<char>, schema: JsonView) -> JsonView {
    JsonView::object()
        .with("name"@, JsonView::Str(name))
        .with("description"@, JsonView::Str(help))
        .with("inputSchema"@, schema)
}

fn tool(name: &str, help: &str, schema: Json) -> (j: Json)
    ensures
        j@ == tool_json(name@, help@, schema@),
{
    Json::object()
        .with("name", Json::text(name))
        .with("description", Json::text(help))
        .with("inputSchema", schema)
}

/// The tool that searches.
pub open spec fn search_stars_json() -> JsonView {
    tool_json(
        "search_stars"@,
        SEARCH_STARS_HELP@,
        requiring_json(
            schema_json(
                JsonView::object()
                    .with("query"@, param_json("string"@, QUERY_HELP@))
                    .with("lang"@, param_json("string"@, LANG_HELP@))
                    .with("topic"@, param_json("string"@, TOPIC_HELP@))
                    .with("limit"@, param_json("integer"@, LIMIT_HELP@).with("default"@, JsonView::Unsigned(30))),
            ),
            "query"@,
        ),
    )
}

/// The tool that shows one repository.
pub open spec fn show_star_json() -> JsonView {
    tool_json(
        "show_star"@,
        SHOW_STAR_HELP@,
        requiring_json(
            schema_json(JsonView::object().with("full_name"@, param_json("string"@, "owner/name"@))),
            "full_name"@,
        ),
    )
}

/// The tool that lists by stars.
pub open spec fn list_stars_json() -> JsonView {
    tool_json(
        "list_stars"@,
        LIST_STARS_HELP@,
        schema_json(
            JsonView::object().with(
                "limit"@,
                JsonView::object().with("type"@, JsonView::Str("integer"@)).with("default"@, JsonView::Unsigned(50)),
            ),
        ),
    )
}

/// The tool that counts.
pub open spec fn stats_tool_json() -> JsonView {
    tool_json("stats"@, STATS_HELP@, schema_json(JsonView::object()))
}

/// The answer to `tools/list`.
pub open spec fn tools_json() -> JsonView {
    JsonView::object().with(
        "tools"@,
        JsonView::Array(seq![search_stars_json(), show_star_json(), list_stars_json(), stats_tool_json()]),
    )
}

fn search_stars_tool() -> (j: Json)
    ensures
        j@ == search_stars_json(),
{
    let properties = Json::object()
        .with("query", param("string", QUERY_HELP))
        .with("lang", param("string", LANG_HELP))
        .with("topic", param("string", TOPIC_HELP))
        .with("limit", param("integer", LIMIT_HELP).with("default", Json::Unsigned(30)));
    tool("search_stars", SEARCH_STARS_HELP, requiring(schema(properties), "query"))
}

fn show_star_tool() -> (j: Json)
    ensures
        j@ == show_star_json(),
{
    let properties = Json::object().with("full_name", param("string", "owner/name"));
    tool("show_star", SHOW_STAR_HELP, requiring(schema(properties), "full_name"))
}

fn list_stars_tool() -> (j: Json)
    ensures
        j@ == list_stars_json(),
{
    let limit = Json::object().with("type", Json::text("integer")).with("default", Json::Unsigned(50));
    tool("list_stars", LIST_STARS_HELP, schema(Json::object().with("limit", limit)))
}

fn tools_to_json() -> (j: Json)
    ensures
        j@ == tools_json(),
{
    let mut tools: Vec<Json> = Vec::new();
    tools.push(search_stars_tool());
    tools.push(show_star_tool());
    tools.push(list_stars_tool());
    tools.push(tool("stats", STATS_HELP, schema(Json::object())));
    assert(json::items_view(tools@) =~= seq![
        search_stars_json(),
        show_star_json(),
        list_stars_json(),
        stats_tool_json(),
    ]);
    Json::object().with("tools", Json::Array(tools))
}

// ---------------------------------------------------------------------------
// Calls of tools
// ---------------------------------------------------------------------------
/// The arguments of a call; none where they are missing.
pub open spec fn args_of(params: JsonView) -> JsonView {
    match params.get("arguments"@) {
        Some(a) => a,
        None => JsonView::object(),
    }
}

/// The limit in the arguments of a call.
pub open spec fn limit_of(args: JsonView, default: u64) -> nat {
    match args.u64_at("limit"@) {
        Some(n) => (n as usize) as nat,
        None => (default as usize) as nat,
    }
}

/// Whether `reply` answers a call of `search_stars`.
pub open spec fn searched(id: Option<JsonView>, args: JsonView, records: Seq<IndexedRepo>, reply: JsonView) -> bool {
    if args.str_at("query"@) is None {
        reply == failure(id, INVALID_PARAMS, "missing arguments.query"@)
    } else {
        exists|hits: Seq<SearchHit<'_>>| #[trigger] found(args, records, hits) && reply == success(
            id,
            tool_result(replies::hits_json(hits)),
        )
    }
}

/// Whether a call of `search_stars` finds these hits.
pub open spec fn found(args: JsonView, records: Seq<IndexedRepo>, hits: Seq<SearchHit<'_>>) -> bool {
    index::top_hits(
        hits,
        records,
        index::asked(args.str_at("query"@)->0, args.str_at("lang"@), args.str_at("topic"@)),
        limit_of(args, 30),
    )
}

/// The answer to a call of `show_star`.
pub open spec fn shown(id: Option<JsonView>, args: JsonView, reads: StoreReads) -> JsonView {
    match args.str_at("full_name"@) {
        None => failure(id, INVALID_PARAMS, "missing arguments.full_name"@),
        Some(_) => match replies::read_record(reads.record) {
            Ok(record) => success(id, tool_result(record)),
            Err(e) => failure(id, INTERNAL_ERROR, "load error: "@ + e),
        },
    }
}

/// Whether `reply` answers a call of `list_stars`.
pub open spec fn listed(id: Option<JsonView>, args: JsonView, records: Seq<IndexedRepo>, reply: JsonView) -> bool {
    exists|repos: Seq<&Repo>| #[trigger]
        listing::top_starred(repos, records, limit_of(args, 50)) && reply == success(
            id,
            tool_result(replies::records_json(repos)),
        )
}

/// Whether `reply` answers `tools/call`.
pub open spec fn called(req: JsonView, records: Seq<IndexedRepo>, reads: StoreReads, reply: JsonView) -> bool {
    let id = req.get("id"@);
    match req.get("params"@) {
        None => reply == failure(id, INVALID_PARAMS, "missing params"@),
        Some(params) => match params.str_at("name"@) {
            None => reply == failure(id, INVALID_PARAMS, "missing params.name"@),
            Some(tool) => if tool == "search_stars"@ {
                searched(id, args_of(params), records, reply)
            } else if tool == "show_star"@ {
                reply == shown(id, args_of(params), reads)
            } else if tool == "list_stars"@ {
                listed(id, args_of(params), records, reply)
            } else if tool == "stats"@ {
                reply == success(id, tool_result(replies::stats_json(reads)))
            } else {
                reply == failure(id, METHOD_NOT_FOUND, "unknown tool: "@ + tool)
            },
        },
    }
}

/// The method of a request; empty where it has none.
pub open spec fn method_of(req: JsonView) -> Seq<char> {
    text::text_or_empty(req.str_at("method"@))
}

/// Whether a request is a notification, which gets no answer.
pub open spec fn is_notification(req: JsonView) -> bool {
    text::begins_with("notifications/"@, method_of(req))
}

/// Whether `reply` answers a request that is no notification.
pub open spec fn answered(req: JsonView, records: Seq<IndexedRepo>, reads: StoreReads, reply: JsonView) -> bool {
    let id = req.get("id"@);
    let method = method_of(req);
    if method == "initialize"@ {
        reply == success(id, initialize_json())
    } else if method == "tools/list"@ {
        reply == success(id, tools_json())
    } else if method == "tools/call"@ {
        called(req, records, reads, reply)
    } else if method == "ping"@ {
        reply == success(id, JsonView::object())
    } else {
        reply == failure(id, METHOD_NOT_FOUND, "method not found: "@ + method)
    }
}

/// What has to be read from the store to answer a request.
pub open spec fn need_of(req: JsonView) -> NeedView {
    if is_notification(req) || method_of(req) != "tools/call"@ {
        NeedView::Nothing
    } else {
        match req.get("params"@) {
            None => NeedView::Nothing,
            Some(params) => match params.str_at("name"@) {
                None => NeedView::Nothing,
                Some(tool) => if tool == "stats"@ {
                    NeedView::Stats
                } else if tool == "show_star"@ {
                    match args_of(params).str_at("full_name"@) {
                        Some(name) => NeedView::Record(name),
                        None => NeedView::Nothing,
                    }
                } else {
                    NeedView::Nothing
                },
            },
        }
    }
}

/// The arguments of a call; none where they are missing.
fn arguments(params: &Json) -> (args: Json)
    ensures
        args@ == args_of(params@),
{
    match params.get("arguments") {
        Some(a) => a.clone(),
        None => Json::object(),
    }
}

/// The limit in the arguments of a call.
fn limit_in(args: &Json, default: u64) -> (limit: usize)
    ensures
        limit as nat == limit_of(args@, default),
{
    match args.u64_at("limit") {
        Some(n) => n as usize,
        None => default as usize,
    }
}

fn search_stars(req: &Json, args: &Json, index: &RepoIndex) -> (reply: Json)
    ensures
        searched(req@.get("id"@), args@, index@, reply@),
{
    let query = match args.str_at("query") {
        Some(q) => q,
        None => {
            return fail(req, INVALID_PARAMS, "missing arguments.query");
        },
    };
    let hits = index.search(query, args.str_at("lang"), args.str_at("topic"), limit_in(args, 30));
    assert(found(args@, index@, hits@));
    let payload = replies::hits_to_json(&hits);
    succeed(req, mcp_tool_result_json(&payload))
}

fn show_star(req: &Json, args: &Json, reads: &StoreReads) -> (reply: Json)
    ensures
        reply@ == shown(req@.get("id"@), args@, *reads),
{
    if args.str_at("full_name").is_none() {
        return fail(req, INVALID_PARAMS, "missing arguments.full_name");
    }
    let record = match &reads.record {
        Ok(Some(repo)) => repo.to_json(),
        Ok(None) => Json::Null,
        Err(e) => {
            let message = text::concat("load error: ", e.as_str());
            return fail(req, INTERNAL_ERROR, message.as_str());
        },
    };
    succeed(req, mcp_tool_result_json(&record))
}

fn list_stars(req: &Json, args: &Json, index: &RepoIndex) -> (reply: Json)
    ensures
        listed(req@.get("id"@), args@, index@, reply@),
{
    let repos = index.by_stars(limit_in(args, 50));
    let payload = replies::records_to_json(&repos);
    succeed(req, mcp_tool_result_json(&payload))
}

/// Call a tool.
pub fn mcp_tools_call(req: &Json, index: &RepoIndex, reads: &StoreReads) -> (reply: Json)
    ensures
        called(req@, index@, *reads, reply@),
{
    let params = match req.get("params") {
        Some(p) => p,
        None => {
            return fail(req, INVALID_PARAMS, "missing params");
        },
    };
    let tool = match params.str_at("name") {
        Some(t) => t,
        None => {
            return fail(req, INVALID_PARAMS, "missing params.name");
        },
    };
    let args = arguments(params);
    if *tool == *"search_stars" {
        search_stars(req, &args, index)
    } else if *tool == *"show_star" {
        show_star(req, &args, reads)
    } else if *tool == *"list_stars" {
        list_stars(req, &args, index)
    } else if *tool == *"stats" {
        let payload = replies::stats_to_json(reads);
        succeed(req, mcp_tool_result_json(&payload))
    } else {
        let message = text::concat("unknown tool: ", tool);
        fail(req, METHOD_NOT_FOUND, message.as_str())
    }
}

// ---------------------------------------------------------------------------
// Requests
// ---------------------------------------------------------------------------
/// Dispatch a single JSON-RPC request. Returns `None` for notifications
/// (which must not elicit a response) and `Some(value)` for any method
/// call — including errors, which are reported via JSON-RPC `error`.
pub fn handle_mcp_request(req: &Json, index: &RepoIndex, reads: &StoreReads) -> (reply: Option<Json>)
    ensures
        match reply {
            Some(j) => !is_notification(req@) && answered(req@, index@, *reads, j@),
            None => is_notification(req@),
        },
{
    let method = match req.str_at("method") {
        Some(m) => m,
        None => "",
    };
    proof {
        reveal_strlit("");
        assert(""@ =~= Seq::<char>::empty());
    }
    if text::starts_with(method, "notifications/") {
        return None;
    }
    let reply = if *method == *"initialize" {
        succeed(req, initialize_to_json())
    } else if *method == *"tools/list" {
        succeed(req, tools_to_json())
    } else if *method == *"tools/call" {
        mcp_tools_call(req, index, reads)
    } else if *method == *"ping" {
        succeed(req, Json::object())
    } else {
        let message = text::concat("method not found: ", method);
        fail(req, METHOD_NOT_FOUND, message.as_str())
    };
    Some(reply)
}

/// What has to be read from the store to answer a request.
pub fn mcp_store_need(req: &Json) -> (need: StoreNeed)
    ensures
        need@ == need_of(req@),
{
    let method = match req.str_at("method") {
        Some(m) => m,
        None => "",
    };
    proof {
        reveal_strlit("");
        assert(""@ =~= Seq::<char>::empty());
    }
    if text::starts_with(method, "notifications/") || !(*method == *"tools/call") {
        return StoreNeed::Nothing;
    }
    let params = match req.get("params") {
        Some(p) => p,
        None => {
            return StoreNeed::Nothing;
        },
    };
    let tool = match params.str_at("name") {
        Some(t) => t,
        None => {
            return StoreNeed::Nothing;
        },
    };
    if *tool == *"stats" {
        return StoreNeed::Stats;
    }
    if *tool == *"show_star" {
        let args = arguments(params);
        return match args.str_at("full_name") {
            Some(name) => StoreNeed::Record(name.to_owned()),
            None => StoreNeed::Nothing,
        };
    }
    StoreNeed::Nothing
}

// ---------------------------------------------------------------------------
// Lines
// ---------------------------------------------------------------------------
/// A line of the input.
#[derive(Debug)]
pub enum Line {
    /// The end of the input: not even a line break was read.
    End,
    /// Nothing but white space, which is skipped.
    Blank,
    /// No JSON, which is dropped; what is wrong with it.
    Malformed(String),
    /// A request.
    Request(Json),
}

/// Read a line of the input, given with its line break.
pub fn read_line(line: &str) -> (l: Line)
    ensures
        match l {
            Line::End => line@.len() == 0,
            Line::Blank => line@.len() > 0 && text::trimmed(line@).len() == 0,
            Line::Malformed(e) => text::trimmed(line@).len() > 0 && json::value_read(text::trimmed(line@)) == Err::<
                JsonView,
                Seq<char>,
            >(e@),
            Line::Request(req) => text::trimmed(line@).len() > 0 && json::value_read(text::trimmed(line@)) == Ok::<
                JsonView,
                Seq<char>,
            >(req@),
        },
        l is End <==> line@.len() == 0,
        l is Blank <==> line@.len() > 0 && text::trimmed(line@).len() == 0,
        l is Request <==> text::trimmed(line@).len() > 0 && json::value_read(text::trimmed(line@)) is Ok,
{
    if line.unicode_len() == 0 {
        return Line::End;
    }
    let trimmed = text::trim(line);
    if trimmed.as_str().unicode_len() == 0 {
        return Line::Blank;
    }
    match Json::parse(trimmed.as_str()) {
        Ok(req) => Line::Request(req),
        Err(e) => Line::Malformed(e),
    }
}

/// The line of the output for an answer: its compact text, and the only line
/// break at the end.
pub fn write_line(reply: &Json) -> (line: Option<String>)
    ensures
        match line {
            Some(s) => json::compact_text(reply@) is Some && s@ == json::compact_text(reply@)->0.push('\n')
                && !json::compact_text(reply@)->0.contains('\n'),
            None => json::compact_text(reply@) is None,
        },
        line is Some ==> line->0@.len() > 0 && line->0@.last() == '\n' && forall|i: int|
            0 <= i < line->0@.len() - 1 ==> #[trigger] line->0@[i] != '\n',
{
    match reply.to_text() {
        Some(t) => {
            let ghost written = t@;
            let mut line = t;
            line.push('\n');
            proof {
                assert forall|i: int| 0 <= i < line@.len() - 1 implies #[trigger] line@[i] != '\n' by {
                    assert(line@[i] == written[i]);
                    assert(written.contains(written[i]));
                }
            }
            Some(line)
        },
        None => None,
    }
}

/// What is written in answer to a request.
#[derive(Debug, PartialEq)]
pub enum Output {
    /// Nothing: the request was a notification.
    Nothing,
    /// A line, with its line break.
    Line(String),
    /// The answer has no text.
    Unwritable,
}

/// Answer a request with a line of the output.
pub fn respond(req: &Json, index: &RepoIndex, reads: &StoreReads) -> (out: Output)
    ensures
        match out {
            Output::Nothing => is_notification(req@),
            Output::Line(s) => !is_notification(req@) && exists|reply: JsonView| #[trigger]
                answered(req@, index@, *reads, reply) && json::compact_text(reply) is Some && s@ == json::compact_text(
                    reply,
                )->0.push('\n') && !json::compact_text(reply)->0.contains('\n'),
            Output::Unwritable => !is_notification(req@) && exists|reply: JsonView| #[trigger]
                answered(req@, index@, *reads, reply) && json::compact_text(reply) is None,
        },
        out is Nothing <==> is_notification(req@),
{
    match handle_mcp_request(req, index, reads) {
        Some(reply) => match write_line(&reply) {
            Some(line) => {
                assert(answered(req@, index@, *reads, reply@));
                Output::Line(line)
            },
            None => {
                assert(answered(req@, index@, *reads, reply@));
                Output::Unwritable
            },
        },
        None => Output::Nothing,
    }
}

// ---------------------------------------------------------------------------
// What holds of every request
// ---------------------------------------------------------------------------
/// The answer to a request depends on no more of the store than was asked for.
pub proof fn answer_needs_no_more(
    req: JsonView,
    records: Seq<IndexedRepo>,
    reads: StoreReads,
    reads2: StoreReads,
    reply: JsonView,
)
    requires
        !is_notification(req),
        replies::same_reads(need_of(req), reads, reads2),
    ensures
        answered(req, records, reads, reply) <==> answered(req, records, reads2, reply),
{
    reveal_strlit("stats");
    reveal_strlit("show_star");
    assert("stats"@.len() == 5 && "show_star"@.len() == 9);
}

/// Every answer carries the id of its request, and either a result or an
/// error.
pub proof fn answer_carries_id(req: JsonView, records: Seq<IndexedRepo>, reads: StoreReads, reply: JsonView)
    requires
        answered(req, records, reads, reply),
    ensures
        reply.get("id"@) == Some(
            match req.get("id"@) {
                Some(id) => id,
                None => JsonView::Null,
            },
        ),
        reply.get("jsonrpc"@) == Some(JsonView::Str("2.0"@)),
        reply.get("result"@) is Some <==> reply.get("error"@) is None,
{
    reveal_strlit("id");
    reveal_strlit("jsonrpc");
    reveal_strlit("result");
    reveal_strlit("error");
    assert("id"@.len() == 2 && "jsonrpc"@.len() == 7 && "result"@.len() == 6 && "error"@.len() == 5);
}

/// A method that the server does not know is refused with the code for that.
pub proof fn unknown_method_is_refused(req: JsonView, records: Seq<IndexedRepo>, reads: StoreReads, reply: JsonView)
    requires
        answered(req, records, reads, reply),
        method_of(req) != "initialize"@,
        method_of(req) != "tools/list"@,
        method_of(req) != "tools/call"@,
        method_of(req) != "ping"@,
    ensures
        reply == failure(req.get("id"@), METHOD_NOT_FOUND, "method not found: "@ + method_of(req)),
{
}

// ---------------------------------------------------------------------------
// What an answer tells
// ---------------------------------------------------------------------------
/// An answer that a request succeeded holds the result and no error; one that it
/// failed holds the code and the message of an error and no result.
pub proof fn answer_tells_result_or_error(id: Option<JsonView>, result: JsonView, code: i64, message: Seq<char>)
    ensures
        success(id, result).get("result"@) == Some(result),
        success(id, result).get("error"@) is None,
        failure(id, code, message).get("result"@) is None,
        failure(id, code, message).get("error"@) is Some,
        failure(id, code, message).get("error"@)->0.get("message"@) == Some(JsonView::Str(message)),
        code < 0 ==> failure(id, code, message).get("error"@)->0.get("code"@) == Some(JsonView::Negative(code)),
{
    reveal_strlit("id");
    reveal_strlit("jsonrpc");
    reveal_strlit("result");
    reveal_strlit("error");
    reveal_strlit("code");
    reveal_strlit("message");
    assert("id"@.len() == 2 && "jsonrpc"@.len() == 7 && "result"@.len() == 6 && "error"@.len() == 5);
    assert("code"@.len() == 4 && "message"@.len() == 7);
}

/// The result of a tool holds one text, which is the payload as `serde_json` indents
/// it, and is no error.
pub proof fn tool_result_holds_the_payload(payload: JsonView)
    ensures
        tool_result(payload).get("isError"@) == Some(JsonView::Bool(false)),
        tool_result(payload).get("content"@) is Some && tool_result(payload).get("content"@)->0 is Array,
        tool_result(payload).get("content"@)->0->Array_0.len() == 1,
        tool_result(payload).get("content"@)->0->Array_0[0].get("type"@) == Some(JsonView::Str("text"@)),
        json::pretty_text(payload) is Some ==> tool_result(payload).get("content"@)->0->Array_0[0].get("text"@) == Some(
            JsonView::Str(json::pretty_text(payload)->0),
        ),
{
    reveal_strlit("isError");
    reveal_strlit("content");
    reveal_strlit("type");
    reveal_strlit("text");
    assert("isError"@.len() == 7 && "content"@.len() == 7 && "isError"@[0] != "content"@[0]);
    assert("type"@.len() == 4 && "text"@.len() == 4 && "type"@[1] != "text"@[1]);
}

/// The answer to a call of `search_stars` tells what was asked for: its hits show
/// repositories that are wanted by the query, the language and the topic among the
/// arguments, each with that topic and that language, as many as the limit allows.
pub proof fn search_answer_shows_the_wanted(
    id: Option<JsonView>,
    args: JsonView,
    records: Seq<IndexedRepo>,
    reply: JsonView,
    query: Seq<char>,
) -> (hits: Seq<JsonView>)
    requires
        records.len() <= usize::MAX,
        args.get("query"@) == Some(JsonView::Str(query)),
        searched(id, args, records, reply),
    ensures
        ({
            let lang = match args.get("lang"@) {
                Some(JsonView::Str(l)) => Some(l),
                _ => None,
            };
            let topic = match args.get("topic"@) {
                Some(JsonView::Str(t)) => Some(t),
                _ => None,
            };
            let limit: nat = match args.get("limit"@) {
                Some(JsonView::Unsigned(n)) => (n as usize) as nat,
                _ => 30,
            };
            let want = index::wanted_at(records, query, lang, topic);
            &&& reply.get("result"@) == Some(tool_result(JsonView::Array(hits)))
            &&& limit < want.len() ==> hits.len() == limit
            &&& limit >= want.len() ==> hits.len() == want.len()
            &&& forall|i: int| 0 <= i < hits.len() ==> replies::shows_a_wanted(#[trigger] hits[i], records, query, lang, topic)
        }),
{
    let found_hits = choose|hits: Seq<SearchHit<'_>>| #[trigger] found(args, records, hits) && reply == success(
        id,
        tool_result(replies::hits_json(hits)),
    );
    let lang = args.str_at("lang"@);
    let topic = args.str_at("topic"@);
    replies::hits_show_the_wanted(found_hits, records, query, lang, topic, limit_of(args, 30));
    answer_tells_result_or_error(id, tool_result(replies::hits_json(found_hits)), 0, query);
    let hits = replies::hits_json(found_hits)->Array_0;
    assert forall|i: int| 0 <= i < hits.len() implies replies::shows_a_wanted(#[trigger] hits[i], records, query, lang, topic) by {
        assert(hits[i] == replies::hits_json(found_hits)->Array_0[i]);
    }
    hits
}

/// A call of `search_stars` without a query, or of `show_star` without a name, is
/// refused with the code for a missing parameter.
pub proof fn calls_need_their_arguments(
    id: Option<JsonView>,
    args: JsonView,
    records: Seq<IndexedRepo>,
    reads: StoreReads,
    reply: JsonView,
)
    requires
        searched(id, args, records, reply),
    ensures
        !(args.get("query"@) matches Some(JsonView::Str(_))) ==> reply.get("error"@) is Some && reply.get("error"@)->0.get(
            "code"@,
        ) == Some(JsonView::Negative((-32602) as i64)) && reply.get("error"@)->0.get("message"@) == Some(
            JsonView::Str("missing arguments.query"@),
        ),
        args.get("query"@) matches Some(JsonView::Str(_)) ==> reply.get("error"@) is None,
        !(args.get("full_name"@) matches Some(JsonView::Str(_))) ==> shown(id, args, reads).get("error"@) is Some && shown(
            id,
            args,
            reads,
        ).get("error"@)->0.get("code"@) == Some(JsonView::Negative((-32602) as i64)),
{
    answer_tells_result_or_error(id, JsonView::Null, INVALID_PARAMS, "missing arguments.query"@);
    answer_tells_result_or_error(id, JsonView::Null, INVALID_PARAMS, "missing arguments.full_name"@);
    if args.str_at("query"@) is Some {
        let hits = choose|hits: Seq<SearchHit<'_>>| #[trigger] found(args, records, hits) && reply == success(
            id,
            tool_result(replies::hits_json(hits)),
        );
        answer_tells_result_or_error(id, tool_result(replies::hits_json(hits)), 0, Seq::empty());
    }
}

/// The answer to a call of `show_star` holds the record of the repository that was
/// read, `null` where it is not cached, and the error of the server where reading
/// failed.
pub proof fn show_answer_holds_the_record(id: Option<JsonView>, args: JsonView, reads: StoreReads, name: Seq<char>)
    requires
        args.get("full_name"@) == Some(JsonView::Str(name)),
    ensures
        reads.record is Ok && reads.record->Ok_0 is Some ==> shown(id, args, reads).get("result"@) == Some(
            tool_result(repo::record(reads.record->Ok_0->0)),
        ),
        reads.record is Ok && reads.record->Ok_0 is None ==> shown(id, args, reads).get("result"@) == Some(
            tool_result(JsonView::Null),
        ),
        reads.record is Err ==> shown(id, args, reads).get("error"@) is Some && shown(id, args, reads).get("error"@)->0.get(
            "code"@,
        ) == Some(JsonView::Negative((-32603) as i64)) && shown(id, args, reads).get("error"@)->0.get("message"@) == Some(
            JsonView::Str("load error: "@ + reads.record->Err_0@),
        ),
{
    match reads.record {
        Ok(Some(r)) => {
            answer_tells_result_or_error(id, tool_result(repo::record(r)), 0, name);
        },
        Ok(None) => {
            answer_tells_result_or_error(id, tool_result(JsonView::Null), 0, name);
        },
        Err(e) => {
            answer_tells_result_or_error(id, JsonView::Null, INTERNAL_ERROR, "load error: "@ + e@);
        },
    }
}

/// The answer to a call of `list_stars` holds the records of the most starred
/// repositories, as many as the limit among the arguments allows, fifty where there
/// is none.
pub proof fn list_answer_shows_the_most_starred(
    id: Option<JsonView>,
    args: JsonView,
    records: Seq<IndexedRepo>,
    reply: JsonView,
) -> (shown: (Seq<JsonView>, Seq<int>))
    requires
        records.len() <= usize::MAX,
        listed(id, args, records, reply),
    ensures
        reply.get("result"@) == Some(tool_result(JsonView::Array(shown.0))),
        replies::show_the_most_starred(
            shown.0,
            records,
            match args.get("limit"@) {
                Some(JsonView::Unsigned(n)) => (n as usize) as nat,
                _ => 50,
            },
            shown.1,
        ),
{
    let repos = choose|repos: Seq<&Repo>| #[trigger]
        listing::top_starred(repos, records, limit_of(args, 50)) && reply == success(
            id,
            tool_result(replies::records_json(repos)),
        );
    let at = replies::listing_shows_records(repos, records, limit_of(args, 50));
    answer_tells_result_or_error(id, tool_result(replies::records_json(repos)), 0, Seq::empty());
    (replies::records_json(repos)->Array_0, at)
}

/// A call goes to the tool that it names, with the arguments that it gives; a tool
/// that is not known, a call without a name and one without parameters are refused,
/// each with its code.
pub proof fn call_goes_to_the_named_tool(
    req: JsonView,
    params: JsonView,
    tool: Seq<char>,
    args: JsonView,
    records: Seq<IndexedRepo>,
    reads: StoreReads,
    reply: JsonView,
)
    requires
        called(req, records, reads, reply),
        req.get("params"@) == Some(params),
        params.get("name"@) == Some(JsonView::Str(tool)),
        params.get("arguments"@) == Some(args),
    ensures
        tool == "search_stars"@ ==> searched(req.get("id"@), args, records, reply),
        tool == "show_star"@ ==> reply == shown(req.get("id"@), args, reads),
        tool == "list_stars"@ ==> listed(req.get("id"@), args, records, reply),
        tool == "stats"@ ==> reply.get("result"@) == Some(tool_result(replies::stats_json(reads))),
        tool != "search_stars"@ && tool != "show_star"@ && tool != "list_stars"@ && tool != "stats"@ ==> reply.get("error"@)
            is Some && reply.get("error"@)->0.get("code"@) == Some(JsonView::Negative((-32601) as i64)) && reply.get("error"@)->0.get(
            "message"@,
        ) == Some(JsonView::Str("unknown tool: "@ + tool)),
{
    let id = req.get("id"@);
    lemma_tool_names();
    answer_tells_result_or_error(id, tool_result(replies::stats_json(reads)), METHOD_NOT_FOUND, "unknown tool: "@ + tool);
}

proof fn lemma_tool_names()
    ensures
        "stats"@.len() == 5,
        "search_stars"@.len() == 12,
        "show_star"@.len() == 9,
        "list_stars"@.len() == 10,
{
    reveal_strlit("stats");
    reveal_strlit("search_stars");
    reveal_strlit("show_star");
    reveal_strlit("list_stars");
}

/// A call without parameters, or whose parameters name no tool, is refused with the
/// code for a missing parameter.
pub proof fn call_needs_a_tool(req: JsonView, records: Seq<IndexedRepo>, reads: StoreReads, reply: JsonView)
    requires
        called(req, records, reads, reply),
        !(req.get("params"@) is Some && req.get("params"@)->0.get("name"@) matches Some(JsonView::Str(_))),
    ensures
        reply.get("error"@) is Some,
        reply.get("error"@)->0.get("code"@) == Some(JsonView::Negative((-32602) as i64)),
        req.get("params"@) is None ==> reply.get("error"@)->0.get("message"@) == Some(JsonView::Str("missing params"@)),
        req.get("params"@) is Some ==> reply.get("error"@)->0.get("message"@) == Some(JsonView::Str("missing params.name"@)),
{
    let id = req.get("id"@);
    answer_tells_result_or_error(id, JsonView::Null, INVALID_PARAMS, "missing params"@);
    answer_tells_result_or_error(id, JsonView::Null, INVALID_PARAMS, "missing params.name"@);
}

/// Each method has its own answer, and one that is not known is refused.
pub proof fn each_method_has_its_answer(
    req: JsonView,
    method: Seq<char>,
    records: Seq<IndexedRepo>,
    reads: StoreReads,
    reply: JsonView,
)
    requires
        answered(req, records, reads, reply),
        req.get("method"@) == Some(JsonView::Str(method)),
    ensures
        method == "initialize"@ ==> reply.get("result"@) == Some(initialize_json()),
        method == "tools/list"@ ==> reply.get("result"@) == Some(tools_json()),
        method == "tools/call"@ ==> called(req, records, reads, reply),
        method == "ping"@ ==> reply.get("result"@) == Some(JsonView::object()),
        method != "initialize"@ && method != "tools/list"@ && method != "tools/call"@ && method != "ping"@ ==> reply.get(
            "error"@,
        ) is Some && reply.get("error"@)->0.get("code"@) == Some(JsonView::Negative((-32601) as i64)),
        is_notification(req) <==> text::begins_with("notifications/"@, method),
{
    let id = req.get("id"@);
    reveal_strlit("initialize");
    reveal_strlit("tools/list");
    reveal_strlit("tools/call");
    reveal_strlit("ping");
    assert("initialize"@.len() == 10 && "tools/list"@.len() == 10 && "tools/call"@.len() == 10 && "ping"@.len() == 4);
    assert("initialize"@[0] != "tools/list"@[0] && "initialize"@[0] != "tools/call"@[0]);
    assert("tools/list"@[6] != "tools/call"@[6]);
    answer_tells_result_or_error(id, initialize_json(), METHOD_NOT_FOUND, "method not found: "@ + method);
    answer_tells_result_or_error(id, tools_json(), 0, method);
    answer_tells_result_or_error(id, JsonView::object(), 0, method);
}

/// A request without a method is no notification and is refused as not known.
pub proof fn request_needs_a_method(req: JsonView, records: Seq<IndexedRepo>, reads: StoreReads, reply: JsonView)
    requires
        answered(req, records, reads, reply),
        !(req.get("method"@) matches Some(JsonView::Str(_))),
    ensures
        !is_notification(req),
        reply.get("error"@) is Some,
        reply.get("error"@)->0.get("code"@) == Some(JsonView::Negative((-32601) as i64)),
{
    reveal_strlit("initialize");
    reveal_strlit("tools/list");
    reveal_strlit("tools/call");
    reveal_strlit("ping");
    reveal_strlit("notifications/");
    assert("initialize"@.len() == 10 && "tools/list"@.len() == 10 && "tools/call"@.len() == 10 && "ping"@.len() == 4);
    assert("notifications/"@.len() == 14);
    answer_tells_result_or_error(req.get("id"@), JsonView::Null, METHOD_NOT_FOUND, "method not found: "@ + method_of(req));
}

/// The server says which protocol it speaks, who it is, and that it has tools.
pub proof fn server_says_what_it_is()
    ensures
        initialize_json().get("protocolVersion"@) == Some(JsonView::Str("2024-11-05"@)),
        initialize_json().get("serverInfo"@) is Some,
        initialize_json().get("serverInfo"@)->0.get("name"@) == Some(JsonView::Str("stargaze"@)),
        initialize_json().get("serverInfo"@)->0.get("version"@) == Some(JsonView::Str("0.3.0"@)),
        initialize_json().get("capabilities"@) is Some,
        initialize_json().get("capabilities"@)->0.get("tools"@) is Some,
{
    reveal_strlit("protocolVersion");
    reveal_strlit("serverInfo");
    reveal_strlit("capabilities");
    reveal_strlit("name");
    reveal_strlit("version");
    assert("protocolVersion"@.len() == 15 && "serverInfo"@.len() == 10 && "capabilities"@.len() == 12);
    assert("name"@.len() == 4 && "version"@.len() == 7);
}

/// Whether a tool is said to take a parameter of a kind.
pub open spec fn takes(tool: JsonView, parameter: Seq<char>, kind: Seq<char>) -> bool {
    &&& tool.get("inputSchema"@) is Some
    &&& tool.get("inputSchema"@)->0.get("properties"@) is Some
    &&& tool.get("inputSchema"@)->0.get("properties"@)->0.get(parameter) is Some
    &&& tool.get("inputSchema"@)->0.get("properties"@)->0.get(parameter)->0.get("type"@) == Some(JsonView::Str(kind))
}

/// Whether a tool is said to need a parameter, and no other.
pub open spec fn needs_only(tool: JsonView, parameter: Seq<char>) -> bool {
    &&& tool.get("inputSchema"@) is Some
    &&& tool.get("inputSchema"@)->0.get("required"@) is Some && tool.get("inputSchema"@)->0.get("required"@)->0 is Array
    &&& tool.get("inputSchema"@)->0.get("required"@)->0->Array_0.len() == 1
    &&& tool.get("inputSchema"@)->0.get("required"@)->0->Array_0[0] == JsonView::Str(parameter)
}

/// The tools that are said to be there are those that calls go to, and each is said
/// to take the arguments that it reads.
pub proof fn tools_are_said_as_they_are()
    ensures
        tools_json().get("tools"@) is Some && tools_json().get("tools"@)->0 is Array,
        ({
            let tools = tools_json().get("tools"@)->0->Array_0;
            &&& tools.len() == 4
            &&& tools[0].get("name"@) == Some(JsonView::Str("search_stars"@))
            &&& takes(tools[0], "query"@, "string"@)
            &&& takes(tools[0], "lang"@, "string"@)
            &&& takes(tools[0], "topic"@, "string"@)
            &&& takes(tools[0], "limit"@, "integer"@)
            &&& needs_only(tools[0], "query"@)
            &&& tools[1].get("name"@) == Some(JsonView::Str("show_star"@))
            &&& takes(tools[1], "full_name"@, "string"@)
            &&& needs_only(tools[1], "full_name"@)
            &&& tools[2].get("name"@) == Some(JsonView::Str("list_stars"@))
            &&& takes(tools[2], "limit"@, "integer"@)
            &&& tools[3].get("name"@) == Some(JsonView::Str("stats"@))
        }),
{
    reveal_strlit("name");
    reveal_strlit("description");
    reveal_strlit("inputSchema");
    reveal_strlit("type");
    reveal_strlit("properties");
    reveal_strlit("required");
    reveal_strlit("default");
    reveal_strlit("query");
    reveal_strlit("lang");
    reveal_strlit("topic");
    reveal_strlit("limit");
    assert("name"@.len() == 4 && "description"@.len() == 11 && "inputSchema"@.len() == 11);
    assert("description"@[0] != "inputSchema"@[0]);
    assert("type"@.len() == 4 && "properties"@.len() == 10 && "required"@.len() == 8 && "default"@.len() == 7);
    assert("query"@.len() == 5 && "lang"@.len() == 4 && "topic"@.len() == 5 && "limit"@.len() == 5);
    assert("query"@[0] != "topic"@[0] && "query"@[0] != "limit"@[0] && "topic"@[0] != "limit"@[0]);
    let tools = tools_json().get("tools"@)->0->Array_0;
    assert(tools[0] == search_stars_json());
    assert(tools[1] == show_star_json());
    assert(tools[2] == list_stars_json());
    assert(tools[3] == stats_tool_json());
}

/// What is read from the store for a request is what its answer shows: the record of
/// the name that `show_star` is called with, the statistics for `stats`, and nothing
/// for any other tool or method.
pub proof fn need_is_what_is_shown(req: JsonView, params: JsonView, tool: Seq<char>, args: JsonView, name: Seq<char>)
    requires
        req.get("method"@) == Some(JsonView::Str("tools/call"@)),
        req.get("params"@) == Some(params),
        params.get("name"@) == Some(JsonView::Str(tool)),
        params.get("arguments"@) == Some(args),
    ensures
        tool == "stats"@ ==> need_of(req) == NeedView::Stats,
        tool == "show_star"@ && args.get("full_name"@) == Some(JsonView::Str(name)) ==> need_of(req) == NeedView::Record(name),
        tool != "stats"@ && tool != "show_star"@ ==> need_of(req) == NeedView::Nothing,
{
    lemma_tool_names();
    reveal_strlit("tools/call");
    reveal_strlit("notifications/");
    assert("tools/call"@.len() == 10 && "notifications/"@.len() == 14);
}

/// A call without arguments is one with none: it searches for nothing, names no
/// repository, and lists up to fifty.
pub proof fn call_without_arguments_has_none(
    req: JsonView,
    params: JsonView,
    records: Seq<IndexedRepo>,
    reads: StoreReads,
    reply: JsonView,
)
    requires
        called(req, records, reads, reply),
        req.get("params"@) == Some(params),
        params.get("arguments"@) is None,
    ensures
        params.get("name"@) == Some(JsonView::Str("search_stars"@)) ==> reply.get("error"@) is Some && reply.get("error"@)->0.get(
            "code"@,
        ) == Some(JsonView::Negative((-32602) as i64)),
        params.get("name"@) == Some(JsonView::Str("show_star"@)) ==> reply.get("error"@) is Some && reply.get("error"@)->0.get(
            "code"@,
        ) == Some(JsonView::Negative((-32602) as i64)),
        params.get("name"@) == Some(JsonView::Str("list_stars"@)) ==> listed(req.get("id"@), JsonView::object(), records, reply),
        params.get("name"@) == Some(JsonView::Str("stats"@)) ==> reply.get("result"@) == Some(
            tool_result(replies::stats_json(reads)),
        ),
{
    let id = req.get("id"@);
    lemma_tool_names();
    answer_tells_result_or_error(id, tool_result(replies::stats_json(reads)), INVALID_PARAMS, "missing arguments.query"@);
    answer_tells_result_or_error(id, JsonView::Null, INVALID_PARAMS, "missing arguments.full_name"@);
}

/// The limits that the tools are said to have by default are those that they have.
pub proof fn default_limits_are_said_as_they_are()
    ensures
        ({
            let tools = tools_json().get("tools"@)->0->Array_0;
            let search = tools[0].get("inputSchema"@)->0.get("properties"@)->0.get("limit"@)->0;
            let list = tools[2].get("inputSchema"@)->0.get("properties"@)->0.get("limit"@)->0;
            &&& search.get("default"@) == Some(JsonView::Unsigned(30))
            &&& list.get("default"@) == Some(JsonView::Unsigned(50))
        }),
{
    reveal_strlit("name");
    reveal_strlit("description");
    reveal_strlit("inputSchema");
    reveal_strlit("properties");
    reveal_strlit("required");
    reveal_strlit("type");
    reveal_strlit("limit");
    reveal_strlit("default");
    assert("description"@.len() == 11 && "inputSchema"@.len() == 11 && "description"@[0] != "inputSchema"@[0]);
    assert("properties"@.len() == 10 && "required"@.len() == 8 && "default"@.len() == 7 && "type"@.len() == 4);
    let tools = tools_json().get("tools"@)->0->Array_0;
    assert(tools[0] == search_stars_json());
    assert(tools[2] == list_stars_json());
}

} // verus!

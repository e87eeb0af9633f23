//! stargaze — cache and search your GitHub stars from the terminal.
//!
//! The library holds the logic: what a page of the GitHub API says, which
//! repositories a query finds and in what order, what the store keeps, and what
//! the MCP and HTTP servers answer. Reading and writing, the network and the
//! clock of the process are left to the program around it.

pub mod api;
pub mod auth;
pub mod cache;
pub mod github;
pub mod index;
pub mod json;
pub mod links;
pub mod listing;
pub mod mcp;
pub mod query;
pub mod replies;
pub mod repo;
pub mod store;
pub mod text;

pub use api::handle_api_request;
pub use api::route_api;
pub use api::ApiResponse;
pub use auth::resolve_token;
pub use github::GhClient;
pub use github::USER_AGENT;
pub use index::IndexedRepo;
pub use index::RepoIndex;
pub use index::Score;
pub use index::SearchHit;
pub use index::SearchKey;
pub use json::Json;
pub use links::parse_link_next;
pub use mcp::handle_mcp_request;
pub use mcp::MCP_PROTOCOL_VERSION;
pub use query::parse_query_string;
pub use replies::VERSION;
pub use repo::Repo;
pub use repo::README_MAX_BYTES;
pub use store::count_repos;
pub use store::load_all;
pub use store::load_one;
pub use store::read_meta;
pub use store::retain_repos;
pub use store::upsert_repos;
pub use store::META;
pub use store::REPOS;
pub use text::truncate;
pub use vstd::hash_map::StringHashMap;
pub use vstd::hash_set::StringHashSet;

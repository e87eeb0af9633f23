//! The GitHub REST API: what is asked for, and what becomes of the replies.

use crate::json::Json;
use crate::json::JsonView;
use crate::json;
use crate::links::parse_link_next;
use crate::links;
use crate::repo::README_MAX_BYTES;
use crate::text;
use vstd::prelude::*;

verus! {

// ---------------------------------------------------------------------------
// Requests
// ---------------------------------------------------------------------------
/// Agent string used in every GitHub API request — lets them rate-limit by name.
pub const USER_AGENT: &'static str = "stargaze/0.3.0";

/// A GET request: where it goes, and the headers it carries.
#[derive(Debug, Clone, PartialEq)]
pub struct Request {
    pub url: String,
    pub authorization: String,
    pub accept: String,
    pub api_version: String,
}

/// Why a page of stars is refused.
#[derive(Debug)]
pub enum PageError {
    /// The body is no array.
    NoArray(Json),
}

impl PageError {
    /// The message for the user.
    pub fn message(&self) -> (s: String)
        ensures
            s@ == "expected JSON array, got "@ + text::text_or_empty(json::compact_text(self->NoArray_0@)),
    {
        match self {
            PageError::NoArray(body) => {
                let got = match body.to_text() {
                    Some(t) => t,
                    None => String::new(),
                };
                text::concat("expected JSON array, got ", got.as_str())
            },
        }
    }
}

/// How a request failed: the status where there was a response, and what is
/// wrong.
#[derive(Debug, Clone, PartialEq)]
pub struct HttpFailure {
    pub status: Option<u16>,
    pub message: String,
}

/// The stars that were fetched so far, and the page that is to be fetched next.
#[derive(Debug)]
pub struct StarWalk {
    pub items: Vec<Json>,
    pub next: Option<String>,
}

impl StarWalk {
    /// The items as JSON values, and the next URL as text.
    pub open spec fn so_far(&self) -> (Seq<JsonView>, Option<Seq<char>>) {
        (json::items_view(self.items@), text::opt_text(self.next))
    }

    /// Take in one page: its Link header and its body. A page without items
    /// ends the walk, and so does one without a link to the next.
    pub fn receive(self, link: Option<&str>, body: Json) -> (r: Result<StarWalk, PageError>)
        ensures
            match r {
                Ok(w) => body@.as_array() is Some && w.so_far() == after_page(
                    self.so_far(),
                    text::opt_str(link),
                    body@.as_array()->0,
                ),
                Err(e) => body@.as_array() is None && e == PageError::NoArray(body),
            },
    {
        match body {
            Json::Array(page) => {
                let mut page = page;
                let mut items = self.items;
                let ghost before = items@;
                let ghost new = page@;
                let count: usize = page.len();
                items.append(&mut page);
                assert(json::items_view(items@) =~= json::items_view(before) + json::items_view(new));
                if count == 0 {
                    return Ok(StarWalk { items, next: None });
                }
                let next = match link {
                    Some(l) => parse_link_next(l),
                    None => None,
                };
                Ok(StarWalk { items, next })
            },
            other => Err(PageError::NoArray(other)),
        }
    }
}

/// What a walk has come to once a page was taken in.
pub open spec fn after_page(
    so_far: (Seq<JsonView>, Option<Seq<char>>),
    link: Option<Seq<char>>,
    page: Seq<JsonView>,
) -> (Seq<JsonView>, Option<Seq<char>>) {
    (
        so_far.0 + page,
        if page.len() == 0 {
            None
        } else {
            match link {
                Some(l) => links::next_link(l, 0),
                None => None,
            }
        },
    )
}

/// What a walk has come to once all of these pages were taken in, each a Link
/// header and the items of a body.
pub open spec fn after_pages(pages: Seq<(Option<Seq<char>>, Seq<JsonView>)>, first: Seq<char>) -> (
    Seq<JsonView>,
    Option<Seq<char>>,
)
    decreases pages.len(),
{
    if pages.len() == 0 {
        (Seq::empty(), Some(first))
    } else {
        after_page(after_pages(pages.drop_last(), first), pages.last().0, pages.last().1)
    }
}

/// A walk gathers the items of all pages in their order, none left out and
/// none twice.
pub proof fn walk_gathers_every_page(pages: Seq<(Option<Seq<char>>, Seq<JsonView>)>, first: Seq<char>)
    ensures
        after_pages(pages, first).0 == pages.map_values(
            |p: (Option<Seq<char>>, Seq<JsonView>)| p.1,
        ).flatten(),
    decreases pages.len(),
{
    let bodies = pages.map_values(|p: (Option<Seq<char>>, Seq<JsonView>)| p.1);
    if pages.len() == 0 {
        assert(bodies.flatten() =~= Seq::<JsonView>::empty());
    } else {
        let earlier = pages.drop_last();
        walk_gathers_every_page(earlier, first);
        let earlier_bodies = earlier.map_values(|p: (Option<Seq<char>>, Seq<JsonView>)| p.1);
        assert(bodies.drop_last() =~= earlier_bodies);
        bodies.lemma_flatten_and_flatten_alt_are_equivalent();
        earlier_bodies.lemma_flatten_and_flatten_alt_are_equivalent();
    }
}

/// A walk goes on after a page exactly where the page has items and links to a
/// next one.
pub proof fn walk_goes_on_by_link(
    so_far: (Seq<JsonView>, Option<Seq<char>>),
    link: Option<Seq<char>>,
    page: Seq<JsonView>,
)
    ensures
        after_page(so_far, link, page).1 is Some <==> page.len() > 0 && link is Some && links::next_link(link->0, 0) is Some,
        after_page(so_far, link, page).1 is Some ==> after_page(so_far, link, page).1 == links::next_link(link->0, 0),
{
}

/// Paginating client for the GitHub REST API.
///
/// It says what to ask for; the `base_url` is parameterizable so that tests
/// can point at a local mock server.
pub struct GhClient {
    token: String,
    base_url: String,
}

/// The URL of the first page of stars.
pub open spec fn starred_url(base: Seq<char>, user: Option<Seq<char>>) -> Seq<char> {
    match user {
        Some(u) => base + "/users/"@ + u + "/starred?per_page=100"@,
        None => base + "/user/starred?per_page=100"@,
    }
}

/// The URL of a README.
pub open spec fn readme_url(base: Seq<char>, owner: Seq<char>, name: Seq<char>) -> Seq<char> {
    base + "/repos/"@ + owner + "/"@ + name + "/readme"@
}

/// Whether a request goes to `url` with `token`, asks for `accept`, and for the
/// version of the API that this client knows.
pub open spec fn request_for(r: Request, url: Seq<char>, token: Seq<char>, accept: Seq<char>) -> bool {
    &&& r.url@ == url
    &&& r.authorization@ == "Bearer "@ + token
    &&& r.accept@ == accept
    &&& r.api_version@ == "2022-11-28"@
}

/// The media types of a page of stars: with the time of starring, else plain.
pub open spec fn star_media() -> Seq<char> {
    "application/vnd.github.star+json, application/vnd.github+json"@
}

/// The media type of a README as it is.
pub open spec fn raw_media() -> Seq<char> {
    "application/vnd.github.raw"@
}

impl GhClient {
    /// The token that requests carry.
    pub closed spec fn token(&self) -> Seq<char> {
        self.token@
    }

    /// Where the API is.
    pub closed spec fn base_url(&self) -> Seq<char> {
        self.base_url@
    }

    /// A client for the public GitHub API.
    pub fn new(token: String) -> (client: GhClient)
        ensures
            client.token() == token@,
            client.base_url() == "https://api.github.com"@,
    {
        GhClient::with_base(token, "https://api.github.com".to_owned())
    }

    /// A client for the API at another place.
    pub fn with_base(token: String, base_url: String) -> (client: GhClient)
        ensures
            client.token() == token@,
            client.base_url() == base_url@,
    {
        GhClient { token, base_url }
    }

    /// Begin to fetch every starred repo for `user` (or the authenticated
    /// caller if `None`).
    ///
    /// The walk goes through every page of the `/user/starred` or
    /// `/users/{user}/starred` endpoint by following `Link: ...; rel="next"`
    /// headers. It stops on the first page without a next link or on the first
    /// empty page.
    pub fn starred(&self, user: Option<&str>) -> (walk: StarWalk)
        ensures
            walk.so_far() == after_pages(Seq::empty(), starred_url(self.base_url(), text::opt_str(user))),
            walk.items@.len() == 0,
            walk.next is Some,
            user matches Some(u) ==> text::begins_with(self.base_url() + "/users/"@ + u@ + "/starred"@, walk.next->0@),
            user is None ==> text::begins_with(self.base_url() + "/user/starred"@, walk.next->0@),
    {
        let url = match user {
            Some(u) => {
                let users = text::concat(self.base_url.as_str(), "/users/");
                let login = text::concat(users.as_str(), u);
                text::concat(login.as_str(), "/starred?per_page=100")
            },
            None => text::concat(self.base_url.as_str(), "/user/starred?per_page=100"),
        };
        let items: Vec<Json> = Vec::new();
        assert(json::items_view(items@) =~= Seq::<JsonView>::empty());
        proof {
            let name = text::text_or_empty(text::opt_str(user));
            stars_are_asked_for_by_user(self.base_url(), name, name);
        }
        StarWalk { items, next: Some(url) }
    }

    /// The request for a page of stars.
    pub fn page_request(&self, url: &str) -> (r: Request)
        ensures
            request_for(r, url@, self.token(), star_media()),
            r.url@ == url@,
            r.authorization@ == "Bearer "@ + self.token(),
    {
        self.request(url, "application/vnd.github.star+json, application/vnd.github+json")
    }

    /// The request for the README of a repo.
    pub fn readme_request(&self, owner: &str, name: &str) -> (r: Request)
        ensures
            request_for(r, readme_url(self.base_url(), owner@, name@), self.token(), raw_media()),
            text::begins_with(self.base_url() + "/repos/"@ + owner@ + "/"@ + name@ + "/"@, r.url@),
            r.authorization@ == "Bearer "@ + self.token(),
    {
        let repos = text::concat(self.base_url.as_str(), "/repos/");
        let of_owner = text::concat(repos.as_str(), owner);
        let slash = text::concat(of_owner.as_str(), "/");
        let repo = text::concat(slash.as_str(), name);
        let url = text::concat(repo.as_str(), "/readme");
        proof {
            readme_is_asked_for_by_name(self.base_url(), owner@, name@);
        }
        self.request(url.as_str(), "application/vnd.github.raw")
    }

    fn request(&self, url: &str, accept: &str) -> (r: Request)
        ensures
            request_for(r, url@, self.token(), accept@),
    {
        Request {
            url: url.to_owned(),
            authorization: text::concat("Bearer ", self.token.as_str()),
            accept: accept.to_owned(),
            api_version: "2022-11-28".to_owned(),
        }
    }

    /// The raw README text for a single repo, from the reply to its request.
    ///
    /// 404 is rewritten to an empty string so a missing README doesn't abort a
    /// batch sync. Returned text is truncated to [`README_MAX_BYTES`].
    pub fn readme(&self, owner: &str, name: &str, reply: Result<String, HttpFailure>) -> (r: Result<String, String>)
        ensures
            match reply {
                Ok(body) => r is Ok && r->Ok_0@ == text::clipped(body@, README_MAX_BYTES as nat),
                Err(failure) => if failure.status == Some(404u16) {
                    r is Ok && r->Ok_0@.len() == 0
                } else {
                    r is Err && r->Err_0@ == "GET "@ + readme_url(self.base_url(), owner@, name@) + ": "@
                        + failure.message@
                },
            },
            reply is Ok && vstd::utf8::encode_utf8(reply->Ok_0@).len() <= 65536 ==> r is Ok && r->Ok_0@ == reply->Ok_0@,
            r is Ok ==> vstd::utf8::encode_utf8(r->Ok_0@).len() <= 65536,
            r is Err <==> reply is Err && reply->Err_0.status != Some(404u16),
    {
        match reply {
            Ok(body) => {
                proof {
                    readme_is_capped(body@);
                }
                Ok(text::clip(body, README_MAX_BYTES))
            },
            Err(failure) => {
                let missing = match failure.status {
                    Some(status) => status == 404,
                    None => false,
                };
                if missing {
                    return Ok(String::new());
                }
                let url = self.readme_request(owner, name).url;
                let get = text::concat("GET ", url.as_str());
                let colon = text::concat(get.as_str(), ": ");
                Err(text::concat(colon.as_str(), failure.message.as_str()))
            },
        }
    }
}

/// A README is never longer than the cap, and it begins what was sent.
pub proof fn readme_is_capped(body: Seq<char>)
    ensures
        vstd::utf8::encode_utf8(text::clipped(body, README_MAX_BYTES as nat)).len() <= README_MAX_BYTES,
        text::clipped(body, README_MAX_BYTES as nat) == body.take(
            text::clipped(body, README_MAX_BYTES as nat).len() as int,
        ),
{
    text::clipped_fits(body, README_MAX_BYTES as nat);
}

/// The stars of a user are asked for under the name of the user, one's own without a
/// name, a hundred to the page.
pub proof fn stars_are_asked_for_by_user(base: Seq<char>, user: Seq<char>, other: Seq<char>)
    ensures
        text::begins_with(base + "/users/"@ + user + "/starred"@, starred_url(base, Some(user))),
        text::begins_with(base + "/user/starred"@, starred_url(base, None)),
        starred_url(base, Some(user)) == starred_url(base, Some(other)) ==> user == other,
        text::occurs_in("per_page=100"@, starred_url(base, Some(user))),
        text::occurs_in("per_page=100"@, starred_url(base, None)),
{
    reveal_strlit("/starred?per_page=100");
    reveal_strlit("/user/starred?per_page=100");
    reveal_strlit("/starred");
    reveal_strlit("/user/starred");
    reveal_strlit("per_page=100");
    let own = "/user/starred?per_page=100"@;
    let tail = "/starred?per_page=100"@;
    let none = Seq::<char>::empty();
    assert(tail =~= "/starred"@ + seq!['?'] + "per_page=100"@);
    assert(own =~= "/user/starred"@ + seq!['?'] + "per_page=100"@);
    let head = base + "/users/"@ + user;
    let rest = seq!['?'] + "per_page=100"@;
    assert(starred_url(base, Some(user)) =~= (head + "/starred"@) + rest);
    text::prefix_and_rest(head + "/starred"@, none, rest);
    assert(starred_url(base, None) =~= (base + "/user/starred"@) + rest);
    text::prefix_and_rest(base + "/user/starred"@, none, rest);
    text::occurs_between(head + "/starred"@ + seq!['?'], "per_page=100"@, none);
    assert(starred_url(base, Some(user)) =~= head + "/starred"@ + seq!['?'] + "per_page=100"@ + none);
    text::occurs_between(base + "/user/starred"@ + seq!['?'], "per_page=100"@, none);
    assert(starred_url(base, None) =~= base + "/user/starred"@ + seq!['?'] + "per_page=100"@ + none);
    if starred_url(base, Some(user)) == starred_url(base, Some(other)) {
        let from = (base + "/users/"@).len() as int;
        let a = starred_url(base, Some(user));
        assert(user.len() == other.len());
        assert(a.subrange(from, from + user.len()) =~= user);
        assert(a.subrange(from, from + user.len()) =~= other);
    }
}

/// A README is asked for under the owner and the name of its repository.
pub proof fn readme_is_asked_for_by_name(base: Seq<char>, owner: Seq<char>, name: Seq<char>)
    ensures
        text::begins_with(base + "/repos/"@ + owner + "/"@ + name + "/"@, readme_url(base, owner, name)),
        readme_url(base, owner, name).skip(
            (base + "/repos/"@ + owner + "/"@ + name + "/"@).len() as int,
        ) == "readme"@,
{
    reveal_strlit("/readme");
    reveal_strlit("readme");
    reveal_strlit("/");
    assert("/readme"@ =~= "/"@ + "readme"@);
    let head = base + "/repos/"@ + owner + "/"@ + name + "/"@;
    let url = readme_url(base, owner, name);
    assert(url =~= head + "readme"@);
    text::prefix_and_rest(head, url, "readme"@);
    assert(url.skip(head.len() as int) =~= "readme"@);
}

/// A request goes where it is sent and carries the token, the media types and the
/// version of the API.
pub proof fn request_carries_the_token(r: Request, url: Seq<char>, token: Seq<char>, accept: Seq<char>)
    requires
        request_for(r, url, token, accept),
    ensures
        r.url@ == url,
        r.authorization@ == "Bearer "@ + token,
        r.accept@ == accept,
        r.api_version@ == "2022-11-28"@,
{
}

/// Stars are asked for with the time of starring, which is why an item can be
/// wrapped; a README as it is.
pub proof fn media_types_say_what_is_read()
    ensures
        text::begins_with("application/vnd.github.star+json"@, star_media()),
        raw_media() == "application/vnd.github.raw"@,
{
    reveal_strlit("application/vnd.github.star+json");
    reveal_strlit("application/vnd.github.star+json, application/vnd.github+json");
    let s = star_media();
    let p = "application/vnd.github.star+json"@;
    assert(s.subrange(0, p.len() as int) =~= p);
}

/// Of a README that is too long the longest beginning is kept that fits into 64 KiB.
pub proof fn readme_keeps_what_fits(body: Seq<char>, n: int)
    requires
        0 <= n <= body.len(),
        vstd::utf8::encode_utf8(body.take(n)).len() <= 65536,
    ensures
        n <= text::clipped(body, README_MAX_BYTES as nat).len(),
        vstd::utf8::encode_utf8(text::clipped(body, README_MAX_BYTES as nat)).len() <= 65536,
        n == body.len() ==> text::clipped(body, README_MAX_BYTES as nat) == body,
{
    text::clipped_is_longest(body, README_MAX_BYTES as nat, n);
    text::clipped_fits(body, README_MAX_BYTES as nat);
    assert(body.take(body.len() as int) =~= body);
}

} // verus!

//! Repositories as they are stored and searched.

use crate::json::Json;
use crate::json::JsonView;
use crate::json;
use crate::text;
use vstd::prelude::*;

verus! {

// ---------------------------------------------------------------------------
// What is taken from chrono
// ---------------------------------------------------------------------------
/// The instant that an RFC 3339 text names, as the RFC 3339 text of that
/// instant in UTC; nothing where the text is no RFC 3339 date and time.
pub uninterp spec fn utc_time(s: Seq<char>) -> Option<Seq<char>>;

/// `chrono::DateTime::parse_from_rfc3339` reads a date and time. It is handed
/// on as the text that `to_rfc3339_opts` writes for the same instant in UTC,
/// with as many fractional digits as it needs and `Z` for the zone. The text is
/// only named.
#[verifier::external_body]
fn read_time(s: &str) -> (time: Option<String>)
    ensures
        text::opt_text(time) == utc_time(s@),
{
    chrono::DateTime::parse_from_rfc3339(s).ok().map(
        |d| d.with_timezone(&chrono::Utc).to_rfc3339_opts(chrono::SecondsFormat::AutoSi, true),
    )
}

/// `chrono::Utc::now` reads the clock. What `to_rfc3339_opts` writes for that
/// instant is handed on. Of every instant it writes the date, the letter `T`, the
/// time of day and `Z` for the zone; which instant it is, is left open.
#[verifier::external_body]
fn now() -> (time: String)
    ensures
        utc_stamp(time@),
{
    chrono::Utc::now().to_rfc3339_opts(chrono::SecondsFormat::AutoSi, true)
}

/// Whether a text has the marks of a UTC date and time: a `T` between the date and
/// the time, and a `Z` at the end.
pub open spec fn utc_stamp(s: Seq<char>) -> bool {
    s.contains('T') && s.last() == 'Z'
}

// ---------------------------------------------------------------------------
// Repositories
// ---------------------------------------------------------------------------
/// Cap README text so a few oversized files can't blow up the store or the
/// query cache. 64 KiB is enough to capture the "what is this repo" lead and
/// the headings of nearly every README on GitHub.
pub const README_MAX_BYTES: usize = 65536;

/// A GitHub repository as we store and search it.
///
/// Fields follow the GitHub REST API `repository` object shape, trimmed down
/// to the pieces we actually use. All timestamps are RFC 3339 texts in UTC.
#[derive(Debug, Clone, PartialEq)]
pub struct Repo {
    pub full_name: String,
    pub owner: String,
    pub name: String,
    pub description: Option<String>,
    pub url: String,
    pub language: Option<String>,
    pub stargazers_count: u64,
    pub forks_count: u64,
    pub open_issues_count: u64,
    pub topics: Vec<String>,
    pub default_branch: Option<String>,
    pub license: Option<String>,
    pub archived: bool,
    pub fork: bool,
    pub pushed_at: Option<String>,
    pub created_at: Option<String>,
    pub updated_at: Option<String>,
    pub starred_at: Option<String>,
    pub cached_at: String,
    /// README text (no longer than `README_MAX_BYTES`), fetched on demand.
    /// `None` means "not yet fetched"; `Some("")` means "fetched but empty".
    pub readme: Option<String>,
    pub readme_fetched_at: Option<String>,
}

/// Why an item of the GitHub response is no repository.
#[derive(Debug, Clone, Copy, PartialEq, Eq, Structural)]
pub enum RepoError {
    /// `full_name` is missing or no string.
    FullName,
    /// `name` is missing or no string.
    Name,
}

impl RepoError {
    /// The message for the user.
    pub fn message(self) -> (s: &'static str)
        ensures
            s@ == (match self {
                RepoError::FullName => "missing or non-string `full_name`"@,
                RepoError::Name => "missing or non-string `name`"@,
            }),
    {
        match self {
            RepoError::FullName => "missing or non-string `full_name`",
            RepoError::Name => "missing or non-string `name`",
        }
    }
}

/// The repository object in an item of the response: what stands under `repo`,
/// or the item itself where nothing does.
pub open spec fn api_object(v: JsonView) -> JsonView {
    match v.get("repo"@) {
        Some(o) => o,
        None => v,
    }
}

/// The instant under a key of an object.
pub open spec fn time_at(o: JsonView, key: Seq<char>) -> Option<Seq<char>> {
    match o.str_at(key) {
        Some(s) => utc_time(s),
        None => None,
    }
}

/// When the item of the response says that it was starred.
pub open spec fn api_starred_at(v: JsonView) -> Option<Seq<char>> {
    match v.get("repo"@) {
        Some(_) => time_at(v, "starred_at"@),
        None => None,
    }
}

/// The text under `inner` of the object under `outer`.
pub open spec fn nested_str_at(o: JsonView, outer: Seq<char>, inner: Seq<char>) -> Option<Seq<char>> {
    match o.get(outer) {
        Some(v) => v.str_at(inner),
        None => None,
    }
}

/// The login of the owner, or what stands before the slash of the full name.
pub open spec fn api_owner(o: JsonView, full_name: Seq<char>) -> Seq<char> {
    match nested_str_at(o, "owner"@, "login"@) {
        Some(login) => login,
        None => full_name.take(text::position(full_name, '/') as int),
    }
}

/// The strings among the items of an array.
pub open spec fn strings_among(items: Seq<JsonView>) -> Seq<Seq<char>>
    decreases items.len(),
{
    if items.len() == 0 {
        Seq::empty()
    } else {
        let rest = strings_among(items.drop_last());
        match items.last().as_str() {
            Some(s) => rest.push(s),
            None => rest,
        }
    }
}

/// The strings in the array under a key of an object.
pub open spec fn strings_at(o: JsonView, key: Seq<char>) -> Seq<Seq<char>> {
    match o.get(key) {
        Some(v) => match v.as_array() {
            Some(items) => strings_among(items),
            None => Seq::empty(),
        },
        None => Seq::empty(),
    }
}

/// The number under a key of an object; zero where there is none.
pub open spec fn count_at(o: JsonView, key: Seq<char>) -> u64 {
    match o.u64_at(key) {
        Some(n) => n,
        None => 0,
    }
}

/// The truth value under a key of an object; false where there is none.
pub open spec fn flag_at(o: JsonView, key: Seq<char>) -> bool {
    match o.bool_at(key) {
        Some(b) => b,
        None => false,
    }
}

/// What is wrong with an item of the response, if anything is.
pub open spec fn api_error(v: JsonView) -> Option<RepoError> {
    let o = api_object(v);
    if o.str_at("full_name"@) is None {
        Some(RepoError::FullName)
    } else if o.str_at("name"@) is None {
        Some(RepoError::Name)
    } else {
        None
    }
}

/// Whether `r` is the repository that the item `v` describes, cached at `at`.
pub open spec fn described_by(r: Repo, v: JsonView, at: Seq<char>) -> bool {
    let o = api_object(v);
    &&& o.str_at("full_name"@) == Some(r.full_name@)
    &&& o.str_at("name"@) == Some(r.name@)
    &&& r.owner@ == api_owner(o, r.full_name@)
    &&& text::opt_text(r.description) == o.str_at("description"@)
    &&& r.url@ == text::text_or_empty(o.str_at("html_url"@))
    &&& text::opt_text(r.language) == o.str_at("language"@)
    &&& r.stargazers_count == count_at(o, "stargazers_count"@)
    &&& r.forks_count == count_at(o, "forks_count"@)
    &&& r.open_issues_count == count_at(o, "open_issues_count"@)
    &&& text::texts(r.topics@) == strings_at(o, "topics"@)
    &&& text::opt_text(r.default_branch) == o.str_at("default_branch"@)
    &&& text::opt_text(r.license) == nested_str_at(o, "license"@, "spdx_id"@)
    &&& r.archived == flag_at(o, "archived"@)
    &&& r.fork == flag_at(o, "fork"@)
    &&& text::opt_text(r.pushed_at) == time_at(o, "pushed_at"@)
    &&& text::opt_text(r.created_at) == time_at(o, "created_at"@)
    &&& text::opt_text(r.updated_at) == time_at(o, "updated_at"@)
    &&& text::opt_text(r.starred_at) == api_starred_at(v)
    &&& r.cached_at@ == at
    &&& r.readme is None
    &&& r.readme_fetched_at is None
}

impl Repo {
    /// Parse a single item from the GitHub `/user/starred` response.
    ///
    /// The API can return two shapes depending on the `Accept` header:
    ///   - plain repository object
    ///   - `{starred_at, repo: {…}}` wrapper (star-preview media type)
    ///
    /// Both are handled here. Missing optional fields collapse to `None`. The
    /// time of caching is read from the clock.
    pub fn from_api(v: &Json) -> (r: Result<Repo, RepoError>)
        ensures
            match r {
                Ok(repo) => api_error(v@) is None && described_by(repo, v@, repo.cached_at@) && utc_stamp(repo.cached_at@),
                Err(e) => api_error(v@) == Some(e),
            },
    {
        Repo::from_api_at(v, now())
    }

    /// [`Repo::from_api`] with the time of caching given.
    pub fn from_api_at(v: &Json, at: String) -> (r: Result<Repo, RepoError>)
        ensures
            match r {
                Ok(repo) => api_error(v@) is None && described_by(repo, v@, at@),
                Err(e) => api_error(v@) == Some(e),
            },
    {
        let (o, starred_at) = match v.get("repo") {
            Some(inner) => (inner, time_under(v, "starred_at")),
            None => (v, None),
        };
        let full_name = match o.str_at("full_name") {
            Some(s) => s.to_owned(),
            None => {
                return Err(RepoError::FullName);
            },
        };
        let owner = match nested_string(o, "owner", "login") {
            Some(login) => login,
            None => text::before(full_name.as_str(), '/'),
        };
        let name = match o.str_at("name") {
            Some(s) => s.to_owned(),
            None => {
                return Err(RepoError::Name);
            },
        };
        let url = match string_under(o, "html_url") {
            Some(s) => s,
            None => String::new(),
        };
        Ok(
            Repo {
                full_name,
                owner,
                name,
                description: string_under(o, "description"),
                url,
                language: string_under(o, "language"),
                stargazers_count: count_under(o, "stargazers_count"),
                forks_count: count_under(o, "forks_count"),
                open_issues_count: count_under(o, "open_issues_count"),
                topics: strings_under(o, "topics"),
                default_branch: string_under(o, "default_branch"),
                license: nested_string(o, "license", "spdx_id"),
                archived: flag_under(o, "archived"),
                fork: flag_under(o, "fork"),
                pushed_at: time_under(o, "pushed_at"),
                created_at: time_under(o, "created_at"),
                updated_at: time_under(o, "updated_at"),
                starred_at,
                cached_at: at,
                readme: None,
                readme_fetched_at: None,
            },
        )
    }
}

/// The JSON record of a repository: one field for each of its fields.
pub open spec fn record(r: Repo) -> JsonView {
    JsonView::object()
        .with("full_name"@, JsonView::Str(r.full_name@))
        .with("owner"@, JsonView::Str(r.owner@))
        .with("name"@, JsonView::Str(r.name@))
        .with("description"@, JsonView::opt_str(text::opt_text(r.description)))
        .with("url"@, JsonView::Str(r.url@))
        .with("language"@, JsonView::opt_str(text::opt_text(r.language)))
        .with("stargazers_count"@, JsonView::Unsigned(r.stargazers_count))
        .with("forks_count"@, JsonView::Unsigned(r.forks_count))
        .with("open_issues_count"@, JsonView::Unsigned(r.open_issues_count))
        .with("topics"@, JsonView::strs(text::texts(r.topics@)))
        .with("default_branch"@, JsonView::opt_str(text::opt_text(r.default_branch)))
        .with("license"@, JsonView::opt_str(text::opt_text(r.license)))
        .with("archived"@, JsonView::Bool(r.archived))
        .with("fork"@, JsonView::Bool(r.fork))
        .with("pushed_at"@, JsonView::opt_str(text::opt_text(r.pushed_at)))
        .with("created_at"@, JsonView::opt_str(text::opt_text(r.created_at)))
        .with("updated_at"@, JsonView::opt_str(text::opt_text(r.updated_at)))
        .with("starred_at"@, JsonView::opt_str(text::opt_text(r.starred_at)))
        .with("cached_at"@, JsonView::Str(r.cached_at@))
        .with("readme"@, JsonView::opt_str(text::opt_text(r.readme)))
        .with("readme_fetched_at"@, JsonView::opt_str(text::opt_text(r.readme_fetched_at)))
}

impl Repo {
    /// The JSON record of the repository.
    pub fn to_json(&self) -> (j: Json)
        ensures
            j@ == record(*self),
    {
        Json::object()
            .with("full_name", Json::text(self.full_name.as_str()))
            .with("owner", Json::text(self.owner.as_str()))
            .with("name", Json::text(self.name.as_str()))
            .with("description", Json::opt_text(&self.description))
            .with("url", Json::text(self.url.as_str()))
            .with("language", Json::opt_text(&self.language))
            .with("stargazers_count", Json::Unsigned(self.stargazers_count))
            .with("forks_count", Json::Unsigned(self.forks_count))
            .with("open_issues_count", Json::Unsigned(self.open_issues_count))
            .with("topics", Json::texts(&self.topics))
            .with("default_branch", Json::opt_text(&self.default_branch))
            .with("license", Json::opt_text(&self.license))
            .with("archived", Json::Bool(self.archived))
            .with("fork", Json::Bool(self.fork))
            .with("pushed_at", Json::opt_text(&self.pushed_at))
            .with("created_at", Json::opt_text(&self.created_at))
            .with("updated_at", Json::opt_text(&self.updated_at))
            .with("starred_at", Json::opt_text(&self.starred_at))
            .with("cached_at", Json::text(self.cached_at.as_str()))
            .with("readme", Json::opt_text(&self.readme))
            .with("readme_fetched_at", Json::opt_text(&self.readme_fetched_at))
    }

    /// The repository with the README that was fetched just now; as it was
    /// where fetching failed. The time of fetching is read from the clock.
    pub fn with_readme(self, fetched: Option<String>) -> (r: Repo)
        ensures
            fetched is Some ==> r.readme_fetched_at is Some && utc_stamp(r.readme_fetched_at->0@),
            r == (match fetched {
                Some(body) => (Repo { readme: Some(body), readme_fetched_at: r.readme_fetched_at, ..self }),
                None => self,
            }),
    {
        self.with_readme_at(fetched, now())
    }

    /// [`Repo::with_readme`] with the time of fetching given.
    pub fn with_readme_at(self, fetched: Option<String>, at: String) -> (r: Repo)
        ensures
            fetched is Some ==> r.readme == fetched && r.readme_fetched_at == Some(at),
            fetched is None ==> r == self,
            (Repo { readme: self.readme, readme_fetched_at: self.readme_fetched_at, ..r }) == self,
            r == (match fetched {
                Some(body) => (Repo { readme: Some(body), readme_fetched_at: Some(at), ..self }),
                None => self,
            }),
    {
        match fetched {
            Some(body) => Repo { readme: Some(body), readme_fetched_at: Some(at), ..self },
            None => self,
        }
    }

    /// Whether the README is to be fetched: it was not yet, or `force` is set.
    pub fn needs_readme(&self, force: bool) -> (yes: bool)
        ensures
            yes == (force || self.readme is None),
            force ==> yes,
            !force ==> (yes <==> !(self.readme is Some)),
    {
        force || self.readme.is_none()
    }
}

// ---------------------------------------------------------------------------
// What holds of every item of the response
// ---------------------------------------------------------------------------
/// The two shapes of an item say the same, but that the wrapped one also says
/// when it was starred: if `wrapped` holds `plain` under `repo`, both are
/// refused for the same reason or describe the same repository.
pub proof fn both_shapes_agree(plain: JsonView, wrapped: JsonView, r: Repo, at: Seq<char>)
    requires
        plain.get("repo"@) is None,
        wrapped.get("repo"@) == Some(plain),
    ensures
        api_error(wrapped) == api_error(plain),
        described_by(r, wrapped, at) ==> described_by(Repo { starred_at: None, ..r }, plain, at),
        described_by(r, plain, at) ==> forall|starred: Option<String>|
            text::opt_text(starred) == time_at(wrapped, "starred_at"@) ==> #[trigger] described_by(
                Repo { starred_at: starred, ..r },
                wrapped,
                at,
            ),
{
}

/// An item describes one repository: whatever is described by the same item at
/// the same time has the same record.
pub proof fn item_describes_one(r: Repo, r2: Repo, v: JsonView, at: Seq<char>)
    requires
        described_by(r, v, at),
        described_by(r2, v, at),
    ensures
        record(r) == record(r2),
{
}

/// What an item of the response says is what the repository holds, field by field
/// under the names that GitHub gives them, whatever else the item holds: a text, a
/// number or a truth value as it stands, and nothing, zero or false where the field
/// is missing or of another kind. The fields are those of the object under `repo`,
/// where there is one.
pub proof fn item_is_read_field_by_field(r: Repo, v: JsonView, at: Seq<char>)
    requires
        described_by(r, v, at),
    ensures
        ({
            let o = match v.get("repo"@) {
                Some(inner) => inner,
                None => v,
            };
            &&& o.get("full_name"@) == Some(JsonView::Str(r.full_name@))
            &&& o.get("name"@) == Some(JsonView::Str(r.name@))
            &&& r.url@ == match o.get("html_url"@) {
                Some(JsonView::Str(s)) => s,
                _ => Seq::empty(),
            }
            &&& r.description matches Some(s) ==> o.get("description"@) == Some(JsonView::Str(s@))
            &&& r.description is None ==> !(o.get("description"@) matches Some(JsonView::Str(_)))
            &&& r.language matches Some(s) ==> o.get("language"@) == Some(JsonView::Str(s@))
            &&& r.language is None ==> !(o.get("language"@) matches Some(JsonView::Str(_)))
            &&& r.default_branch matches Some(s) ==> o.get("default_branch"@) == Some(JsonView::Str(s@))
            &&& r.default_branch is None ==> !(o.get("default_branch"@) matches Some(JsonView::Str(_)))
            &&& r.stargazers_count == match o.get("stargazers_count"@) {
                Some(JsonView::Unsigned(n)) => n,
                _ => 0,
            }
            &&& r.forks_count == match o.get("forks_count"@) {
                Some(JsonView::Unsigned(n)) => n,
                _ => 0,
            }
            &&& r.open_issues_count == match o.get("open_issues_count"@) {
                Some(JsonView::Unsigned(n)) => n,
                _ => 0,
            }
            &&& r.archived == (o.get("archived"@) == Some(JsonView::Bool(true)))
            &&& r.fork == (o.get("fork"@) == Some(JsonView::Bool(true)))
            &&& r.cached_at@ == at
            &&& r.readme is None
            &&& r.readme_fetched_at is None
        }),
{
}

/// The times of an item are the instants that its texts name: a text that names
/// none gives none. When it was starred is said beside the object under `repo`,
/// never inside of it.
pub proof fn item_times_are_read(r: Repo, v: JsonView, at: Seq<char>)
    requires
        described_by(r, v, at),
    ensures
        ({
            let o = match v.get("repo"@) {
                Some(inner) => inner,
                None => v,
            };
            &&& r.pushed_at matches Some(t) ==> exists|s: Seq<char>|
                o.get("pushed_at"@) == Some(JsonView::Str(s)) && #[trigger] utc_time(s) == Some(t@)
            &&& r.created_at matches Some(t) ==> exists|s: Seq<char>|
                o.get("created_at"@) == Some(JsonView::Str(s)) && #[trigger] utc_time(s) == Some(t@)
            &&& r.updated_at matches Some(t) ==> exists|s: Seq<char>|
                o.get("updated_at"@) == Some(JsonView::Str(s)) && #[trigger] utc_time(s) == Some(t@)
            &&& r.starred_at matches Some(t) ==> v.get("repo"@) is Some && exists|s: Seq<char>|
                v.get("starred_at"@) == Some(JsonView::Str(s)) && #[trigger] utc_time(s) == Some(t@)
            &&& r.pushed_at is None ==> forall|s: Seq<char>|
                o.get("pushed_at"@) == Some(JsonView::Str(s)) ==> (#[trigger] utc_time(s)) is None
            &&& r.created_at is None ==> forall|s: Seq<char>|
                o.get("created_at"@) == Some(JsonView::Str(s)) ==> (#[trigger] utc_time(s)) is None
            &&& r.updated_at is None ==> forall|s: Seq<char>|
                o.get("updated_at"@) == Some(JsonView::Str(s)) ==> (#[trigger] utc_time(s)) is None
            &&& r.starred_at is None && v.get("repo"@) is Some ==> forall|s: Seq<char>|
                v.get("starred_at"@) == Some(JsonView::Str(s)) ==> (#[trigger] utc_time(s)) is None
        }),
{
}

/// The owner of an item is the login in the object under `owner`; where there is
/// none, what stands in the full name before its first slash. The license is the
/// identifier in the object under `license`.
pub proof fn item_owner_and_license_are_read(r: Repo, v: JsonView, at: Seq<char>, login: Seq<char>, spdx: Seq<char>)
    requires
        described_by(r, v, at),
    ensures
        ({
            let o = match v.get("repo"@) {
                Some(inner) => inner,
                None => v,
            };
            let owner = match o.get("owner"@) {
                Some(x) => x.get("login"@),
                None => None,
            };
            let license = match o.get("license"@) {
                Some(x) => x.get("spdx_id"@),
                None => None,
            };
            &&& owner == Some(JsonView::Str(login)) ==> r.owner@ == login
            &&& !(owner matches Some(JsonView::Str(_))) ==> {
                &&& !r.owner@.contains('/')
                &&& r.owner@ == r.full_name@ || text::begins_with(r.owner@.push('/'), r.full_name@)
            }
            &&& license == Some(JsonView::Str(spdx)) ==> r.license is Some && r.license->0@ == spdx
            &&& !(license matches Some(JsonView::Str(_))) ==> r.license is None
        }),
{
    let name = r.full_name@;
    let at = text::position(name, '/') as int;
    text::position_is_first(name, '/');
    let head = name.take(at);
    assert(!head.contains('/')) by {
        if head.contains('/') {
            let i = choose|i: int| 0 <= i < head.len() && head[i] == '/';
            assert(name[i] == '/');
        }
    }
    if at < name.len() {
        assert(name.subrange(0, at + 1) =~= head.push('/'));
    } else {
        assert(head =~= name);
    }
}

/// The topics of an item are the texts in its array of topics, in their order;
/// items of another kind among them are passed over, and what is no array holds
/// none.
pub proof fn item_topics_are_read(r: Repo, v: JsonView, at: Seq<char>, items: Seq<JsonView>)
    requires
        described_by(r, v, at),
    ensures
        ({
            let o = match v.get("repo"@) {
                Some(inner) => inner,
                None => v,
            };
            &&& !(o.get("topics"@) matches Some(JsonView::Array(_))) ==> r.topics@.len() == 0
            &&& o.get("topics"@) == Some(JsonView::Array(items)) && (forall|i: int|
                0 <= i < items.len() ==> (#[trigger] items[i]) is Str) ==> r.topics@.len() == items.len() && forall|i: int|
                0 <= i < items.len() ==> #[trigger] items[i] == JsonView::Str(r.topics@[i]@)
            &&& o.get("topics"@) == Some(JsonView::Array(items)) ==> text::texts(r.topics@) == strings_among(items)
        }),
{
    assert(text::texts(r.topics@).len() == r.topics@.len());
    if forall|i: int| 0 <= i < items.len() ==> (#[trigger] items[i]) is Str {
        lemma_all_strings(items);
        assert forall|i: int| 0 <= i < items.len() && text::texts(r.topics@) == strings_among(items) implies
            #[trigger] items[i] == JsonView::Str(r.topics@[i]@) by {
            assert(text::texts(r.topics@)[i] == r.topics@[i]@);
        }
    }
}

/// The texts among some items and some more are the texts among both, in their
/// order; an item counts if and only if it is a text.
pub proof fn strings_are_those_of_both(a: Seq<JsonView>, b: Seq<JsonView>, item: JsonView)
    ensures
        strings_among(a + b) == strings_among(a) + strings_among(b),
        item is Str ==> strings_among(seq![item]) == seq![item->Str_0],
        !(item is Str) ==> strings_among(seq![item]).len() == 0,
    decreases b.len(),
{
    assert(seq![item].drop_last() =~= Seq::<JsonView>::empty());
    assert(strings_among(Seq::<JsonView>::empty()) =~= Seq::<Seq<char>>::empty());
    if b.len() > 0 {
        strings_are_those_of_both(a, b.drop_last(), item);
        assert((a + b).drop_last() =~= a + b.drop_last());
        assert(strings_among(a + b) =~= strings_among(a) + strings_among(b));
    } else {
        assert(a + b =~= a);
        assert(strings_among(a + b) =~= strings_among(a) + strings_among(b));
    }
}

proof fn lemma_all_strings(items: Seq<JsonView>)
    requires
        forall|i: int| 0 <= i < items.len() ==> (#[trigger] items[i]) is Str,
    ensures
        strings_among(items).len() == items.len(),
        forall|i: int| 0 <= i < items.len() ==> #[trigger] items[i] == JsonView::Str(strings_among(items)[i]),
    decreases items.len(),
{
    if items.len() > 0 {
        let earlier = items.drop_last();
        assert forall|i: int| 0 <= i < earlier.len() implies (#[trigger] earlier[i]) is Str by {
            assert(earlier[i] == items[i]);
        }
        lemma_all_strings(earlier);
        assert(items[items.len() - 1] is Str);
        assert forall|i: int| 0 <= i < items.len() implies #[trigger] items[i] == JsonView::Str(strings_among(items)[i]) by {
            if i < earlier.len() {
                assert(earlier[i] == items[i]);
            }
        }
    }
}

/// An item is refused where its full name is missing or no text, else where its
/// name is, and for nothing else.
pub proof fn only_nameless_items_are_refused(v: JsonView)
    ensures
        ({
            let o = match v.get("repo"@) {
                Some(inner) => inner,
                None => v,
            };
            let full = o.get("full_name"@) matches Some(JsonView::Str(_));
            let short = o.get("name"@) matches Some(JsonView::Str(_));
            &&& api_error(v) == Some(RepoError::FullName) <==> !full
            &&& api_error(v) == Some(RepoError::Name) <==> full && !short
            &&& api_error(v) is None <==> full && short
        }),
{
}

/// A text, or `null` where there is none.
pub open spec fn text_or_null(s: Option<String>) -> JsonView {
    match s {
        Some(t) => JsonView::Str(t@),
        None => JsonView::Null,
    }
}

/// Under each key the record of a repository holds the field of that name.
pub proof fn record_holds_every_field(r: Repo)
    ensures
        record(r).get("full_name"@) == Some(JsonView::Str(r.full_name@)),
        record(r).get("owner"@) == Some(JsonView::Str(r.owner@)),
        record(r).get("name"@) == Some(JsonView::Str(r.name@)),
        record(r).get("description"@) == Some(text_or_null(r.description)),
        record(r).get("url"@) == Some(JsonView::Str(r.url@)),
        record(r).get("language"@) == Some(text_or_null(r.language)),
        record(r).get("stargazers_count"@) == Some(JsonView::Unsigned(r.stargazers_count)),
        record(r).get("forks_count"@) == Some(JsonView::Unsigned(r.forks_count)),
        record(r).get("open_issues_count"@) == Some(JsonView::Unsigned(r.open_issues_count)),
        record(r).get("topics"@) is Some && record(r).get("topics"@)->0 is Array,
        record(r).get("topics"@)->0->Array_0.len() == r.topics@.len(),
        forall|i: int| 0 <= i < r.topics@.len() ==> #[trigger] record(r).get("topics"@)->0->Array_0[i] == JsonView::Str(r.topics@[i]@),
        record(r).get("default_branch"@) == Some(text_or_null(r.default_branch)),
        record(r).get("license"@) == Some(text_or_null(r.license)),
        record(r).get("archived"@) == Some(JsonView::Bool(r.archived)),
        record(r).get("fork"@) == Some(JsonView::Bool(r.fork)),
        record(r).get("pushed_at"@) == Some(text_or_null(r.pushed_at)),
        record(r).get("created_at"@) == Some(text_or_null(r.created_at)),
        record(r).get("updated_at"@) == Some(text_or_null(r.updated_at)),
        record(r).get("starred_at"@) == Some(text_or_null(r.starred_at)),
        record(r).get("cached_at"@) == Some(JsonView::Str(r.cached_at@)),
        record(r).get("readme"@) == Some(text_or_null(r.readme)),
        record(r).get("readme_fetched_at"@) == Some(text_or_null(r.readme_fetched_at)),
{
    lemma_record_keys();
    assert(text::texts(r.topics@).len() == r.topics@.len());
    assert forall|i: int| 0 <= i < r.topics@.len() implies #[trigger] record(r).get("topics"@)->0->Array_0[i] == JsonView::Str(
        r.topics@[i]@,
    ) by {
        assert(text::texts(r.topics@)[i] == r.topics@[i]@);
    }
}

/// The keys of a record differ.
proof fn lemma_record_keys()
    ensures
        "full_name"@.len() == 9,
        "owner"@.len() == 5,
        "name"@.len() == 4,
        "description"@.len() == 11,
        "url"@.len() == 3,
        "language"@.len() == 8,
        "stargazers_count"@.len() == 16,
        "forks_count"@.len() == 11,
        "open_issues_count"@.len() == 17,
        "topics"@.len() == 6,
        "default_branch"@.len() == 14,
        "license"@.len() == 7,
        "archived"@.len() == 8,
        "fork"@.len() == 4,
        "pushed_at"@.len() == 9,
        "created_at"@.len() == 10,
        "updated_at"@.len() == 10,
        "starred_at"@.len() == 10,
        "cached_at"@.len() == 9,
        "readme"@.len() == 6,
        "readme_fetched_at"@.len() == 17,
        "full_name"@ != "pushed_at"@,
        "full_name"@ != "cached_at"@,
        "name"@ != "fork"@,
        "description"@ != "forks_count"@,
        "language"@ != "archived"@,
        "open_issues_count"@ != "readme_fetched_at"@,
        "topics"@ != "readme"@,
        "pushed_at"@ != "cached_at"@,
        "created_at"@ != "updated_at"@,
        "created_at"@ != "starred_at"@,
        "updated_at"@ != "starred_at"@,
{
    reveal_strlit("full_name");
    reveal_strlit("owner");
    reveal_strlit("name");
    reveal_strlit("description");
    reveal_strlit("url");
    reveal_strlit("language");
    reveal_strlit("stargazers_count");
    reveal_strlit("forks_count");
    reveal_strlit("open_issues_count");
    reveal_strlit("topics");
    reveal_strlit("default_branch");
    reveal_strlit("license");
    reveal_strlit("archived");
    reveal_strlit("fork");
    reveal_strlit("pushed_at");
    reveal_strlit("created_at");
    reveal_strlit("updated_at");
    reveal_strlit("starred_at");
    reveal_strlit("cached_at");
    reveal_strlit("readme");
    reveal_strlit("readme_fetched_at");
    assert("full_name"@[0] != "pushed_at"@[0]);
    assert("full_name"@[0] != "cached_at"@[0]);
    assert("name"@[0] != "fork"@[0]);
    assert("description"@[0] != "forks_count"@[0]);
    assert("language"@[0] != "archived"@[0]);
    assert("open_issues_count"@[0] != "readme_fetched_at"@[0]);
    assert("topics"@[0] != "readme"@[0]);
    assert("pushed_at"@[0] != "cached_at"@[0]);
    assert("created_at"@[0] != "updated_at"@[0]);
    assert("created_at"@[0] != "starred_at"@[0]);
    assert("updated_at"@[0] != "starred_at"@[0]);
}

/// A record reads back: two repositories with one record agree in every field.
pub proof fn record_reads_back(r: Repo, r2: Repo)
    requires
        record(r) == record(r2),
    ensures
        r.full_name@ == r2.full_name@,
        r.owner@ == r2.owner@,
        r.name@ == r2.name@,
        text::opt_text(r.description) == text::opt_text(r2.description),
        r.url@ == r2.url@,
        text::opt_text(r.language) == text::opt_text(r2.language),
        r.stargazers_count == r2.stargazers_count,
        r.forks_count == r2.forks_count,
        r.open_issues_count == r2.open_issues_count,
        text::texts(r.topics@) == text::texts(r2.topics@),
        text::opt_text(r.default_branch) == text::opt_text(r2.default_branch),
        text::opt_text(r.license) == text::opt_text(r2.license),
        r.archived == r2.archived,
        r.fork == r2.fork,
        text::opt_text(r.pushed_at) == text::opt_text(r2.pushed_at),
        text::opt_text(r.created_at) == text::opt_text(r2.created_at),
        text::opt_text(r.updated_at) == text::opt_text(r2.updated_at),
        text::opt_text(r.starred_at) == text::opt_text(r2.starred_at),
        r.cached_at@ == r2.cached_at@,
        text::opt_text(r.readme) == text::opt_text(r2.readme),
        text::opt_text(r.readme_fetched_at) == text::opt_text(r2.readme_fetched_at),
{
    record_holds_every_field(r);
    record_holds_every_field(r2);
    assert(text::texts(r.topics@) =~= text::texts(r2.topics@)) by {
        assert forall|i: int| 0 <= i < r.topics@.len() implies text::texts(r.topics@)[i] == text::texts(r2.topics@)[i] by {
            assert(record(r).get("topics"@)->0->Array_0[i] == JsonView::Str(r.topics@[i]@));
            assert(record(r2).get("topics"@)->0->Array_0[i] == JsonView::Str(r2.topics@[i]@));
        }
    }
}

/// The text under a key.
fn string_under(o: &Json, key: &str) -> (s: Option<String>)
    ensures
        text::opt_text(s) == o@.str_at(key@),
{
    match o.str_at(key) {
        Some(s) => Some(s.to_owned()),
        None => None,
    }
}

/// The text under a key of the object under another key.
fn nested_string(o: &Json, outer: &str, inner: &str) -> (s: Option<String>)
    ensures
        text::opt_text(s) == nested_str_at(o@, outer@, inner@),
{
    match o.get(outer) {
        Some(v) => string_under(v, inner),
        None => None,
    }
}

/// The number under a key; zero where there is none.
fn count_under(o: &Json, key: &str) -> (n: u64)
    ensures
        n == count_at(o@, key@),
{
    match o.u64_at(key) {
        Some(n) => n,
        None => 0,
    }
}

/// The truth value under a key; false where there is none.
fn flag_under(o: &Json, key: &str) -> (b: bool)
    ensures
        b == flag_at(o@, key@),
{
    match o.bool_at(key) {
        Some(b) => b,
        None => false,
    }
}

/// The instant under a key.
fn time_under(o: &Json, key: &str) -> (time: Option<String>)
    ensures
        text::opt_text(time) == time_at(o@, key@),
{
    match o.str_at(key) {
        Some(s) => read_time(s),
        None => None,
    }
}

/// The strings in the array under a key.
fn strings_under(o: &Json, key: &str) -> (strings: Vec<String>)
    ensures
        text::texts(strings@) == strings_at(o@, key@),
{
    let mut strings: Vec<String> = Vec::new();
    assert(text::texts(strings@) =~= Seq::<Seq<char>>::empty());
    if let Some(v) = o.get(key) {
        if let Some(items) = v.as_array() {
            let ghost all = json::items_view(items@);
            let mut i: usize = 0;
            assert(all.take(0) =~= Seq::<JsonView>::empty());
            while i < items.len()
                invariant
                    i <= items@.len(),
                    all == json::items_view(items@),
                    text::texts(strings@) == strings_among(all.take(i as int)),
                decreases items@.len() - i,
            {
                assert(all.take(i + 1).drop_last() =~= all.take(i as int));
                assert(all.take(i + 1).last() == items@[i as int]@);
                let ghost before = strings@;
                if let Some(s) = items[i].as_str() {
                    strings.push(s.to_owned());
                    assert(text::texts(strings@) =~= text::texts(before).push(s@));
                }
                i += 1;
            }
            assert(all.take(all.len() as int) =~= all);
        }
    }
    strings
}

} // verus!

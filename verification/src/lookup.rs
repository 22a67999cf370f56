//! What is asked of Open Library, one request after the other, and what the
//! answers come to.
use crate::cache;
use crate::calendar;
use crate::contact;
use crate::json::{self, Json, JsonView};
use crate::openlibrary_client::{
    self as client, SearchDoc, SearchDocView, WorkText, BROWSE_TTL_SECS, DEFAULT_API_BASE,
    MAX_AUTHORS, SEARCH_FIELDS, SEARCH_TTL_SECS, WORK_TTL_SECS,
};
use crate::send;
use crate::text;
use crate::types::{GatewayError, GatewayErrorView};
use vstd::prelude::*;

verus! {

// ---------------------------------------------------------------------------
// Requests
// ---------------------------------------------------------------------------
/// One GET: a path below the API base, and the query pairs.
#[derive(Debug)]
pub struct Request {
    pub path: String,
    pub params: Vec<(String, String)>,
}

/// A [`Request`] whose answer is kept under `key` for `ttl_secs` seconds.
#[derive(Debug)]
pub struct CachedRequest {
    pub key: String,
    pub ttl_secs: u64,
    pub request: Request,
}

/// What a [`Request`] asks.
#[verifier::ext_equal]
pub ghost struct RequestView {
    pub path: Seq<char>,
    pub params: Seq<(Seq<char>, Seq<char>)>,
}

/// What a [`CachedRequest`] asks.
#[verifier::ext_equal]
pub ghost struct CachedRequestView {
    pub key: Seq<char>,
    pub ttl_secs: u64,
    pub request: RequestView,
}

pub open spec fn pairs(params: Seq<(String, String)>) -> Seq<(Seq<char>, Seq<char>)> {
    params.map_values(|p: (String, String)| (p.0@, p.1@))
}

impl View for Request {
    type V = RequestView;

    open spec fn view(&self) -> RequestView {
        RequestView { path: self.path@, params: pairs(self.params@) }
    }
}

impl View for CachedRequest {
    type V = CachedRequestView;

    open spec fn view(&self) -> CachedRequestView {
        CachedRequestView { key: self.key@, ttl_secs: self.ttl_secs, request: self.request@ }
    }
}

/// What a request that may be absent asks.
pub open spec fn request_opt(r: Option<CachedRequest>) -> Option<CachedRequestView> {
    match r {
        Some(r) => Some(r@),
        None => None,
    }
}

/// `text` with single spaces between its words, in lower case.
pub open spec fn normalised(text: Seq<char>) -> Seq<char> {
    text::lowercase(text::joined(text::words(text), " "@))
}

/// The search for `text` whose answer is kept under its normalised form `under`.
pub open spec fn search_request(text: Seq<char>, limit: nat, under: Seq<char>) -> CachedRequestView {
    CachedRequestView {
        key: "openlibrary:search:"@ + text::decimal(limit) + ":"@ + under,
        ttl_secs: SEARCH_TTL_SECS,
        request: RequestView {
            path: "/search.json"@,
            params: seq![
                ("q"@, text::trimmed(text)),
                ("fields"@, SEARCH_FIELDS@),
                ("limit"@, text::decimal(limit)),
            ],
        },
    }
}

/// The works that were opened most today.
pub open spec fn trending_request(limit: nat) -> CachedRequestView {
    CachedRequestView {
        key: "openlibrary:trending:daily:"@ + text::decimal(limit),
        ttl_secs: BROWSE_TTL_SECS,
        request: RequestView {
            path: "/trending/daily.json"@,
            params: seq![("fields"@, SEARCH_FIELDS@), ("limit"@, text::decimal(limit))],
        },
    }
}

/// The works that were added last, of those first published in `year` or the year
/// before.
pub open spec fn fresh_request(year: nat, limit: nat) -> CachedRequestView {
    CachedRequestView {
        key: "openlibrary:fresh:"@ + text::decimal(year) + ":"@ + text::decimal(limit),
        ttl_secs: BROWSE_TTL_SECS,
        request: RequestView {
            path: "/search.json"@,
            params: seq![
                (
                    "q"@,
                    "first_publish_year:["@ + text::decimal((year - 1) as nat) + " TO "@
                        + text::decimal(year) + "]"@,
                ),
                ("sort"@, "new"@),
                ("fields"@, SEARCH_FIELDS@),
                ("limit"@, text::decimal(limit)),
            ],
        },
    }
}

/// The search for the work `id`.
pub open spec fn index_request(id: Seq<char>) -> CachedRequestView {
    CachedRequestView {
        key: "openlibrary:key:"@ + id,
        ttl_secs: WORK_TTL_SECS,
        request: RequestView {
            path: "/search.json"@,
            params: seq![
                ("q"@, "key:/works/"@ + id),
                ("fields"@, SEARCH_FIELDS@),
                ("limit"@, "1"@),
            ],
        },
    }
}

/// The work JSON of `id`.
pub open spec fn work_request(id: Seq<char>) -> CachedRequestView {
    CachedRequestView {
        key: "openlibrary:work:"@ + id,
        ttl_secs: WORK_TTL_SECS,
        request: RequestView { path: "/works/"@ + id + ".json"@, params: Seq::empty() },
    }
}

/// The author JSON of `id`.
pub open spec fn author_request(id: Seq<char>) -> CachedRequestView {
    CachedRequestView {
        key: "openlibrary:author:"@ + id,
        ttl_secs: WORK_TTL_SECS,
        request: RequestView { path: "/authors/"@ + id + ".json"@, params: Seq::empty() },
    }
}

/// The works that list the etext `gutenberg_id`. Two are asked for, so that the
/// answer shows whether there is exactly one.
pub open spec fn binding_request(gutenberg_id: u64) -> RequestView {
    RequestView {
        path: "/search.json"@,
        params: seq![
            ("q"@, "id_project_gutenberg:"@ + text::decimal(gutenberg_id as nat)),
            ("fields"@, "key,id_project_gutenberg"@),
            ("limit"@, "2"@),
        ],
    }
}

/// Where the link of the etext `gutenberg_id` is kept.
pub open spec fn binding_key_of(gutenberg_id: u64) -> Seq<char> {
    "openlibrary:gutenberg:"@ + text::decimal(gutenberg_id as nat)
}

fn pair(name: &str, value: &str) -> (r: (String, String))
    ensures
        r.0@ == name@,
        r.1@ == value@,
{
    (name.to_owned(), value.to_owned())
}

fn concat(a: &str, b: &str) -> (r: String)
    ensures
        r@ == a@ + b@,
{
    let mut s = a.to_owned();
    s.append(b);
    s
}

/// Where Open Library is reached, and as whom.
#[derive(Debug)]
pub struct OpenLibraryClient {
    pub api_base: String,
    pub user_agent: String,
}

impl OpenLibraryClient {
    /// A client of `api_base`, or of the public Open Library, for a contact.
    pub fn new(api_base: Option<String>, contact: Option<&str>) -> (r: Self)
        ensures
            r.api_base@ == match api_base {
                Some(b) => b@,
                None => DEFAULT_API_BASE@,
            },
            r.user_agent@ == contact::agent(text::str_opt(contact)),
    {
        let api_base = match api_base {
            Some(b) => b,
            None => DEFAULT_API_BASE.to_owned(),
        };
        OpenLibraryClient { api_base, user_agent: contact::user_agent(contact) }
    }

    /// The URL of `path`.
    pub fn url(&self, path: &str) -> (r: String)
        ensures
            r@ == text::without_trailing(self.api_base@, '/') + path@,
    {
        concat(text::trim_end_matches(self.api_base.as_str(), '/'), path)
    }

    /// The search for `text` whose answer is kept under `under`.
    pub fn search_under(&self, text: &str, limit: usize, under: &str) -> (r: CachedRequest)
        ensures
            r@ == search_request(text@, limit as nat, under@),
    {
        let limit = text::decimal_of(limit as u64);
        let mut key = "openlibrary:search:".to_owned();
        key.append(limit.as_str());
        key.append(":");
        key.append(under);
        let params = vec![
            pair("q", text::trim(text)),
            pair("fields", SEARCH_FIELDS),
            pair("limit", limit.as_str()),
        ];
        CachedRequest {
            key,
            ttl_secs: SEARCH_TTL_SECS,
            request: Request { path: "/search.json".to_owned(), params },
        }
    }

    /// Free-text search. Texts with the same words share an answer.
    pub fn search(&self, text: &str, limit: usize) -> (r: CachedRequest)
        ensures
            r@ == search_request(text@, limit as nat, normalised(text@)),
    {
        let words = text::split_words(text);
        let spaced = text::join(words.as_slice(), " ");
        let under = text::to_lowercase(spaced.as_str());
        self.search_under(text, limit, under.as_str())
    }

    /// The `popular` row: the works that were opened most today.
    pub fn trending(&self, limit: usize) -> (r: CachedRequest)
        ensures
            r@ == trending_request(limit as nat),
    {
        let limit = text::decimal_of(limit as u64);
        let params = vec![pair("fields", SEARCH_FIELDS), pair("limit", limit.as_str())];
        CachedRequest {
            key: concat("openlibrary:trending:daily:", limit.as_str()),
            ttl_secs: BROWSE_TTL_SECS,
            request: Request { path: "/trending/daily.json".to_owned(), params },
        }
    }

    /// The `fresh` row: recently added works that were first published this year or
    /// last, `now_secs` being the seconds since 1970.
    pub fn fresh(&self, now_secs: u64, limit: usize) -> (r: CachedRequest)
        ensures
            r@ == fresh_request(calendar::year_of(now_secs), limit as nat),
            calendar::in_year(now_secs, calendar::year_of(now_secs) as int),
    {
        let year: u64 = calendar::calendar_year(now_secs);
        let this = text::decimal_of(year);
        let last = text::decimal_of(year - 1);
        let limit = text::decimal_of(limit as u64);
        let mut key = "openlibrary:fresh:".to_owned();
        key.append(this.as_str());
        key.append(":");
        key.append(limit.as_str());
        let mut q = "first_publish_year:[".to_owned();
        q.append(last.as_str());
        q.append(" TO ");
        q.append(this.as_str());
        q.append("]");
        let params = vec![
            pair("q", q.as_str()),
            pair("sort", "new"),
            pair("fields", SEARCH_FIELDS),
            pair("limit", limit.as_str()),
        ];
        CachedRequest {
            key,
            ttl_secs: BROWSE_TTL_SECS,
            request: Request { path: "/search.json".to_owned(), params },
        }
    }

    /// The works that list the etext `gutenberg_id`.
    pub fn gutenberg_work(&self, gutenberg_id: u64) -> (r: Request)
        ensures
            r@ == binding_request(gutenberg_id),
    {
        let id = text::decimal_of(gutenberg_id);
        let q = concat("id_project_gutenberg:", id.as_str());
        let params = vec![
            pair("q", q.as_str()),
            pair("fields", "key,id_project_gutenberg"),
            pair("limit", "2"),
        ];
        Request { path: "/search.json".to_owned(), params }
    }

    /// Begins to resolve the work `id` to a document.
    pub fn doc_by_work_id(&self, id: &str) -> (r: DocLookup)
        ensures
            r@ == (DocLookupView::Index { id: id@ }),
    {
        DocLookup::Index { id: id.to_owned() }
    }

    /// Begins to look up the description of the work `id`.
    pub fn work_text(&self, id: &str) -> (r: WorkLookup)
        ensures
            r@ == (WorkLookupView { id: id@, redirected: false }),
    {
        WorkLookup { id: id.to_owned(), redirected: false }
    }
}

/// Where the link of the etext `gutenberg_id` is kept.
pub fn binding_key(gutenberg_id: u64) -> (r: String)
    ensures
        r@ == binding_key_of(gutenberg_id),
{
    let id = text::decimal_of(gutenberg_id);
    concat("openlibrary:gutenberg:", id.as_str())
}

/// The work of the etext `gutenberg_id`, as a reply gives it. A failure is reported.
pub open spec fn link_in(reply: Result<JsonView, GatewayErrorView>, gutenberg_id: u64) -> Result<
    Option<Seq<char>>,
    GatewayErrorView,
> {
    match reply {
        Ok(body) => Ok(client::binding_in(body, gutenberg_id)),
        Err(e) => Err(e),
    }
}

/// The work of the etext `gutenberg_id`, as the reply to
/// [`OpenLibraryClient::gutenberg_work`] gives it. A failure is reported.
pub fn binding_answer(reply: Result<Json, GatewayError>, gutenberg_id: u64) -> (r: Result<
    Option<String>,
    GatewayError,
>)
    ensures
        cache::link_view(r) == link_in(send::reply_view(reply), gutenberg_id),
{
    match reply {
        Ok(body) => Ok(client::single_gutenberg_work(&body, gutenberg_id)),
        Err(e) => Err(e),
    }
}

// ---------------------------------------------------------------------------
// Work JSON
// ---------------------------------------------------------------------------
/// The lookup of a work JSON: the id that is asked for next, and whether that is
/// already where another work redirected to.
///
/// A work that was merged away answers with a body of type `/type/redirect` that
/// names its new place. One such redirect is followed.
#[derive(Debug)]
pub struct WorkLookup {
    pub id: String,
    pub redirected: bool,
}

#[verifier::ext_equal]
pub ghost struct WorkLookupView {
    pub id: Seq<char>,
    pub redirected: bool,
}

impl View for WorkLookup {
    type V = WorkLookupView;

    open spec fn view(&self) -> WorkLookupView {
        WorkLookupView { id: self.id@, redirected: self.redirected }
    }
}

/// How a [`WorkLookup`] goes on.
#[derive(Debug)]
pub enum WorkStep {
    /// Ask on.
    Fetch(WorkLookup),
    /// The work JSON, and the id under which it is kept.
    Found { id: String, work: Json },
    /// There is no such work.
    Missing,
    /// The failure is reported.
    Failed(GatewayError),
}

pub ghost enum WorkStepView {
    Fetch(WorkLookupView),
    Found { id: Seq<char>, work: JsonView },
    Missing,
    Failed(GatewayErrorView),
}

impl View for WorkStep {
    type V = WorkStepView;

    open spec fn view(&self) -> WorkStepView {
        match self {
            WorkStep::Fetch(l) => WorkStepView::Fetch(l@),
            WorkStep::Found { id, work } => WorkStepView::Found { id: id@, work: work@ },
            WorkStep::Missing => WorkStepView::Missing,
            WorkStep::Failed(e) => WorkStepView::Failed(e@),
        }
    }
}

/// `body` says that the work was merged into another.
pub open spec fn is_redirect(body: JsonView) -> bool {
    json::text_of(json::member_of(body.member("type"@), "key"@)) == Some("/type/redirect"@)
}

/// The work that a redirect names.
pub open spec fn redirect_target(body: JsonView) -> Option<Seq<char>> {
    match json::text_of(body.member("location"@)) {
        Some(l) => client::work_of_path(l),
        None => None,
    }
}

/// How a work lookup goes on after a reply.
pub open spec fn work_next(
    lookup: WorkLookupView,
    reply: Result<JsonView, GatewayErrorView>,
) -> WorkStepView {
    match reply {
        Err(GatewayErrorView::NotFound) => WorkStepView::Missing,
        Err(e) => WorkStepView::Failed(e),
        Ok(body) => if !is_redirect(body) {
            WorkStepView::Found { id: lookup.id, work: body }
        } else if lookup.redirected {
            WorkStepView::Missing
        } else {
            match redirect_target(body) {
                Some(id) => WorkStepView::Fetch(WorkLookupView { id, redirected: true }),
                None => WorkStepView::Missing,
            }
        },
    }
}

fn redirects(body: &Json) -> (r: bool)
    ensures
        r == is_redirect(body@),
{
    let kind = match body.get("type") {
        Some(t) => json::text_member(t, "key"),
        None => None,
    };
    match kind {
        Some(k) => text::same(k, "/type/redirect"),
        None => false,
    }
}

fn target(body: &Json) -> (r: Option<String>)
    ensures
        text::text_opt(r) == redirect_target(body@),
{
    match json::text_member(body, "location") {
        Some(l) => match client::work_in_path(l) {
            Some(id) => Some(id.to_owned()),
            None => None,
        },
        None => None,
    }
}

impl WorkLookup {
    /// What is asked next.
    pub fn request(&self) -> (r: CachedRequest)
        ensures
            r@ == work_request(self.id@),
    {
        let mut path = "/works/".to_owned();
        path.append(self.id.as_str());
        path.append(".json");
        let params: Vec<(String, String)> = Vec::new();
        assert(pairs(params@) =~= Seq::empty());
        CachedRequest {
            key: concat("openlibrary:work:", self.id.as_str()),
            ttl_secs: WORK_TTL_SECS,
            request: Request { path, params },
        }
    }

    /// How the lookup goes on after `reply`.
    pub fn step(self, reply: Result<Json, GatewayError>) -> (r: WorkStep)
        ensures
            r@ == work_next(self@, send::reply_view(reply)),
    {
        match reply {
            Err(GatewayError::NotFound) => WorkStep::Missing,
            Err(e) => WorkStep::Failed(e),
            Ok(body) => {
                if !redirects(&body) {
                    return WorkStep::Found { id: self.id, work: body };
                }
                if self.redirected {
                    return WorkStep::Missing;
                }
                match target(&body) {
                    Some(id) => WorkStep::Fetch(WorkLookup { id, redirected: true }),
                    None => WorkStep::Missing,
                }
            },
        }
    }
}

/// The description that a work JSON gives.
pub open spec fn description_in(work: JsonView) -> Option<Seq<char>> {
    match client::plain_text(work.member("description"@)) {
        Some(d) => client::synopsis(d),
        None => None,
    }
}

/// What the work JSON `work`, kept under `id`, contributes to a card.
pub fn work_text_of(id: String, work: &Json) -> (r: WorkText)
    ensures
        r.id@ == id@,
        text::text_opt(r.description) == description_in(work@),
{
    let description = match client::text_value(work.get("description")) {
        Some(d) => client::clean_description(d.as_str()),
        None => None,
    };
    WorkText { id, description }
}

// ---------------------------------------------------------------------------
// A work as a document
// ---------------------------------------------------------------------------
/// The first of `docs` that is the work `id`.
pub open spec fn doc_of_work(docs: Seq<SearchDocView>, id: Seq<char>) -> Option<SearchDocView>
    decreases docs.len(),
{
    if docs.len() == 0 {
        None
    } else if docs[0].work_id() == Some(id) {
        Some(docs[0])
    } else {
        doc_of_work(docs.skip(1), id)
    }
}

/// The id of the author that an entry of a work's `authors` names.
pub open spec fn author_in(entry: JsonView) -> Option<Seq<char>> {
    match json::text_of(json::member_of(entry.member("author"@), "key"@)) {
        Some(k) => text::after_prefix(k, "/authors/"@),
        None => None,
    }
}

/// The authors that `entries` name, in order.
pub open spec fn authors_among(entries: Seq<JsonView>) -> Seq<Seq<char>>
    decreases entries.len(),
{
    if entries.len() == 0 {
        Seq::empty()
    } else {
        let init = authors_among(entries.drop_last());
        match author_in(entries.last()) {
            Some(a) => init.push(a),
            None => init,
        }
    }
}

/// The first authors of a work, at most [`MAX_AUTHORS`].
pub open spec fn author_ids(work: JsonView) -> Seq<Seq<char>> {
    let all = authors_among(json::items_of(work.member("authors"@)));
    if all.len() > MAX_AUTHORS {
        all.take(MAX_AUTHORS as int)
    } else {
        all
    }
}

/// The first positive number in `covers`.
pub open spec fn first_cover(covers: Seq<JsonView>) -> Option<i64>
    decreases covers.len(),
{
    if covers.len() == 0 {
        None
    } else if covers[0].signed() is Some && covers[0].signed()->0 > 0 {
        covers[0].signed()
    } else {
        first_cover(covers.skip(1))
    }
}

/// The document of a work that the search index does not hold. It has no year: the
/// date in a work JSON is often an edition's.
pub open spec fn doc_from(
    id: Seq<char>,
    work: JsonView,
    author_name: Seq<Seq<char>>,
) -> SearchDocView {
    SearchDocView {
        key: "/works/"@ + id,
        title: json::text_of(work.member("title"@)),
        author_name,
        cover_i: first_cover(json::items_of(work.member("covers"@))),
        first_publish_year: None,
        id_project_gutenberg: Seq::empty(),
    }
}

/// The name that an author JSON gives.
pub open spec fn name_in(author: JsonView) -> Option<Seq<char>> {
    match json::text_of(author.member("name"@)) {
        Some(n) => if text::is_blank(n) {
            None
        } else {
            Some(text::trimmed(n))
        },
        None => None,
    }
}

/// The lookup of a work as a document: in the search index first, then by its work
/// JSON and, one by one, its authors.
#[derive(Debug)]
pub enum DocLookup {
    Index { id: String },
    Work(WorkLookup),
    Author { id: String, work: Json, author: String, rest: Vec<String>, names: Vec<String> },
}

pub ghost enum DocLookupView {
    Index { id: Seq<char> },
    Work(WorkLookupView),
    Author {
        id: Seq<char>,
        work: JsonView,
        author: Seq<char>,
        rest: Seq<Seq<char>>,
        names: Seq<Seq<char>>,
    },
}

impl View for DocLookup {
    type V = DocLookupView;

    open spec fn view(&self) -> DocLookupView {
        match self {
            DocLookup::Index { id } => DocLookupView::Index { id: id@ },
            DocLookup::Work(l) => DocLookupView::Work(l@),
            DocLookup::Author { id, work, author, rest, names } => DocLookupView::Author {
                id: id@,
                work: work@,
                author: author@,
                rest: text::texts(rest@),
                names: text::texts(names@),
            },
        }
    }
}

/// How a [`DocLookup`] goes on.
#[derive(Debug)]
pub enum DocStep {
    /// Ask on.
    Fetch(DocLookup),
    /// The document, or that there is no such work.
    Done(Option<SearchDoc>),
    /// The failure is reported.
    Failed(GatewayError),
}

pub ghost enum DocStepView {
    Fetch(DocLookupView),
    Done(Option<SearchDocView>),
    Failed(GatewayErrorView),
}

impl View for DocStep {
    type V = DocStepView;

    open spec fn view(&self) -> DocStepView {
        match self {
            DocStep::Fetch(l) => DocStepView::Fetch(l@),
            DocStep::Done(d) => DocStepView::Done(client::doc_opt(*d)),
            DocStep::Failed(e) => DocStepView::Failed(e@),
        }
    }
}

/// Goes on with the authors `pending`, or ends where none is left.
pub open spec fn with_authors(
    id: Seq<char>,
    work: JsonView,
    pending: Seq<Seq<char>>,
    names: Seq<Seq<char>>,
) -> DocStepView {
    if pending.len() == 0 {
        DocStepView::Done(Some(doc_from(id, work, names)))
    } else {
        DocStepView::Fetch(
            DocLookupView::Author { id, work, author: pending[0], rest: pending.skip(1), names },
        )
    }
}

/// How a document lookup goes on after a reply.
pub open spec fn doc_next(
    lookup: DocLookupView,
    reply: Result<JsonView, GatewayErrorView>,
) -> DocStepView {
    match lookup {
        DocLookupView::Index { id } => match reply {
            Ok(body) => match doc_of_work(
                client::docs_among(json::items_of(body.member("docs"@))),
                id,
            ) {
                Some(d) => DocStepView::Done(Some(d)),
                None => DocStepView::Fetch(
                    DocLookupView::Work(WorkLookupView { id, redirected: false }),
                ),
            },
            Err(e) => DocStepView::Failed(e),
        },
        DocLookupView::Work(l) => match work_next(l, reply) {
            WorkStepView::Fetch(l) => DocStepView::Fetch(DocLookupView::Work(l)),
            WorkStepView::Found { id, work } => with_authors(
                id,
                work,
                author_ids(work),
                Seq::empty(),
            ),
            WorkStepView::Missing => DocStepView::Done(None),
            WorkStepView::Failed(e) => DocStepView::Failed(e),
        },
        DocLookupView::Author { id, work, author, rest, names } => with_authors(
            id,
            work,
            rest,
            match reply {
                Ok(body) => match name_in(body) {
                    Some(n) => names.push(n),
                    None => names,
                },
                Err(_) => names,
            },
        ),
    }
}

/// What a document lookup asks next.
pub open spec fn doc_request(lookup: DocLookupView) -> CachedRequestView {
    match lookup {
        DocLookupView::Index { id } => index_request(id),
        DocLookupView::Work(l) => work_request(l.id),
        DocLookupView::Author { author, .. } => author_request(author),
    }
}

fn find_work(docs: Vec<SearchDoc>, id: &str) -> (r: Option<SearchDoc>)
    ensures
        client::doc_opt(r) == doc_of_work(client::doc_views(docs@), id@),
{
    let ghost all = client::doc_views(docs@);
    let mut rest = docs;
    let mut left: usize = rest.len();
    let ghost mut gone: int = 0;
    assert(all.skip(0) == all);
    while left > 0
        invariant
            0 <= gone,
            left + gone == all.len(),
            rest@.len() == left,
            all == client::doc_views(docs@),
            client::doc_views(rest@) == all.skip(gone),
            doc_of_work(all, id@) == doc_of_work(all.skip(gone), id@),
        decreases left,
    {
        let doc = rest.remove(0);
        assert(all.skip(gone)[0] == doc@);
        let found = match doc.work_id() {
            Some(w) => text::same(w, id),
            None => false,
        };
        if found {
            return Some(doc);
        }
        assert(all.skip(gone).skip(1) == all.skip(gone + 1));
        assert(client::doc_views(rest@) =~= all.skip(gone + 1));
        proof {
            gone = gone + 1;
        }
        left -= 1;
    }
    None
}

fn author_of(entry: &Json) -> (r: Option<&str>)
    ensures
        text::str_opt(r) == author_in(entry@),
{
    let key = match entry.get("author") {
        Some(a) => json::text_member(a, "key"),
        None => None,
    };
    match key {
        Some(k) => text::strip_prefix(k, "/authors/"),
        None => None,
    }
}

fn author_list(work: &Json) -> (r: Vec<String>)
    ensures
        text::texts(r@) == author_ids(work@),
{
    let mut out: Vec<String> = Vec::new();
    let none: Vec<Json> = Vec::new();
    let entries = match work.get("authors") {
        Some(v) => match v.as_array() {
            Some(items) => items,
            None => &none,
        },
        None => &none,
    };
    let ghost all = json::views(entries@);
    assert(json::views(none@) =~= Seq::empty());
    assert(all == json::items_of(work@.member("authors"@)));
    let mut i: usize = 0;
    assert(text::texts(out@) =~= authors_among(all.take(0)));
    while i < entries.len()
        invariant
            i <= entries@.len(),
            all == json::views(entries@),
            text::texts(out@) == authors_among(all.take(i as int)),
        decreases entries@.len() - i,
    {
        assert(all.take(i + 1).drop_last() == all.take(i as int));
        assert(all.take(i + 1).last() == entries@[i as int]@);
        let ghost before = out@;
        if let Some(a) = author_of(&entries[i]) {
            out.push(a.to_owned());
            assert(text::texts(out@) =~= text::texts(before).push(a@));
        }
        i += 1;
    }
    assert(all.take(all.len() as int) == all);
    if out.len() > MAX_AUTHORS {
        out.truncate(MAX_AUTHORS);
    }
    assert(text::texts(out@) =~= author_ids(work@));
    out
}

fn cover_of(work: &Json) -> (r: Option<i64>)
    ensures
        r == first_cover(json::items_of(work@.member("covers"@))),
{
    let items = match work.get("covers") {
        Some(v) => match v.as_array() {
            Some(items) => items,
            None => {
                return None;
            },
        },
        None => {
            return None;
        },
    };
    let ghost all = json::views(items@);
    let mut i: usize = 0;
    assert(all.skip(0) == all);
    while i < items.len()
        invariant
            i <= items@.len(),
            all == json::views(items@),
            all == json::items_of(work@.member("covers"@)),
            first_cover(all) == first_cover(all.skip(i as int)),
        decreases items@.len() - i,
    {
        assert(all.skip(i as int)[0] == items@[i as int]@);
        assert(all.skip(i as int).skip(1) == all.skip(i + 1));
        if let Some(c) = items[i].as_i64() {
            if c > 0 {
                return Some(c);
            }
        }
        i += 1;
    }
    None
}

/// The document of a work that the search index does not hold.
pub fn doc_from_work(id: &str, work: &Json, author_name: Vec<String>) -> (r: SearchDoc)
    ensures
        r@ == doc_from(id@, work@, text::texts(author_name@)),
{
    let title = match json::text_member(work, "title") {
        Some(t) => Some(t.to_owned()),
        None => None,
    };
    let r = SearchDoc {
        key: concat("/works/", id),
        title,
        author_name,
        cover_i: cover_of(work),
        first_publish_year: None,
        id_project_gutenberg: Vec::new(),
    };
    assert(r@.id_project_gutenberg =~= Seq::empty());
    r
}

/// The name that an author JSON gives.
pub fn author_name(author: &Json) -> (r: Option<String>)
    ensures
        text::text_opt(r) == name_in(author@),
{
    match json::text_member(author, "name") {
        Some(n) => {
            let t = text::trim(n);
            if t.is_empty() {
                None
            } else {
                Some(t.to_owned())
            }
        },
        None => None,
    }
}

fn go_on(id: String, work: Json, pending: Vec<String>, names: Vec<String>) -> (r: DocStep)
    ensures
        r@ == with_authors(id@, work@, text::texts(pending@), text::texts(names@)),
{
    let mut rest = pending;
    if rest.len() == 0 {
        return DocStep::Done(Some(doc_from_work(id.as_str(), &work, names)));
    }
    let author = rest.remove(0);
    assert(text::texts(rest@) =~= text::texts(pending@).skip(1));
    DocStep::Fetch(DocLookup::Author { id, work, author, rest, names })
}

impl DocLookup {
    /// What is asked next.
    pub fn request(&self) -> (r: CachedRequest)
        ensures
            r@ == doc_request(self@),
    {
        match self {
            DocLookup::Index { id } => {
                let q = concat("key:/works/", id.as_str());
                let params = vec![
                    pair("q", q.as_str()),
                    pair("fields", SEARCH_FIELDS),
                    pair("limit", "1"),
                ];
                CachedRequest {
                    key: concat("openlibrary:key:", id.as_str()),
                    ttl_secs: WORK_TTL_SECS,
                    request: Request { path: "/search.json".to_owned(), params },
                }
            },
            DocLookup::Work(l) => l.request(),
            DocLookup::Author { author, .. } => {
                let mut path = "/authors/".to_owned();
                path.append(author.as_str());
                path.append(".json");
                let params: Vec<(String, String)> = Vec::new();
                assert(pairs(params@) =~= Seq::empty());
                CachedRequest {
                    key: concat("openlibrary:author:", author.as_str()),
                    ttl_secs: WORK_TTL_SECS,
                    request: Request { path, params },
                }
            },
        }
    }

    /// How the lookup goes on after `reply`. That an author is not found, or cannot
    /// be looked up, leaves the author out.
    pub fn step(self, reply: Result<Json, GatewayError>) -> (r: DocStep)
        ensures
            r@ == doc_next(self@, send::reply_view(reply)),
    {
        match self {
            DocLookup::Index { id } => match reply {
                Ok(body) => {
                    let docs = client::parse_docs(body.get("docs"));
                    match find_work(docs, id.as_str()) {
                        Some(d) => DocStep::Done(Some(d)),
                        None => DocStep::Fetch(
                            DocLookup::Work(WorkLookup { id, redirected: false }),
                        ),
                    }
                },
                Err(e) => DocStep::Failed(e),
            },
            DocLookup::Work(l) => match l.step(reply) {
                WorkStep::Fetch(l) => DocStep::Fetch(DocLookup::Work(l)),
                WorkStep::Found { id, work } => {
                    let authors = author_list(&work);
                    let names: Vec<String> = Vec::new();
                    assert(text::texts(names@) =~= Seq::empty());
                    go_on(id, work, authors, names)
                },
                WorkStep::Missing => DocStep::Done(None),
                WorkStep::Failed(e) => DocStep::Failed(e),
            },
            DocLookup::Author { id, work, author: _, rest, names } => {
                let mut names = names;
                if let Ok(body) = &reply {
                    if let Some(n) = author_name(body) {
                        let ghost before = names@;
                        names.push(n);
                        assert(text::texts(names@) =~= text::texts(before).push(n@));
                    }
                }
                go_on(id, work, rest, names)
            },
        }
    }
}

// ---------------------------------------------------------------------------
// Laws
// ---------------------------------------------------------------------------
/// How many requests a work lookup may still make.
pub open spec fn work_requests_left(lookup: WorkLookupView) -> nat {
    if lookup.redirected {
        1
    } else {
        2
    }
}

/// The ids that a work lookup asks for, where `replies` come back one by one.
pub open spec fn work_trace(
    lookup: WorkLookupView,
    replies: Seq<Result<JsonView, GatewayErrorView>>,
) -> Seq<Seq<char>>
    decreases replies.len(),
{
    seq![lookup.id] + if replies.len() == 0 {
        Seq::empty()
    } else {
        match work_next(lookup, replies[0]) {
            WorkStepView::Fetch(next) => work_trace(next, replies.skip(1)),
            _ => Seq::empty(),
        }
    }
}

/// At most one redirect is followed: a work lookup makes at most two requests,
/// whatever comes back, and the second is for the work that the first answer named.
pub proof fn law_one_redirect(id: Seq<char>, replies: Seq<Result<JsonView, GatewayErrorView>>)
    ensures
        ({
            let asked = work_trace(WorkLookupView { id, redirected: false }, replies);
            &&& 1 <= asked.len() <= 2
            &&& asked[0] == id
            &&& asked.len() == 2 ==> {
                &&& replies[0] is Ok
                &&& is_redirect(replies[0]->Ok_0)
                &&& redirect_target(replies[0]->Ok_0) == Some(asked[1])
                &&& client::names_work(asked[1])
            }
        }),
{
    let first = WorkLookupView { id, redirected: false };
    reveal_with_fuel(work_trace, 3);
    if replies.len() > 0 {
        match work_next(first, replies[0]) {
            WorkStepView::Fetch(next) => {
                let rest = replies.skip(1);
                assert(work_trace(next, rest) =~= seq![next.id]);
            },
            _ => {},
        }
    }
}

/// A work is found under the id that was asked for last, and only from an answer
/// that is no redirect.
pub proof fn law_found_where_asked(
    lookup: WorkLookupView,
    reply: Result<JsonView, GatewayErrorView>,
)
    ensures
        work_next(lookup, reply) matches WorkStepView::Found { id, work } ==> id == lookup.id
            && reply == Ok::<JsonView, GatewayErrorView>(work) && !is_redirect(work),
{
}

/// How many requests a document lookup may still make.
pub open spec fn doc_requests_left(lookup: DocLookupView) -> nat {
    match lookup {
        DocLookupView::Index { .. } => 3 + MAX_AUTHORS as nat,
        DocLookupView::Work(l) => work_requests_left(l) + MAX_AUTHORS as nat,
        DocLookupView::Author { rest, .. } => 1 + rest.len(),
    }
}

/// The requests that a document lookup makes, where `replies` come back one by one.
pub open spec fn doc_trace(
    lookup: DocLookupView,
    replies: Seq<Result<JsonView, GatewayErrorView>>,
) -> Seq<CachedRequestView>
    decreases replies.len(),
{
    seq![doc_request(lookup)] + if replies.len() == 0 {
        Seq::empty()
    } else {
        match doc_next(lookup, replies[0]) {
            DocStepView::Fetch(next) => doc_trace(next, replies.skip(1)),
            _ => Seq::empty(),
        }
    }
}

/// Each reply that does not end a document lookup uses up one of its requests.
pub proof fn law_doc_lookup_advances(
    lookup: DocLookupView,
    reply: Result<JsonView, GatewayErrorView>,
)
    ensures
        doc_next(lookup, reply) matches DocStepView::Fetch(next) ==> doc_requests_left(next)
            < doc_requests_left(lookup),
{
}

proof fn lemma_doc_trace(
    lookup: DocLookupView,
    replies: Seq<Result<JsonView, GatewayErrorView>>,
)
    ensures
        doc_trace(lookup, replies).len() <= doc_requests_left(lookup),
    decreases replies.len(),
{
    if replies.len() > 0 {
        law_doc_lookup_advances(lookup, replies[0]);
        match doc_next(lookup, replies[0]) {
            DocStepView::Fetch(next) => {
                lemma_doc_trace(next, replies.skip(1));
            },
            _ => {},
        }
    }
}

/// The lookup of a work makes a bounded number of requests, whatever comes back: one
/// to the search index, two for the work JSON, and one for each of at most
/// [`MAX_AUTHORS`] authors.
pub proof fn law_doc_lookup_is_bounded(
    id: Seq<char>,
    replies: Seq<Result<JsonView, GatewayErrorView>>,
)
    ensures
        doc_trace(DocLookupView::Index { id }, replies).len() <= 3 + MAX_AUTHORS,
        doc_trace(DocLookupView::Index { id }, replies)[0] == index_request(id),
{
    lemma_doc_trace(DocLookupView::Index { id }, replies);
}

/// A document that the search index gives for a work is that work's.
pub proof fn law_indexed_document_is_the_work(docs: Seq<SearchDocView>, id: Seq<char>)
    ensures
        doc_of_work(docs, id) matches Some(d) ==> d.work_id() == Some(id),
    decreases docs.len(),
{
    if docs.len() > 0 && docs[0].work_id() != Some(id) {
        law_indexed_document_is_the_work(docs.skip(1), id);
    }
}

/// A document made from a work JSON has no year, at most [`MAX_AUTHORS`] authors are
/// asked for, and its cover is a positive number.
pub proof fn law_document_from_work(id: Seq<char>, work: JsonView, author_name: Seq<Seq<char>>)
    ensures
        doc_from(id, work, author_name).first_publish_year is None,
        author_ids(work).len() <= MAX_AUTHORS,
        doc_from(id, work, author_name).cover_i matches Some(c) ==> c > 0,
        client::names_work(id) ==> doc_from(id, work, author_name).work_id() == Some(id),
{
    lemma_first_cover(json::items_of(work.member("covers"@)));
    let key = "/works/"@ + id;
    assert(key.take("/works/"@.len() as int) =~= "/works/"@);
    assert(key.skip("/works/"@.len() as int) =~= id);
}

proof fn lemma_first_cover(covers: Seq<JsonView>)
    ensures
        first_cover(covers) matches Some(c) ==> c > 0,
    decreases covers.len(),
{
    if covers.len() > 0 {
        lemma_first_cover(covers.skip(1));
    }
}

/// Every request for documents asks for the same fields, so that a card found by
/// search and the same card found by its id are the same.
pub proof fn law_documents_have_the_same_fields(
    text: Seq<char>,
    id: Seq<char>,
    limit: nat,
    under: Seq<char>,
    year: nat,
)
    ensures
        search_request(text, limit, under).request.params.contains(("fields"@, SEARCH_FIELDS@)),
        trending_request(limit).request.params.contains(("fields"@, SEARCH_FIELDS@)),
        fresh_request(year, limit).request.params.contains(("fields"@, SEARCH_FIELDS@)),
        index_request(id).request.params.contains(("fields"@, SEARCH_FIELDS@)),
{
    assert(search_request(text, limit, under).request.params[1] == ("fields"@, SEARCH_FIELDS@));
    assert(trending_request(limit).request.params[0] == ("fields"@, SEARCH_FIELDS@));
    assert(fresh_request(year, limit).request.params[2] == ("fields"@, SEARCH_FIELDS@));
    assert(index_request(id).request.params[1] == ("fields"@, SEARCH_FIELDS@));
}

/// Texts with the same words share an answer: however they are spaced, they have the
/// same normalised form, and the text with single spaces between its words is one of
/// them.
pub proof fn law_spacing_makes_no_difference(a: Seq<char>, b: Seq<char>, limit: nat)
    requires
        text::words(a) == text::words(b),
    ensures
        search_request(a, limit, normalised(a)).key == search_request(b, limit, normalised(b)).key,
        normalised(text::joined(text::words(a), " "@)) == normalised(a),
{
    text::law_words(a);
}

/// What each request asks, and of which place. A search asks for the text that was typed,
/// the fresh row for the years `year` and the one before it, a lookup for its own id, and
/// each for as many documents as it is told to.
pub proof fn law_what_is_asked(
    text: Seq<char>,
    under: Seq<char>,
    limit: nat,
    year: nat,
    id: Seq<char>,
    gutenberg_id: u64,
)
    requires
        year > 0,
    ensures
        ({
            let search = search_request(text, limit, under).request;
            let trending = trending_request(limit).request;
            let fresh = fresh_request(year, limit).request;
            let index = index_request(id).request;
            let link = binding_request(gutenberg_id);
            &&& search.path == "/search.json"@ && search.params.len() == 3
            &&& search.params.contains(("q"@, text::trimmed(text)))
            &&& search.params.contains(("limit"@, text::decimal(limit)))
            &&& trending.path == "/trending/daily.json"@ && trending.params.len() == 2
            &&& trending.params.contains(("limit"@, text::decimal(limit)))
            &&& fresh.path == "/search.json"@ && fresh.params.len() == 4
            &&& fresh.params.contains(
                (
                    "q"@,
                    "first_publish_year:["@ + text::decimal((year - 1) as nat) + " TO "@
                        + text::decimal(year) + "]"@,
                ),
            )
            &&& fresh.params.contains(("sort"@, "new"@))
            &&& fresh.params.contains(("limit"@, text::decimal(limit)))
            &&& index.path == "/search.json"@ && index.params.len() == 3
            &&& index.params.contains(("q"@, "key:/works/"@ + id))
            &&& index.params.contains(("limit"@, "1"@))
            &&& link.path == "/search.json"@ && link.params.len() == 3
            &&& link.params.contains(
                ("q"@, "id_project_gutenberg:"@ + text::decimal(gutenberg_id as nat)),
            )
            &&& link.params.contains(("fields"@, "key,id_project_gutenberg"@))
            &&& link.params.contains(("limit"@, "2"@))
            &&& work_request(id).request.path == "/works/"@ + id + ".json"@
            &&& work_request(id).request.params.len() == 0
            &&& author_request(id).request.path == "/authors/"@ + id + ".json"@
            &&& author_request(id).request.params.len() == 0
            &&& SEARCH_FIELDS@ == "key,title,author_name,cover_i,first_publish_year,language"@
        }),
{
    let search = search_request(text, limit, under).request.params;
    assert(search[0].0 == "q"@ && search[2].0 == "limit"@);
    let trending = trending_request(limit).request.params;
    assert(trending[1].0 == "limit"@);
    let fresh = fresh_request(year, limit).request.params;
    assert(fresh[0].0 == "q"@ && fresh[1].0 == "sort"@ && fresh[3].0 == "limit"@);
    let index = index_request(id).request.params;
    assert(index[0].0 == "q"@ && index[2].0 == "limit"@);
    let link = binding_request(gutenberg_id).params;
    assert(link[0].0 == "q"@ && link[1].0 == "fields"@ && link[2].0 == "limit"@);
}

/// How long answers are kept, in seconds: works, authors and single documents for thirty
/// days, a search for a day, a row for six hours.
pub proof fn law_how_long_answers_are_kept(
    text: Seq<char>,
    under: Seq<char>,
    limit: nat,
    year: nat,
    id: Seq<char>,
)
    ensures
        search_request(text, limit, under).ttl_secs == 86_400,
        trending_request(limit).ttl_secs == 21_600,
        fresh_request(year, limit).ttl_secs == 21_600,
        index_request(id).ttl_secs == 2_592_000,
        work_request(id).ttl_secs == 2_592_000,
        author_request(id).ttl_secs == 2_592_000,
{
}

/// Two numbers with a colon and something behind them are the same where the whole is.
proof fn lemma_number_and_rest(m: nat, n: nat, a: Seq<char>, b: Seq<char>)
    requires
        text::decimal(m) + ":"@ + a == text::decimal(n) + ":"@ + b,
    ensures
        m == n,
        a == b,
{
    reveal_strlit(":");
    text::law_decimal(m, 0);
    text::law_decimal(n, 0);
    let x = text::decimal(m);
    let y = text::decimal(n);
    let s = x + ":"@ + a;
    assert(s == y + ":"@ + b);
    if x.len() < y.len() {
        assert(s[x.len() as int] == ':');
        assert(s[x.len() as int] == y[x.len() as int]);
        assert(text::is_digit(y[x.len() as int]));
    } else if y.len() < x.len() {
        assert(s[y.len() as int] == ':');
        assert(s[y.len() as int] == x[y.len() as int]);
        assert(text::is_digit(x[y.len() as int]));
    }
    let k = x.len() as int;
    assert(x =~= s.take(k));
    assert(y =~= s.take(k));
    text::law_decimal_tells_apart(m, n);
    assert(a =~= s.skip(k + 1));
    assert(b =~= s.skip(k + 1));
}

/// What follows the same beginning is the same where the whole is.
proof fn lemma_same_rest(p: Seq<char>, a: Seq<char>, b: Seq<char>)
    requires
        p + a == p + b,
    ensures
        a == b,
{
    assert(a =~= (p + a).skip(p.len() as int));
    assert(b =~= (p + b).skip(p.len() as int));
}

/// No two requests are kept in one place: searches for as many documents share a place
/// only where their normalised texts are the same, rows where their years and sizes are,
/// and lookups where their ids are.
pub proof fn law_kept_apart(
    text: Seq<char>,
    a: Seq<char>,
    b: Seq<char>,
    m: nat,
    n: nat,
    year: nat,
    other: nat,
    g: u64,
    h: u64,
)
    ensures
        search_request(text, m, a).key == search_request(text, n, b).key ==> m == n && a == b,
        trending_request(m).key == trending_request(n).key ==> m == n,
        fresh_request(year, m).key == fresh_request(other, n).key ==> year == other && m == n,
        index_request(a).key == index_request(b).key ==> a == b,
        work_request(a).key == work_request(b).key ==> a == b,
        author_request(a).key == author_request(b).key ==> a == b,
        binding_key_of(g) == binding_key_of(h) ==> g == h,
{
    let p = "openlibrary:search:"@;
    if search_request(text, m, a).key == search_request(text, n, b).key {
        let x = text::decimal(m) + ":"@ + a;
        let y = text::decimal(n) + ":"@ + b;
        assert(p + x =~= search_request(text, m, a).key);
        assert(p + y =~= search_request(text, n, b).key);
        lemma_same_rest(p, x, y);
        lemma_number_and_rest(m, n, a, b);
    }
    if trending_request(m).key == trending_request(n).key {
        lemma_same_rest("openlibrary:trending:daily:"@, text::decimal(m), text::decimal(n));
        text::law_decimal_tells_apart(m, n);
    }
    if fresh_request(year, m).key == fresh_request(other, n).key {
        let f = "openlibrary:fresh:"@;
        let x = text::decimal(year) + ":"@ + text::decimal(m);
        let y = text::decimal(other) + ":"@ + text::decimal(n);
        assert(f + x =~= fresh_request(year, m).key);
        assert(f + y =~= fresh_request(other, n).key);
        lemma_same_rest(f, x, y);
        lemma_number_and_rest(year, other, text::decimal(m), text::decimal(n));
        text::law_decimal_tells_apart(m, n);
    }
    if index_request(a).key == index_request(b).key {
        lemma_same_rest("openlibrary:key:"@, a, b);
    }
    if work_request(a).key == work_request(b).key {
        lemma_same_rest("openlibrary:work:"@, a, b);
    }
    if author_request(a).key == author_request(b).key {
        lemma_same_rest("openlibrary:author:"@, a, b);
    }
    if binding_key_of(g) == binding_key_of(h) {
        lemma_same_rest(
            "openlibrary:gutenberg:"@,
            text::decimal(g as nat),
            text::decimal(h as nat),
        );
        text::law_decimal_tells_apart(g as nat, h as nat);
    }
}

/// Kinds of requests are kept apart by the word behind `openlibrary:`.
pub proof fn law_kinds_are_kept_apart(
    text: Seq<char>,
    under: Seq<char>,
    id: Seq<char>,
    m: nat,
    year: nat,
    g: u64,
)
    ensures
        text::has_prefix(search_request(text, m, under).key, "openlibrary:search:"@),
        text::has_prefix(trending_request(m).key, "openlibrary:trending:daily:"@),
        text::has_prefix(fresh_request(year, m).key, "openlibrary:fresh:"@),
        text::has_prefix(index_request(id).key, "openlibrary:key:"@),
        text::has_prefix(work_request(id).key, "openlibrary:work:"@),
        text::has_prefix(author_request(id).key, "openlibrary:author:"@),
        text::has_prefix(binding_key_of(g), "openlibrary:gutenberg:"@),
{
    lemma_begins("openlibrary:trending:daily:"@, text::decimal(m));
    lemma_begins("openlibrary:key:"@, id);
    lemma_begins("openlibrary:work:"@, id);
    lemma_begins("openlibrary:author:"@, id);
    lemma_begins("openlibrary:gutenberg:"@, text::decimal(g as nat));
    let s = text::decimal(m) + ":"@ + under;
    assert(search_request(text, m, under).key =~= "openlibrary:search:"@ + s);
    lemma_begins("openlibrary:search:"@, s);
    let f = text::decimal(year) + ":"@ + text::decimal(m);
    assert(fresh_request(year, m).key =~= "openlibrary:fresh:"@ + f);
    lemma_begins("openlibrary:fresh:"@, f);
}

proof fn lemma_begins(p: Seq<char>, rest: Seq<char>)
    ensures
        text::has_prefix(p + rest, p),
{
    assert((p + rest).take(p.len() as int) =~= p);
}

/// Nothing of a text is lost where it is kept: with single spaces between its words, its
/// normalised form is the whole text in lower case.
pub proof fn law_normalised_is_whole(list: Seq<Seq<char>>)
    requires
        forall|k: int| 0 <= k < list.len() ==> text::is_word(#[trigger] list[k]),
    ensures
        normalised(text::joined(list, " "@)) == text::lowercase(text::joined(list, " "@)),
{
    text::law_words_of_list(list);
}

/// The link of an etext is what its answer says, and a failure stays a failure.
pub proof fn law_link_in(body: JsonView, e: GatewayErrorView, gutenberg_id: u64)
    ensures
        link_in(Ok(body), gutenberg_id) == Ok::<Option<Seq<char>>, GatewayErrorView>(
            client::binding_in(body, gutenberg_id),
        ),
        link_in(Err(e), gutenberg_id) == Err::<Option<Seq<char>>, GatewayErrorView>(e),
{
}

/// A work JSON that is no redirect is the work that was asked for. A redirect that names a
/// work is followed, once. A work that is not there is missing, and any other failure is
/// reported as it is.
pub proof fn law_work_lookup(
    id: Seq<char>,
    redirected: bool,
    body: JsonView,
    e: GatewayErrorView,
    other: Seq<char>,
)
    ensures
        ({
            let l = WorkLookupView { id, redirected };
            let redirect = body.member("type"@) is Some && body.member("type"@)->0.member("key"@)
                == Some(JsonView::Text("/type/redirect"@));
            let located = body.member("location"@) == Some(JsonView::Text("/works/"@ + other));
            &&& !redirect ==> work_next(l, Ok(body)) == (WorkStepView::Found { id, work: body })
            &&& redirect && redirected ==> work_next(l, Ok(body)) is Missing
            &&& redirect && !redirected && located && client::names_work(other) ==> work_next(
                l,
                Ok(body),
            ) == WorkStepView::Fetch(WorkLookupView { id: other, redirected: true })
            &&& redirect && located && !client::names_work(other) ==> work_next(
                l,
                Ok(body),
            ) is Missing
            &&& redirect && !(body.member("location"@) matches Some(JsonView::Text(_)))
                ==> work_next(l, Ok(body)) is Missing
            &&& work_next(l, Err(GatewayErrorView::NotFound)) is Missing
            &&& !(e is NotFound) ==> work_next(l, Err(e)) == WorkStepView::Failed(e)
        }),
{
    client::law_work_path("/works/"@ + other, other);
}

/// The description of a work is the synopsis of its text, be that a string or an object
/// with a `value`, and there is none where there is no text.
pub proof fn law_description_of_a_work(work: JsonView, d: JsonView, s: Seq<char>)
    ensures
        work.member("description"@) == Some(JsonView::Text(s)) ==> description_in(work)
            == client::synopsis(s),
        work.member("description"@) == Some(d) && d is Object && d.member("value"@) == Some(
            JsonView::Text(s),
        ) ==> description_in(work) == client::synopsis(s),
        work.member("description"@) is None ==> description_in(work) is None,
{
}

/// The first document of the work is taken, and there is one wherever one of them is the
/// work's.
pub proof fn law_first_document_of_the_work(docs: Seq<SearchDocView>, id: Seq<char>, i: int)
    requires
        client::names_work(id),
        0 <= i <= docs.len(),
        forall|j: int| 0 <= j < i ==> (#[trigger] docs[j]).key != "/works/"@ + id,
        i < docs.len() ==> docs[i].key == "/works/"@ + id,
    ensures
        doc_of_work(docs, id) == if i < docs.len() {
            Some(docs[i])
        } else {
            None
        },
    decreases docs.len(),
{
    if docs.len() > 0 {
        client::law_work_path(docs[0].key, id);
        if i > 0 {
            let rest = docs.skip(1);
            assert(docs[0].key != "/works/"@ + id);
            assert forall|j: int| 0 <= j < i - 1 implies (#[trigger] rest[j]).key != "/works/"@
                + id by {
                assert(rest[j] == docs[j + 1]);
            }
            if i < docs.len() {
                assert(rest[i - 1] == docs[i]);
            }
            law_first_document_of_the_work(rest, id, i - 1);
        }
    }
}

/// The authors of a work are those that its entries name, in order: an entry names the
/// author whose path its `author` has as its key, and an entry that names none is passed
/// over.
pub proof fn law_authors_among(
    a: Seq<JsonView>,
    b: Seq<JsonView>,
    entry: JsonView,
    author: JsonView,
    id: Seq<char>,
)
    ensures
        authors_among(a + b) == authors_among(a) + authors_among(b),
        entry.member("author"@) == Some(author) && author.member("key"@) == Some(
            JsonView::Text("/authors/"@ + id),
        ) ==> authors_among(seq![entry]) == seq![id],
        entry.member("author"@) is None ==> authors_among(seq![entry]).len() == 0,
    decreases b.len(),
{
    let one = seq![entry];
    assert(one.drop_last() =~= Seq::<JsonView>::empty());
    assert(authors_among(one.drop_last()) =~= Seq::<Seq<char>>::empty());
    text::law_prefix("/authors/"@ + id, "/authors/"@, id);
    if entry.member("author"@) == Some(author) && author.member("key"@) == Some(
        JsonView::Text("/authors/"@ + id),
    ) {
        assert(author_in(entry) == Some(id));
        assert(authors_among(one) =~= seq![id]);
    }
    if b.len() == 0 {
        assert(a + b =~= a);
        assert(authors_among(a) + authors_among(b) =~= authors_among(a));
    } else {
        law_authors_among(a, b.drop_last(), entry, author, id);
        assert((a + b).drop_last() =~= a + b.drop_last());
        assert((a + b).last() == b.last());
        assert(authors_among(a + b) =~= authors_among(a) + authors_among(b));
    }
}

/// The first four authors of a work are asked for, or all of them where there are fewer.
pub proof fn law_author_ids(work: JsonView, i: int)
    ensures
        ({
            let all = authors_among(json::items_of(work.member("authors"@)));
            let ids = author_ids(work);
            &&& ids.len() == if all.len() > 4 {
                4
            } else {
                all.len()
            }
            &&& 0 <= i < ids.len() ==> ids[i] == all[i]
        }),
{
}

/// The cover of a work is the first of its numbers that is positive, and there is one
/// wherever one of them is.
pub proof fn law_first_cover(covers: Seq<JsonView>, i: int)
    requires
        0 <= i <= covers.len(),
        forall|j: int|
            0 <= j < i ==> !((#[trigger] covers[j]).signed() is Some && covers[j].signed()->0 > 0),
        i < covers.len() ==> covers[i].signed() is Some && covers[i].signed()->0 > 0,
    ensures
        first_cover(covers) == if i < covers.len() {
            covers[i].signed()
        } else {
            None
        },
    decreases covers.len(),
{
    if i > 0 {
        let rest = covers.skip(1);
        assert(!(covers[0].signed() is Some && covers[0].signed()->0 > 0));
        assert forall|j: int| 0 <= j < i - 1 implies !((#[trigger] rest[j]).signed() is Some
            && rest[j].signed()->0 > 0) by {
            assert(rest[j] == covers[j + 1]);
        }
        if i < covers.len() {
            assert(rest[i - 1] == covers[i]);
        }
        law_first_cover(rest, i - 1);
    }
}

/// The document that is made from a work JSON is the work's, with its title, its first
/// cover and the authors' names as they were found.
pub proof fn law_document_says_what_the_work_says(
    id: Seq<char>,
    work: JsonView,
    names: Seq<Seq<char>>,
    title: Seq<char>,
)
    ensures
        ({
            let d = doc_from(id, work, names);
            &&& d.key == "/works/"@ + id
            &&& d.author_name == names
            &&& work.member("title"@) == Some(JsonView::Text(title)) ==> d.title == Some(title)
            &&& work.member("title"@) is None ==> d.title is None
            &&& d.cover_i == first_cover(json::items_of(work.member("covers"@)))
            &&& d.id_project_gutenberg.len() == 0
        }),
{
}

/// The name of an author is that of its JSON, without the white space around it. A blank
/// name is none.
pub proof fn law_author_name(author: JsonView, name: Seq<char>)
    ensures
        author.member("name"@) == Some(JsonView::Text(name)) ==> name_in(author)
            == if text::is_blank(name) {
            None
        } else {
            Some(text::trimmed(name))
        },
        !(author.member("name"@) matches Some(JsonView::Text(_))) ==> name_in(author) is None,
{
}

/// How a document lookup ends, where `replies` come back one by one, if they suffice.
pub open spec fn doc_end(
    lookup: DocLookupView,
    replies: Seq<Result<JsonView, GatewayErrorView>>,
) -> Option<DocStepView>
    decreases replies.len(),
{
    if replies.len() == 0 {
        None
    } else {
        match doc_next(lookup, replies[0]) {
            DocStepView::Fetch(next) => doc_end(next, replies.skip(1)),
            end => Some(end),
        }
    }
}

/// The names that author replies give, in order.
pub open spec fn names_given(replies: Seq<Result<JsonView, GatewayErrorView>>) -> Seq<Seq<char>>
    decreases replies.len(),
{
    if replies.len() == 0 {
        Seq::empty()
    } else {
        let rest = names_given(replies.skip(1));
        match replies[0] {
            Ok(body) => match name_in(body) {
                Some(n) => seq![n] + rest,
                None => rest,
            },
            Err(_) => rest,
        }
    }
}

proof fn lemma_author_replies(
    id: Seq<char>,
    work: JsonView,
    pending: Seq<Seq<char>>,
    names: Seq<Seq<char>>,
    replies: Seq<Result<JsonView, GatewayErrorView>>,
)
    requires
        pending.len() > 0,
        replies.len() == pending.len(),
    ensures
        ({
            let l = DocLookupView::Author {
                id,
                work,
                author: pending[0],
                rest: pending.skip(1),
                names,
            };
            &&& doc_end(l, replies) == Some(
                DocStepView::Done(Some(doc_from(id, work, names + names_given(replies)))),
            )
            &&& doc_trace(l, replies).len() == pending.len()
            &&& forall|i: int|
                0 <= i < pending.len() ==> #[trigger] doc_trace(l, replies)[i] == author_request(
                    pending[i],
                )
        }),
    decreases pending.len(),
{
    let l = DocLookupView::Author { id, work, author: pending[0], rest: pending.skip(1), names };
    let more = match replies[0] {
        Ok(body) => match name_in(body) {
            Some(n) => names.push(n),
            None => names,
        },
        Err(_) => names,
    };
    let rest = pending.skip(1);
    let left = replies.skip(1);
    assert(names + names_given(replies) =~= more + names_given(left));
    if rest.len() == 0 {
        assert(left.len() == 0);
        assert(names_given(left) =~= Seq::<Seq<char>>::empty());
        assert(more + names_given(left) =~= more);
        assert(doc_trace(l, replies) =~= seq![author_request(pending[0])]);
    } else {
        lemma_author_replies(id, work, rest, more, left);
        let next = DocLookupView::Author {
            id,
            work,
            author: rest[0],
            rest: rest.skip(1),
            names: more,
        };
        assert(doc_next(l, replies[0]) == DocStepView::Fetch(next));
        assert(doc_trace(l, replies) == seq![author_request(pending[0])] + doc_trace(next, left));
        assert forall|i: int| 0 <= i < pending.len() implies #[trigger] doc_trace(l, replies)[i]
            == author_request(pending[i]) by {
            if i > 0 {
                assert(doc_trace(l, replies)[i] == doc_trace(next, left)[i - 1]);
                assert(rest[i - 1] == pending[i]);
            }
        }
    }
}

/// A work that the search index holds is found there. One that it does not hold is asked
/// for by its work JSON, and then each of its first authors one by one: it is found with
/// the names of all that have one, in their order, and that an author is not to be had
/// fails nothing.
pub proof fn law_document_of_a_work(
    id: Seq<char>,
    index: JsonView,
    work: JsonView,
    replies: Seq<Result<JsonView, GatewayErrorView>>,
)
    requires
        !is_redirect(work),
        replies.len() == author_ids(work).len(),
    ensures
        ({
            let docs = client::docs_among(json::items_of(index.member("docs"@)));
            let first: Seq<Result<JsonView, GatewayErrorView>> = seq![Ok(index), Ok(work)];
            let l = DocLookupView::Index { id };
            &&& doc_of_work(docs, id) is Some ==> doc_end(l, first + replies) == Some(
                DocStepView::Done(doc_of_work(docs, id)),
            )
            &&& doc_of_work(docs, id) is None ==> doc_end(l, first + replies) == Some(
                DocStepView::Done(Some(doc_from(id, work, names_given(replies)))),
            )
        }),
{
    let docs = client::docs_among(json::items_of(index.member("docs"@)));
    let first: Seq<Result<JsonView, GatewayErrorView>> = seq![Ok(index), Ok(work)];
    let all = first + replies;
    let l = DocLookupView::Index { id };
    assert(all[0] == first[0] && all.skip(1)[0] == first[1]);
    if doc_of_work(docs, id) is None {
        let w = DocLookupView::Work(WorkLookupView { id, redirected: false });
        assert(doc_next(l, all[0]) == DocStepView::Fetch(w));
        let rest = all.skip(1);
        assert(rest.skip(1) =~= replies);
        let pending = author_ids(work);
        if pending.len() == 0 {
            assert(names_given(replies) =~= Seq::<Seq<char>>::empty());
        } else {
            lemma_author_replies(id, work, pending, Seq::empty(), replies);
            assert(Seq::<Seq<char>>::empty() + names_given(replies) =~= names_given(replies));
        }
        assert(doc_end(l, all) == doc_end(w, rest));
    }
}

/// The authors of a work are asked for in their order, each by its own id.
pub proof fn law_authors_are_asked_in_order(
    id: Seq<char>,
    work: JsonView,
    replies: Seq<Result<JsonView, GatewayErrorView>>,
    i: int,
)
    requires
        !is_redirect(work),
        replies.len() == author_ids(work).len(),
        0 <= i < author_ids(work).len(),
    ensures
        ({
            let l = DocLookupView::Work(WorkLookupView { id, redirected: false });
            let first: Seq<Result<JsonView, GatewayErrorView>> = seq![Ok(work)];
            let asked = doc_trace(l, first + replies);
            &&& asked.len() == 1 + author_ids(work).len()
            &&& asked[0] == work_request(id)
            &&& asked[i + 1] == author_request(author_ids(work)[i])
        }),
{
    let l = DocLookupView::Work(WorkLookupView { id, redirected: false });
    let first: Seq<Result<JsonView, GatewayErrorView>> = seq![Ok(work)];
    let all = first + replies;
    let pending = author_ids(work);
    assert(all[0] == first[0]);
    assert(all.skip(1) =~= replies);
    lemma_author_replies(id, work, pending, Seq::empty(), replies);
    let next = DocLookupView::Author {
        id,
        work,
        author: pending[0],
        rest: pending.skip(1),
        names: Seq::empty(),
    };
    assert(doc_next(l, all[0]) == DocStepView::Fetch(next));
    assert(doc_trace(l, all) == seq![work_request(id)] + doc_trace(next, replies));
}

/// That the search index fails is reported, and that a work is not there means that there
/// is no document.
pub proof fn law_failed_document_lookups(
    id: Seq<char>,
    redirected: bool,
    e: GatewayErrorView,
)
    ensures
        doc_next(DocLookupView::Index { id }, Err(e)) == DocStepView::Failed(e),
        ({
            let l = DocLookupView::Work(WorkLookupView { id, redirected });
            &&& doc_next(l, Err(GatewayErrorView::NotFound)) == DocStepView::Done(None)
            &&& !(e is NotFound) ==> doc_next(l, Err(e)) == DocStepView::Failed(e)
        }),
{
}

} // verus!

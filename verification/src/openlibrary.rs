//! The `openlibrary` upstream: Open Library work cards.
//!
//! It names works and nothing else: no bytes, no editions. Editions join a card
//! through `openlibraryid`. A card is addressed by the card locator of `openlibrary`
//! and the bare work id.
use crate::calendar;
use crate::card::{
    candidates_of, card, card_address, card_after, cards_of, law_candidates,
    law_card_has_one_address, law_card_names_its_work, law_one_card_per_work, law_projection,
    Looked,
};
use crate::contact::{self, BudgetSize};
use crate::json::{self, Json};
use crate::lookup::{self, CachedRequest, CachedRequestView, OpenLibraryClient};
use crate::openlibrary_client::{
    self as client, SearchDoc, SearchDocView, BROWSE_DEADLINE, CONTACT_KEY, SEARCH_DEADLINE,
};
use crate::query::{
    browse_kind, first_filter, foreign_identity_filter, has_foreign_filter, row_of, Browse,
};
use crate::send;
use crate::table::has_field;
use crate::text;
use crate::types::{
    record_opt, ConfigField, DiscoveryRecord, DiscoveryRecordView, GatewayError,
    GatewayErrorView, GatewayQuery, GatewayQueryView, HashKind, HashOutcome, PluginHealth,
};
use vstd::prelude::*;

pub use crate::card::{card_cid, to_record, UPSTREAM};

verus! {

/// How many cards answer a search.
pub const DEFAULT_TOP_N: usize = 12;

/// How many cards fill a row.
pub const DEFAULT_DISCOVERY_N: usize = 20;

/// How many documents are asked for per card of a search or of the popular row.
/// Some of them will have no cover or no description.
pub const SEARCH_OVERFETCH: usize = 2;

/// How many documents are asked for per card of the fresh row, where most are stubs.
pub const FRESH_OVERFETCH: usize = 4;

/// How many documents are asked for at most.
pub const MAX_LIMIT: usize = 100;

// ---------------------------------------------------------------------------
// Set-up
// ---------------------------------------------------------------------------
/// The environment variables that set up the upstream.
#[derive(Debug)]
pub struct Env {
    /// `OPENLIBRARY_TOP_N`.
    pub top_n: Option<String>,
    /// `OPENLIBRARY_DISCOVERY_N`.
    pub discovery_n: Option<String>,
    /// `OPENLIBRARY_CONTACT`.
    pub contact: Option<String>,
}

/// The positive number that `value` writes, else `default`.
pub open spec fn positive_or(value: Option<Seq<char>>, default: usize) -> usize {
    match value {
        Some(s) => match text::usize_in(s) {
            Some(n) => if n > 0 {
                n
            } else {
                default
            },
            None => default,
        },
        None => default,
    }
}

/// The positive number that an environment variable writes, else `default`.
pub fn env_usize(value: Option<&str>, default: usize) -> (r: usize)
    ensures
        r == positive_or(text::str_opt(value), default),
{
    match value {
        Some(s) => match text::parse_usize(s) {
            Some(n) => if n > 0 {
                n
            } else {
                default
            },
            None => default,
        },
        None => default,
    }
}

fn as_str(s: &Option<String>) -> (r: Option<&str>)
    ensures
        text::str_opt(r) == text::text_opt(*s),
{
    match s {
        Some(s) => Some(s.as_str()),
        None => None,
    }
}

/// The `openlibrary` upstream.
#[derive(Debug)]
pub struct OpenLibraryPlugin {
    pub client: Option<OpenLibraryClient>,
    pub top_n: usize,
    pub discovery_n: usize,
    pub contact: Option<String>,
    /// The budget that is shared with the other caller of Open Library.
    pub budget: Option<BudgetSize>,
    /// Another place than the public Open Library.
    pub api_base: Option<String>,
}

// ---------------------------------------------------------------------------
// Plans
// ---------------------------------------------------------------------------
/// What answers a query.
#[derive(Debug)]
pub enum QueryPlan {
    /// No card, and no request.
    Nothing,
    /// The card of the work `id`.
    Work { id: String },
    /// At most `n` cards of a curated row, of the first `limit` documents.
    Row { kind: Browse, limit: usize, n: usize },
    /// At most `n` cards of the first `limit` documents found for `text`.
    Search { text: String, limit: usize, n: usize },
}

pub ghost enum QueryPlanView {
    Nothing,
    Work { id: Seq<char> },
    Row { kind: Browse, limit: nat, n: nat },
    Search { text: Seq<char>, limit: nat, n: nat },
}

impl View for QueryPlan {
    type V = QueryPlanView;

    open spec fn view(&self) -> QueryPlanView {
        match self {
            QueryPlan::Nothing => QueryPlanView::Nothing,
            QueryPlan::Work { id } => QueryPlanView::Work { id: id@ },
            QueryPlan::Row { kind, limit, n } => QueryPlanView::Row {
                kind: *kind,
                limit: *limit as nat,
                n: *n as nat,
            },
            QueryPlan::Search { text, limit, n } => QueryPlanView::Search {
                text: text@,
                limit: *limit as nat,
                n: *n as nat,
            },
        }
    }
}

pub open spec fn smaller(a: nat, b: nat) -> nat {
    if a <= b {
        a
    } else {
        b
    }
}

/// How many cards a query may have, where `wanted` are usual and `max_results` are
/// asked for: at least one.
pub open spec fn card_count(wanted: nat, max_results: nat) -> nat {
    smaller(
        wanted,
        if max_results == 0 {
            1
        } else {
            max_results
        },
    )
}

/// How many documents are asked for to get `n` cards.
pub open spec fn document_limit(n: nat, overfetch: nat) -> nat {
    smaller(n * overfetch, MAX_LIMIT as nat)
}

/// The bare id in the value of an `openlibraryid` filter.
pub open spec fn bare_id(raw: Seq<char>) -> Seq<char> {
    match text::after_prefix(raw, "/works/"@) {
        Some(id) => id,
        None => raw,
    }
}

/// What answers a query, where `accepted` says whether the query's axes are served
/// and `configured` whether the upstream is ready.
pub open spec fn plan(
    q: GatewayQueryView,
    accepted: bool,
    configured: bool,
    top_n: nat,
    discovery_n: nat,
    max_results: nat,
) -> QueryPlanView {
    if !accepted || !configured || has_foreign_filter(q) {
        QueryPlanView::Nothing
    } else if q.first_value("openlibraryid"@) is Some {
        let id = bare_id(q.first_value("openlibraryid"@)->0);
        if client::names_work(id) {
            QueryPlanView::Work { id }
        } else {
            QueryPlanView::Nothing
        }
    } else if row_of(q) is Some {
        let kind = row_of(q)->0;
        let n = card_count(discovery_n, max_results);
        let overfetch = match kind {
            Browse::Popular => SEARCH_OVERFETCH as nat,
            Browse::Fresh => FRESH_OVERFETCH as nat,
        };
        QueryPlanView::Row { kind, limit: document_limit(n, overfetch), n }
    } else if text::is_blank(q.free_text) {
        QueryPlanView::Nothing
    } else {
        let n = card_count(top_n, max_results);
        QueryPlanView::Search {
            text: text::trimmed(q.free_text),
            limit: document_limit(n, SEARCH_OVERFETCH as nat),
            n,
        }
    }
}

fn count(wanted: usize, max_results: usize) -> (r: usize)
    ensures
        r == card_count(wanted as nat, max_results as nat),
{
    let cap: usize = if max_results == 0 {
        1
    } else {
        max_results
    };
    if wanted <= cap {
        wanted
    } else {
        cap
    }
}

fn limit(n: usize, overfetch: usize) -> (r: usize)
    requires
        1 <= overfetch <= MAX_LIMIT,
    ensures
        r == document_limit(n as nat, overfetch as nat),
{
    if n >= MAX_LIMIT {
        assert(n * overfetch >= MAX_LIMIT) by (nonlinear_arith)
            requires
                n >= MAX_LIMIT,
                overfetch >= 1,
        ;
        MAX_LIMIT
    } else {
        assert(n * overfetch <= MAX_LIMIT * MAX_LIMIT) by (nonlinear_arith)
            requires
                n <= MAX_LIMIT,
                overfetch <= MAX_LIMIT,
        ;
        let wanted: usize = n * overfetch;
        if wanted <= MAX_LIMIT {
            wanted
        } else {
            MAX_LIMIT
        }
    }
}

/// How many cards answer a plan at most.
pub open spec fn card_limit_of(p: QueryPlanView) -> nat {
    match p {
        QueryPlanView::Nothing => 0,
        QueryPlanView::Work { .. } => 1,
        QueryPlanView::Row { n, .. } => n,
        QueryPlanView::Search { n, .. } => n,
    }
}

/// Where the answer to a plan lists its documents.
pub open spec fn list_of(p: QueryPlanView) -> Seq<char> {
    match p {
        QueryPlanView::Row { kind: Browse::Popular, .. } => "works"@,
        _ => "docs"@,
    }
}

/// The request for the documents of a plan, at `now_secs` seconds after 1970. A single
/// work is looked up by other means.
pub open spec fn documents_request(p: QueryPlanView, now_secs: u64) -> Option<CachedRequestView> {
    match p {
        QueryPlanView::Row { kind: Browse::Popular, limit, .. } => Some(
            lookup::trending_request(limit),
        ),
        QueryPlanView::Row { kind: Browse::Fresh, limit, .. } => Some(
            lookup::fresh_request(calendar::year_of(now_secs), limit),
        ),
        QueryPlanView::Search { text, limit, .. } => Some(
            lookup::search_request(text, limit, lookup::normalised(text)),
        ),
        _ => None,
    }
}

impl QueryPlan {
    /// The request for the documents of a row or a search, at `now_secs` seconds after
    /// 1970.
    pub fn request(&self, client: &OpenLibraryClient, now_secs: u64) -> (r: Option<CachedRequest>)
        ensures
            lookup::request_opt(r) == documents_request(self@, now_secs),
    {
        match self {
            QueryPlan::Row { kind: Browse::Popular, limit, .. } => Some(client.trending(*limit)),
            QueryPlan::Row { kind: Browse::Fresh, limit, .. } => Some(
                client.fresh(now_secs, *limit),
            ),
            QueryPlan::Search { text, limit, .. } => Some(client.search(text.as_str(), *limit)),
            _ => None,
        }
    }

    /// The documents in the reply to [`QueryPlan::request`]. A failure is reported.
    pub fn documents(&self, reply: Result<Json, GatewayError>) -> (r: Result<
        Vec<SearchDoc>,
        GatewayError,
    >)
        ensures
            match (send::reply_view(reply), r) {
                (Ok(body), Ok(docs)) => client::doc_views(docs@) == client::docs_among(
                    json::items_of(body.member(list_of(self@))),
                ),
                (Err(e), Err(f)) => e == f@,
                _ => false,
            },
    {
        match reply {
            Ok(body) => {
                let list = match self {
                    QueryPlan::Row { kind: Browse::Popular, .. } => "works",
                    _ => "docs",
                };
                Ok(client::parse_docs(body.get(list)))
            },
            Err(e) => Err(e),
        }
    }

    /// How many seconds each request waits for a lease of the rate budget.
    pub fn deadline_secs(&self) -> (r: u64)
        ensures
            r == match self@ {
                QueryPlanView::Row { .. } => BROWSE_DEADLINE,
                _ => SEARCH_DEADLINE,
            },
    {
        match self {
            QueryPlan::Row { .. } => BROWSE_DEADLINE,
            _ => SEARCH_DEADLINE,
        }
    }

    /// How many cards there are at most.
    pub fn card_limit(&self) -> (r: usize)
        ensures
            r == card_limit_of(self@),
    {
        match self {
            QueryPlan::Nothing => 0,
            QueryPlan::Work { .. } => 1,
            QueryPlan::Row { n, .. } => *n,
            QueryPlan::Search { n, .. } => *n,
        }
    }
}

// ---------------------------------------------------------------------------
// Outcomes
// ---------------------------------------------------------------------------
/// `o` is a card locator without bytes: the address `cid`, and the record.
pub open spec fn is_card_outcome(
    o: HashOutcome,
    cid: Seq<char>,
    record: Option<DiscoveryRecordView>,
) -> bool {
    &&& o.hash@ == cid
    &&& o.hash_kind == HashKind::CardLocator
    &&& o.bytes is None
    &&& o.file_extension is None
    &&& record_opt(o.record) == record
}

/// `record`, where it is the record of `id`.
pub open spec fn own_record(record: Option<DiscoveryRecordView>, id: Seq<char>) -> Option<
    DiscoveryRecordView,
> {
    match record {
        Some(r) => if r.record_id == id {
            Some(r)
        } else {
            None
        },
        None => None,
    }
}

/// What is reported for a record id that is no work id.
pub open spec fn bad_work_id(record_id: Seq<char>) -> GatewayErrorView {
    GatewayErrorView::Permanent("openlibrary: bad work id "@ + record_id)
}

fn bad_id(record_id: &str) -> (r: GatewayError)
    ensures
        r@ == bad_work_id(record_id@),
{
    let mut m = "openlibrary: bad work id ".to_owned();
    m.append(record_id);
    GatewayError::Permanent(m)
}

/// The work that the record `record_id` is about.
pub fn work_of_record(record_id: &str) -> (r: Result<String, GatewayError>)
    ensures
        match r {
            Ok(id) => client::names_work(text::trimmed(record_id@)) && id@ == text::trimmed(
                record_id@,
            ),
            Err(e) => !client::names_work(text::trimmed(record_id@)) && e@ == bad_work_id(
                record_id@,
            ),
        },
{
    let id = text::trim(record_id);
    if client::is_work_id(id) {
        Ok(id.to_owned())
    } else {
        Err(bad_id(record_id))
    }
}

/// The documents that the card of an outcome is made from: the one that was found. A
/// lookup that fails, or finds none, gives none.
pub open spec fn found_document(found: Result<Option<SearchDocView>, GatewayErrorView>) -> Seq<
    SearchDocView,
> {
    match found {
        Ok(Some(doc)) => seq![doc],
        _ => Seq::empty(),
    }
}

/// How the lookup of a document came out.
pub open spec fn lookup_view(found: Result<Option<SearchDoc>, GatewayError>) -> Result<
    Option<SearchDocView>,
    GatewayErrorView,
> {
    match found {
        Ok(Some(doc)) => Ok(Some(doc@)),
        Ok(None) => Ok(None),
        Err(e) => Err(e@),
    }
}

/// The documents that the card of an outcome is made from. A lookup that fails, or finds
/// none, fails nothing: the outcome is then without a card.
pub fn outcome_documents(found: Result<Option<SearchDoc>, GatewayError>) -> (r: Vec<SearchDoc>)
    ensures
        client::doc_views(r@) == found_document(lookup_view(found)),
{
    match found {
        Ok(Some(doc)) => {
            let docs = vec![doc];
            assert(client::doc_views(docs@) =~= seq![doc@]);
            docs
        },
        _ => {
            let docs: Vec<SearchDoc> = Vec::new();
            assert(client::doc_views(docs@) =~= Seq::<SearchDocView>::empty());
            docs
        },
    }
}

/// The outcome of the record `record_id`: a card locator without bytes. `locator` is
/// the card locator of the work, and `record` the card that was found for it, which
/// rides along where it is that work's.
pub fn card_outcome(
    record_id: &str,
    locator: Option<String>,
    record: Option<DiscoveryRecord>,
) -> (r: Result<HashOutcome, GatewayError>)
    ensures
        match (card_address(text::trimmed(record_id@), text::text_opt(locator)), r) {
            (Some(cid), Ok(o)) => is_card_outcome(
                o,
                cid,
                own_record(record_opt(record), text::trimmed(record_id@)),
            ),
            (None, Err(e)) => e@ == bad_work_id(record_id@),
            _ => false,
        },
{
    let id = text::trim(record_id);
    let hash = match card_cid(id, locator) {
        Some(cid) => cid,
        None => {
            return Err(bad_id(record_id));
        },
    };
    let record = match record {
        Some(r) => if text::same(r.record_id.as_str(), id) {
            Some(r)
        } else {
            None
        },
        None => None,
    };
    Ok(
        HashOutcome {
            hash,
            hash_kind: HashKind::CardLocator,
            bytes: None,
            record,
            file_extension: None,
        },
    )
}

// ---------------------------------------------------------------------------
// The upstream
// ---------------------------------------------------------------------------
impl OpenLibraryPlugin {
    /// The upstream as the environment sets it up, not yet configured.
    pub fn new(env: &Env) -> (r: Self)
        ensures
            r.client is None,
            r.top_n == positive_or(text::text_opt(env.top_n), DEFAULT_TOP_N),
            r.discovery_n == positive_or(text::text_opt(env.discovery_n), DEFAULT_DISCOVERY_N),
            text::text_opt(r.contact) == contact::contact_opt(text::text_opt(env.contact)),
            r.budget is None,
            r.api_base is None,
    {
        OpenLibraryPlugin {
            client: None,
            top_n: env_usize(as_str(&env.top_n), DEFAULT_TOP_N),
            discovery_n: env_usize(as_str(&env.discovery_n), DEFAULT_DISCOVERY_N),
            contact: contact::env_contact(as_str(&env.contact)),
            budget: None,
            api_base: None,
        }
    }

    /// The upstream, at another place than the public Open Library.
    pub fn with_api_base(api_base: String, env: &Env) -> (r: Self)
        ensures
            r.client is None,
            r.top_n == positive_or(text::text_opt(env.top_n), DEFAULT_TOP_N),
            r.discovery_n == positive_or(text::text_opt(env.discovery_n), DEFAULT_DISCOVERY_N),
            text::text_opt(r.contact) == contact::contact_opt(text::text_opt(env.contact)),
            r.budget is None,
            r.api_base == Some(api_base),
    {
        let mut plugin = OpenLibraryPlugin::new(env);
        plugin.api_base = Some(api_base);
        plugin
    }

    /// Draws on a budget that is shared with the other caller of Open Library.
    pub fn with_budget(self, budget: BudgetSize) -> (r: Self)
        ensures
            r == (OpenLibraryPlugin { budget: Some(budget), ..self }),
    {
        let mut plugin = self;
        plugin.budget = Some(budget);
        plugin
    }

    /// Makes the upstream ready, with the contact of `files` or the environment, and
    /// gives the budget that its requests draw on.
    pub fn configure(&mut self, files: &Vec<Option<Vec<u8>>>, env: &Env) -> (r: BudgetSize)
        ensures
            text::text_opt(final(self).contact) == contact::first_contact(
                files@,
                contact::contact_opt(text::text_opt(env.contact)),
            ),
            final(self).client is Some,
            final(self).client->0.api_base@ == match old(self).api_base {
                Some(b) => b@,
                None => client::DEFAULT_API_BASE@,
            },
            final(self).client->0.user_agent@ == contact::agent(
                text::text_opt(final(self).contact),
            ),
            final(self).top_n == old(self).top_n,
            final(self).discovery_n == old(self).discovery_n,
            final(self).budget == old(self).budget,
            final(self).api_base == old(self).api_base,
            r == match old(self).budget {
                Some(b) => b,
                None => contact::budget_size(final(self).contact is Some),
            },
    {
        let found = contact::load_contact(files, as_str(&env.contact));
        let size = match self.budget {
            Some(b) => b,
            None => contact::budget(found.is_some()),
        };
        let api_base = match &self.api_base {
            Some(b) => Some(b.clone()),
            None => None,
        };
        self.client = Some(OpenLibraryClient::new(api_base, as_str(&found)));
        self.contact = found;
        size
    }

    pub fn upstream_id(&self) -> (r: &'static str)
        ensures
            r@ == UPSTREAM@,
    {
        UPSTREAM
    }

    /// Cards only. This upstream names works; it has no bytes to serve.
    pub fn served_file_types(&self) -> (r: &'static [&'static str])
        ensures
            r@.len() == 1,
            r@[0]@ == "card"@,
    {
        &["card"]
    }

    /// Books only.
    pub fn served_content_kinds(&self) -> (r: &'static [&'static str])
        ensures
            r@.len() == 1,
            r@[0]@ == "book"@,
    {
        &["book"]
    }

    pub fn health(&self) -> (r: PluginHealth)
        ensures
            match r {
                PluginHealth::Healthy => self.client is Some,
                PluginHealth::Degraded { reason } => self.client is None && reason@
                    == "not configured"@,
            },
    {
        if self.client.is_some() {
            PluginHealth::Healthy
        } else {
            PluginHealth::Degraded { reason: "not configured".to_owned() }
        }
    }

    /// Decides what answers a query. `accepted` says whether the query asks for what
    /// this upstream serves.
    ///
    /// A query for a work by its id is answered with that work or with nothing. It is
    /// never answered by a search for the query's words.
    pub fn handle_query(&self, query: &GatewayQuery, accepted: bool, max_results: usize) -> (r:
        QueryPlan)
        ensures
            r@ == plan(
                query@,
                accepted,
                self.client is Some,
                self.top_n as nat,
                self.discovery_n as nat,
                max_results as nat,
            ),
    {
        if !accepted || self.client.is_none() {
            return QueryPlan::Nothing;
        }
        if foreign_identity_filter(query).is_some() {
            assert(has_foreign_filter(query@));
            return QueryPlan::Nothing;
        }
        if let Some(raw) = first_filter(query, "openlibraryid") {
            let id = match text::strip_prefix(raw.as_str(), "/works/") {
                Some(id) => id,
                None => raw.as_str(),
            };
            if !client::is_work_id(id) {
                return QueryPlan::Nothing;
            }
            return QueryPlan::Work { id: id.to_owned() };
        }
        if let Some(kind) = browse_kind(query) {
            let n: usize = count(self.discovery_n, max_results);
            let overfetch: usize = match kind {
                Browse::Popular => SEARCH_OVERFETCH,
                Browse::Fresh => FRESH_OVERFETCH,
            };
            return QueryPlan::Row { kind, limit: limit(n, overfetch), n };
        }
        let text = text::trim(query.free_text.as_str());
        if text.is_empty() {
            return QueryPlan::Nothing;
        }
        let n: usize = count(self.top_n, max_results);
        QueryPlan::Search { text: text.to_owned(), limit: limit(n, SEARCH_OVERFETCH), n }
    }

    /// The lines of the configuration page.
    pub fn config_schema(&self) -> (r: Vec<ConfigField>)
        ensures
            r@.len() == 1,
            r@[0].key@ == CONTACT_KEY@,
            r@[0].label@ == contact::CONTACT_LABEL@,
            r@[0].help@ == contact::CONTACT_HELP@,
    {
        vec![contact::contact_field()]
    }

    /// The values of the configuration page.
    pub fn config_values(&self) -> (r: Json)
        ensures
            r@ == contact::config_view(text::text_opt(self.contact)),
    {
        contact::config_json(as_str(&self.contact))
    }
}

// ---------------------------------------------------------------------------
// Laws
// ---------------------------------------------------------------------------
/// A query is declined, and nothing is asked of Open Library, where its axes are not
/// served, where the upstream is not configured, where it carries a foreign identity,
/// where its `openlibraryid` is no work id, and where it has neither words nor a
/// browse marker nor an `openlibraryid`. In no other case is it declined.
pub proof fn law_declined(
    q: GatewayQueryView,
    accepted: bool,
    configured: bool,
    top_n: nat,
    discovery_n: nat,
    max_results: nat,
)
    ensures
        ({
            let p = plan(q, accepted, configured, top_n, discovery_n, max_results);
            let anchor = q.first_value("openlibraryid"@);
            &&& !accepted ==> p is Nothing
            &&& !configured ==> p is Nothing
            &&& has_foreign_filter(q) ==> p is Nothing
            &&& anchor is Some && !client::names_work(bare_id(anchor->0)) ==> p is Nothing
            &&& anchor is None && row_of(q) is None && text::is_blank(q.free_text) ==> p is Nothing
            &&& p is Nothing ==> {
                ||| !accepted
                ||| !configured
                ||| has_foreign_filter(q)
                ||| anchor is Some && !client::names_work(bare_id(anchor->0))
                ||| anchor is None && row_of(q) is None && text::is_blank(q.free_text)
            }
        }),
{
}

/// A query for a work by its id is answered with that work or with nothing, never by
/// a search or a row.
pub proof fn law_anchor_is_never_searched(
    q: GatewayQueryView,
    accepted: bool,
    configured: bool,
    top_n: nat,
    discovery_n: nat,
    max_results: nat,
)
    requires
        q.first_value("openlibraryid"@) is Some,
    ensures
        ({
            let p = plan(q, accepted, configured, top_n, discovery_n, max_results);
            p is Nothing || p == (QueryPlanView::Work {
                id: bare_id(q.first_value("openlibraryid"@)->0),
            })
        }),
{
}

/// Never more than [`MAX_LIMIT`] documents are asked for, and never more cards than
/// the caller takes, where it takes any. Where cards are wanted, at least one is and
/// at least as many documents are asked for as cards, up to that limit.
pub proof fn law_sizes(
    q: GatewayQueryView,
    accepted: bool,
    configured: bool,
    top_n: nat,
    discovery_n: nat,
    max_results: nat,
)
    requires
        top_n > 0,
        discovery_n > 0,
    ensures
        match plan(q, accepted, configured, top_n, discovery_n, max_results) {
            QueryPlanView::Row { limit, n, .. } => {
                &&& 1 <= n <= discovery_n
                &&& max_results > 0 ==> n <= max_results
                &&& limit <= MAX_LIMIT
                &&& smaller(n, MAX_LIMIT as nat) <= limit
            },
            QueryPlanView::Search { limit, n, .. } => {
                &&& 1 <= n <= top_n
                &&& max_results > 0 ==> n <= max_results
                &&& limit <= MAX_LIMIT
                &&& smaller(n, MAX_LIMIT as nat) <= limit
            },
            _ => true,
        },
{
    lemma_document_limit(card_count(discovery_n, max_results), SEARCH_OVERFETCH as nat);
    lemma_document_limit(card_count(discovery_n, max_results), FRESH_OVERFETCH as nat);
    lemma_document_limit(card_count(top_n, max_results), SEARCH_OVERFETCH as nat);
}

proof fn lemma_document_limit(n: nat, overfetch: nat)
    requires
        overfetch >= 1,
    ensures
        smaller(n, MAX_LIMIT as nat) <= document_limit(n, overfetch) <= MAX_LIMIT,
{
    assert(n * overfetch >= n) by (nonlinear_arith)
        requires
            overfetch >= 1,
    ;
}

/// A text is searched for as it was typed, but for the white space around it, and is
/// never empty.
pub proof fn law_search_is_for_words(
    q: GatewayQueryView,
    accepted: bool,
    configured: bool,
    top_n: nat,
    discovery_n: nat,
    max_results: nat,
)
    ensures
        plan(q, accepted, configured, top_n, discovery_n, max_results) matches QueryPlanView::Search {
            text,
            ..
        } ==> text == text::trimmed(q.free_text) && text.len() > 0,
{
}

/// The popular row reads what was opened most and never searches, and the fresh row
/// reads what was added last.
pub proof fn law_rows(limit: nat, n: nat, now_secs: u64)
    ensures
        documents_request(QueryPlanView::Row { kind: Browse::Popular, limit, n }, now_secs)
            == Some(lookup::trending_request(limit)),
        lookup::trending_request(limit).request.path == "/trending/daily.json"@,
        documents_request(
            QueryPlanView::Row { kind: Browse::Fresh, limit, n },
            now_secs,
        )->0.request.params.contains(("sort"@, "new"@)),
{
    assert(lookup::fresh_request(calendar::year_of(now_secs), limit).request.params[1] == (
        "sort"@,
        "new"@,
    ));
}

/// An outcome whose document was not found, or whose lookup failed, has no card: there is
/// no candidate for one, so that none is looked up and none comes of it.
pub proof fn law_no_document_is_no_card(
    found: Result<Option<SearchDocView>, GatewayErrorView>,
    looked: Seq<Looked>,
    q: GatewayQueryView,
    n: nat,
)
    requires
        !(found matches Ok(Some(_))),
        looked.len() <= candidates_of(found_document(found)).len(),
    ensures
        candidates_of(found_document(found)) == Seq::<SearchDocView>::empty(),
        cards_of(looked, q, n) == Seq::<DiscoveryRecordView>::empty(),
{
}

/// How many cards a query is answered with at most: what the caller takes, at least one,
/// and no more than a search, a row or a single work may have.
pub open spec fn most_cards(p: QueryPlanView, top_n: nat, discovery_n: nat, max_results: nat) -> nat {
    let taken = if max_results == 0 {
        1
    } else {
        max_results
    };
    match p {
        QueryPlanView::Nothing => 0,
        QueryPlanView::Work { .. } => smaller(taken, 1),
        QueryPlanView::Row { .. } => smaller(taken, discovery_n),
        QueryPlanView::Search { .. } => smaller(taken, top_n),
    }
}

/// `r` is a full card: of the work that it names, with the one address `cid`, and with a
/// title, a cover and a description that are not blank.
pub open spec fn is_full_card(r: DiscoveryRecordView, cid: Option<Seq<char>>) -> bool {
    &&& r.upstream_id == "openlibrary"@
    &&& client::names_work(r.record_id)
    &&& has_field(r.fields, "openlibraryid"@, r.record_id)
    &&& has_field(r.fields, "fileType"@, "card"@)
    &&& has_field(r.fields, "contentKind"@, "book"@)
    &&& cid is Some
    &&& forall|key: Seq<char>| #[trigger]
        text::has_prefix(key, "cids/"@) ==> (r.fields.contains_key(key) <==> key == "cids/"@
            + cid->0)
    &&& r.fields.contains_key("cids/"@ + cid->0)
    &&& r.fields.contains_key("title"@) && !text::is_blank(r.fields["title"@])
    &&& r.fields.contains_key("poster_url"@) && !text::is_blank(r.fields["poster_url"@])
    &&& r.fields.contains_key("description/eng"@) && !text::is_blank(
        r.fields["description/eng"@],
    )
}

/// The whole answer to a query. `docs` are the documents that were found, and `looked`
/// the first of their candidates, with what each lookup came to and the card locator of
/// its work. There are at most as many cards as [`most_cards`] says, no two of one work,
/// and each is a full card under the locator of its own work.
pub proof fn law_answer_to_a_query(
    q: GatewayQueryView,
    accepted: bool,
    configured: bool,
    top_n: nat,
    discovery_n: nat,
    max_results: nat,
    docs: Seq<SearchDocView>,
    looked: Seq<Looked>,
    locator_of: spec_fn(Seq<char>) -> Option<Seq<char>>,
)
    requires
        looked.len() <= candidates_of(docs).len(),
        forall|i: int|
            0 <= i < looked.len() ==> (#[trigger] looked[i]).doc == candidates_of(docs)[i]
                && looked[i].locator == locator_of(looked[i].doc.work_id()->0),
    ensures
        ({
            let p = plan(q, accepted, configured, top_n, discovery_n, max_results);
            let cards = cards_of(looked, q, card_limit_of(p));
            &&& cards.len() <= most_cards(p, top_n, discovery_n, max_results)
            &&& forall|c: int, d: int|
                0 <= c < d < cards.len() ==> (#[trigger] cards[c]).record_id != (
                #[trigger] cards[d]).record_id
            &&& forall|c: int|
                0 <= c < cards.len() ==> is_full_card(
                    #[trigger] cards[c],
                    locator_of(cards[c].record_id),
                )
        }),
{
    let p = plan(q, accepted, configured, top_n, discovery_n, max_results);
    let n = card_limit_of(p);
    let cards = cards_of(looked, q, n);
    law_one_card_per_work(docs, looked, q, n);
    law_candidates(docs);
    assert forall|i: int, j: int| 0 <= i < j < looked.len() implies (
    #[trigger] looked[i]).doc.key != (#[trigger] looked[j]).doc.key by {
        assert(candidates_of(docs)[i].key != candidates_of(docs)[j].key);
    }
    law_projection(looked, q, n);
    assert forall|c: int| 0 <= c < cards.len() implies is_full_card(
        #[trigger] cards[c],
        locator_of(cards[c].record_id),
    ) by {
        let i = choose|i: int|
            #![trigger looked[i]]
            0 <= i < looked.len() && card_after(
                looked[i].doc,
                looked[i].answer,
                q,
                looked[i].locator,
            ) == Some(cards[c]);
        let l = looked[i];
        lemma_full_card(l.doc, (l.answer->0).1->0, q, l.locator);
    }
}

/// What is not blank stays so when it is trimmed.
proof fn lemma_trimmed_is_not_blank(s: Seq<char>)
    requires
        !text::is_blank(s),
    ensures
        !text::is_blank(text::trimmed(s)),
{
    text::law_trimmed(s);
}

proof fn lemma_full_card(
    doc: SearchDocView,
    description: Seq<char>,
    q: GatewayQueryView,
    locator: Option<Seq<char>>,
)
    requires
        card(doc, description, q, locator) is Some,
    ensures
        is_full_card(card(doc, description, q, locator)->0, locator),
{
    let r = card(doc, description, q, locator)->0;
    law_card_names_its_work(doc, description, q, locator);
    lemma_trimmed_is_not_blank(doc.title->0);
    lemma_trimmed_is_not_blank(description);
    let url = doc.cover_url()->0;
    assert(!text::is_blank(url)) by {
        reveal_strlit("https://covers.openlibrary.org/b/id");
        assert(url[0] == 'h');
        text::law_blank(url);
    }
    assert forall|key: Seq<char>| #[trigger] text::has_prefix(key, "cids/"@) implies (
    r.fields.contains_key(key) <==> key == "cids/"@ + locator->0) by {
        law_card_has_one_address(doc, description, q, locator, key);
    }
    let own = "cids/"@ + locator->0;
    assert(own.take("cids/"@.len() as int) =~= "cids/"@);
    assert(text::has_prefix(own, "cids/"@));
}

/// What a query that is accepted, by an upstream that is ready, without a foreign
/// identity, is answered with. An `openlibraryid` that names a work: that work. Words,
/// and no `openlibraryid`: the search for them, whatever they are. No words, and a browse
/// marker: the row.
pub proof fn law_answer_is_owed(
    q: GatewayQueryView,
    top_n: nat,
    discovery_n: nat,
    max_results: nat,
)
    requires
        !has_foreign_filter(q),
    ensures
        ({
            let p = plan(q, true, true, top_n, discovery_n, max_results);
            let anchor = q.first_value("openlibraryid"@);
            let marked = q.is_true("fresh"@) || q.is_true("popular"@) || q.is_true("trending"@);
            &&& anchor is Some && client::names_work(anchor->0) ==> p == (QueryPlanView::Work {
                id: anchor->0,
            })
            &&& anchor is None && !text::is_blank(q.free_text) ==> p is Search && p->text
                == text::trimmed(q.free_text)
            &&& anchor is None && text::is_blank(q.free_text) && marked ==> p is Row && (p->kind
                == Browse::Fresh <==> q.is_true("fresh"@))
            &&& anchor is None && text::is_blank(q.free_text) && !marked ==> p is Nothing
        }),
{
    match q.first_value("openlibraryid"@) {
        Some(id) => {
            if client::names_work(id) {
                reveal_strlit("/works/");
                if text::has_prefix(id, "/works/"@) {
                    text::lemma_has_prefix(id, "/works/"@, 0);
                }
            }
        },
        None => {},
    }
}

/// A work may be asked for by its path as well: `/works/` and its id ask for the work.
pub proof fn law_anchor_by_path(
    q: GatewayQueryView,
    id: Seq<char>,
    top_n: nat,
    discovery_n: nat,
    max_results: nat,
)
    requires
        !has_foreign_filter(q),
        client::names_work(id),
        q.first_value("openlibraryid"@) == Some("/works/"@ + id),
    ensures
        plan(q, true, true, top_n, discovery_n, max_results) == (QueryPlanView::Work { id }),
        bare_id("/works/"@ + id) == id,
{
    text::law_prefix("/works/"@ + id, "/works/"@, id);
}

/// The sizes of a search and of a row. There are as many cards as usual, or as the caller
/// takes where that is fewer, and at least one. Twice as many documents are asked for, for
/// the fresh row four times as many, and never more than a hundred.
pub proof fn law_sizes_are_exact(
    q: GatewayQueryView,
    accepted: bool,
    configured: bool,
    top_n: nat,
    discovery_n: nat,
    max_results: nat,
)
    ensures
        match plan(q, accepted, configured, top_n, discovery_n, max_results) {
            QueryPlanView::Search { limit, n, .. } => {
                &&& n <= top_n && n <= max_results + 1 && (max_results > 0 ==> n <= max_results)
                &&& n == top_n || (max_results > 0 && n == max_results) || (max_results == 0 && n == 1)
                &&& limit == if 2 * n <= 100 {
                    2 * n
                } else {
                    100
                }
            },
            QueryPlanView::Row { kind, limit, n } => {
                &&& n <= discovery_n && n <= max_results + 1 && (max_results > 0 ==> n
                    <= max_results)
                &&& n == discovery_n || (max_results > 0 && n == max_results) || (max_results == 0 && n
                    == 1)
                &&& kind == Browse::Popular ==> limit == if 2 * n <= 100 {
                    2 * n
                } else {
                    100
                }
                &&& kind == Browse::Fresh ==> limit == if 4 * n <= 100 {
                    4 * n
                } else {
                    100
                }
            },
            _ => true,
        },
{
    let a = card_count(top_n, max_results);
    let b = card_count(discovery_n, max_results);
    assert(a * (SEARCH_OVERFETCH as nat) == 2 * a);
    assert(b * (SEARCH_OVERFETCH as nat) == 2 * b);
    assert(b * (FRESH_OVERFETCH as nat) == 4 * b);
    assert(document_limit(a, SEARCH_OVERFETCH as nat) == smaller(2 * a, 100));
    assert(document_limit(b, SEARCH_OVERFETCH as nat) == smaller(2 * b, 100));
    assert(document_limit(b, FRESH_OVERFETCH as nat) == smaller(4 * b, 100));
}

/// How many cards a plan allows: those of its size, one for a single work, and none where
/// the query is declined.
pub proof fn law_card_limits(text: Seq<char>, kind: Browse, limit: nat, n: nat)
    ensures
        card_limit_of(QueryPlanView::Search { text, limit, n }) == n,
        card_limit_of(QueryPlanView::Row { kind, limit, n }) == n,
        card_limit_of(QueryPlanView::Work { id: text }) == 1,
        card_limit_of(QueryPlanView::Nothing) == 0,
{
}

/// What is asked for a plan. A search asks for its text, the popular row for what was
/// opened most, the fresh row for what was added last, each for as many documents as the
/// plan says. A declined query asks for nothing. The documents of the popular row are
/// listed as `works`, all others as `docs`.
pub proof fn law_requests_of_plans(text: Seq<char>, limit: nat, n: nat, now_secs: u64)
    ensures
        ({
            let search = QueryPlanView::Search { text, limit, n };
            let popular = QueryPlanView::Row { kind: Browse::Popular, limit, n };
            let fresh = QueryPlanView::Row { kind: Browse::Fresh, limit, n };
            let s = documents_request(search, now_secs);
            let p = documents_request(popular, now_secs);
            let f = documents_request(fresh, now_secs);
            &&& s is Some && s->0.request.path == "/search.json"@
            &&& s->0.request.params.contains(("q"@, text::trimmed(text)))
            &&& s->0.request.params.contains(("limit"@, text::decimal(limit)))
            &&& p is Some && p->0.request.path == "/trending/daily.json"@
            &&& p->0.request.params.contains(("limit"@, text::decimal(limit)))
            &&& f is Some && f->0.request.path == "/search.json"@
            &&& f->0.request.params.contains(("limit"@, text::decimal(limit)))
            &&& f->0 == lookup::fresh_request(calendar::year_of(now_secs), limit)
            &&& documents_request(QueryPlanView::Nothing, now_secs) is None
            &&& documents_request(QueryPlanView::Work { id: text }, now_secs) is None
            &&& list_of(popular) == "works"@ && list_of(fresh) == "docs"@ && list_of(search)
                == "docs"@
        }),
{
    let s = lookup::search_request(text, limit, lookup::normalised(text)).request.params;
    assert(s[0] == ("q"@, text::trimmed(text)) && s[2] == ("limit"@, text::decimal(limit)));
    let p = lookup::trending_request(limit).request.params;
    assert(p[1] == ("limit"@, text::decimal(limit)));
    let f = lookup::fresh_request(calendar::year_of(now_secs), limit).request.params;
    assert(f[3] == ("limit"@, text::decimal(limit)));
}

/// A number in the environment counts where it is positive, however large. Anything else
/// leaves the usual number.
pub proof fn law_environment_numbers(n: usize, s: Seq<char>, default: usize)
    ensures
        n > 0 ==> positive_or(Some(text::decimal(n as nat)), default) == n,
        positive_or(Some(text::decimal(0)), default) == default,
        positive_or(None, default) == default,
        text::usize_in(s) is None ==> positive_or(Some(s), default) == default,
        default > 0 ==> positive_or(Some(s), default) > 0,
{
    text::law_usize_in(n, s);
    text::law_usize_in(0, s);
}

/// The usual numbers: twelve cards for a search, twenty for a row.
pub proof fn law_usual_numbers()
    ensures
        DEFAULT_TOP_N == 12,
        DEFAULT_DISCOVERY_N == 20,
{
}

/// The card that was found rides along with an outcome where it is that of the work, and
/// otherwise none does. A failure names the record as it was asked for.
pub proof fn law_outcomes_carry_their_own(r: DiscoveryRecordView, id: Seq<char>)
    ensures
        own_record(Some(r), r.record_id) == Some(r),
        id != r.record_id ==> own_record(Some(r), id) is None,
        own_record(None, id) is None,
        bad_work_id(id) == GatewayErrorView::Permanent("openlibrary: bad work id "@ + id),
{
}

/// The document that was found is the one that the card of an outcome is made from.
pub proof fn law_document_of_an_outcome(doc: SearchDocView, e: GatewayErrorView)
    ensures
        found_document(Ok(Some(doc))).len() == 1,
        found_document(Ok(Some(doc)))[0] == doc,
        found_document(Ok(None)).len() == 0,
        found_document(Err(e)).len() == 0,
{
}

/// Every card that can be had is: where no two documents have the same key, each can
/// become a card, and each lookup gives a description under the document's own id, a query
/// is answered with a card for each document, in their order, up to the number that the
/// plan allows.
pub proof fn law_every_card_is_given(
    docs: Seq<SearchDocView>,
    looked: Seq<Looked>,
    q: GatewayQueryView,
    n: nat,
    c: int,
)
    requires
        forall|i: int|
            0 <= i < docs.len() ==> client::work_of_path((#[trigger] docs[i]).key) is Some
                && docs[i].title is Some && !text::is_blank(docs[i].title->0)
                && docs[i].cover_i is Some && docs[i].cover_i->0 > 0,
        forall|i: int, j: int|
            0 <= i < j < docs.len() ==> (#[trigger] docs[i]).key != (#[trigger] docs[j]).key,
        looked.len() == candidates_of(docs).len(),
        forall|i: int|
            0 <= i < looked.len() ==> {
                let l = #[trigger] looked[i];
                &&& l.doc == candidates_of(docs)[i]
                &&& l.locator is Some
                &&& l.answer is Some
                &&& (l.answer->0).1 is Some
                &&& !text::is_blank((l.answer->0).1->0)
                &&& client::names_work((l.answer->0).0)
                &&& l.doc.key == "/works/"@ + (l.answer->0).0
            },
    ensures
        cards_of(looked, q, n).len() == smaller(docs.len(), n),
        0 <= c < cards_of(looked, q, n).len() ==> docs[c].key == "/works/"@ + cards_of(
            looked,
            q,
            n,
        )[c].record_id,
{
    crate::card::law_all_are_candidates(docs);
    assert forall|i: int|
        #![trigger looked[i]]
        0 <= i < looked.len() implies card_after(
        looked[i].doc,
        looked[i].answer,
        q,
        looked[i].locator,
    ) is Some by {
        let l = looked[i];
        assert(l.doc == docs[i]);
        crate::card::law_card_comes(l.doc, l.answer, q, l.locator);
    }
    crate::card::law_card_count(looked, q, n);
    let at = crate::card::law_cards_are_the_first_that_come(looked, q, n);
    if 0 <= c < cards_of(looked, q, n).len() {
        lemma_at_least(at, c);
        if at[c] > c {
            let k = lemma_gap(at, c);
            let l = looked[k];
            assert(card_after(l.doc, l.answer, q, l.locator) is Some);
        }
        let l = looked[c];
        crate::card::law_card_comes(l.doc, l.answer, q, l.locator);
        law_card_names_its_work(l.doc, (l.answer->0).1->0, q, l.locator);
    }
}

/// Numbers that grow are no smaller than their places.
proof fn lemma_at_least(at: Seq<int>, c: int)
    requires
        0 <= c < at.len(),
        forall|k: int| 0 <= k < at.len() ==> 0 <= #[trigger] at[k],
        forall|j: int, k: int| 0 <= j < k < at.len() ==> #[trigger] at[j] < #[trigger] at[k],
    ensures
        c <= at[c],
    decreases c,
{
    if c > 0 {
        lemma_at_least(at, c - 1);
        assert(at[c - 1] < at[c]);
    }
}

/// Where one of them is larger, a number below it is left out.
proof fn lemma_gap(at: Seq<int>, c: int) -> (k: int)
    requires
        0 <= c < at.len(),
        forall|k: int| 0 <= k < at.len() ==> 0 <= #[trigger] at[k],
        forall|j: int, k: int| 0 <= j < k < at.len() ==> #[trigger] at[j] < #[trigger] at[k],
        at[c] > c,
    ensures
        0 <= k < at[c],
        !at.contains(k),
    decreases c,
{
    if c > 0 && at[c - 1] > c - 1 {
        let k = lemma_gap(at, c - 1);
        assert(at[c - 1] < at[c]);
        k
    } else {
        assert(c == 0 || at[c - 1] <= c - 1);
        if at.contains(c) {
            let i = at.index_of(c);
            if i < c {
                assert(at[i] == c);
                if i < c - 1 {
                    assert(at[i] < at[c - 1]);
                }
            } else if i > c {
                assert(at[c] < at[i]);
            }
        }
        c
    }
}

} // verus!

//! The `gutenberg` upstream: Project Gutenberg editions, by way of Gutendex.
//!
//! `{base}/books/?search={q}` finds books and `{base}/books/{id}` gives one. The bytes
//! of an edition are its epub; a book without one has none.
use crate::contact::{self, BudgetSize};
use crate::edition::{format_url, least, BookView, GutendexBook, COVER_FORMAT};
use crate::json::Json;
use crate::lookup::{pairs, OpenLibraryClient};
use crate::openlibrary_client::{self as client, CONTACT_KEY};
use crate::rdf::{parse_pgterms_rdf, rdf_fields};
use crate::table::Table;
use crate::text;
use crate::types::{
    ConfigField, GatewayError, GatewayErrorView, GatewayQuery, HashOutcome, PluginHealth,
};
use vstd::prelude::*;

pub use crate::edition::{into_discovery_record, UPSTREAM};

verus! {

/// The public Gutendex.
pub const DEFAULT_BASE_URL: &'static str = "https://gutendex.com";

/// Where Project Gutenberg serves its RDF documents.
pub const DEFAULT_RDF_BASE_URL: &'static str = "https://www.gutenberg.org";

/// How many seconds one call of Gutendex may take.
pub const HTTP_TIMEOUT_SECS: u64 = 30;

/// The `User-Agent` that is sent to Gutendex.
pub const USER_AGENT: &'static str = "meta-share/0.1.0 (gateway:gutenberg)";

/// How often a call is sent that gets no response. One dropped connection must not
/// empty a row.
pub const SEARCH_ATTEMPTS: usize = 3;

/// How many seconds the download of a cover or an RDF document may take.
pub const DOWNLOAD_TIMEOUT_SECS: u64 = 8;

/// How many RDF documents are fetched at once.
pub const BIBREC_CONCURRENCY: usize = 6;

/// How many covers are fetched at once.
pub const COVER_CONCURRENCY: usize = 8;

// ---------------------------------------------------------------------------
// Requests
// ---------------------------------------------------------------------------
/// A search of books: a URL, and the query pairs.
#[derive(Debug)]
pub struct BookSearch {
    pub url: String,
    pub params: Vec<(String, String)>,
}

/// The URL of the search of books. It ends in a slash: without one Gutendex
/// redirects.
pub open spec fn search_url(base: Seq<char>) -> Seq<char> {
    text::without_trailing(base, '/') + "/books/"@
}

/// The URL of one book.
pub open spec fn book_url_of(base: Seq<char>, record_id: Seq<char>) -> Seq<char> {
    text::without_trailing(base, '/') + "/books/"@ + record_id
}

/// The URL of the RDF document of one book.
pub open spec fn rdf_url_of(base: Seq<char>, id: u64) -> Seq<char> {
    let n = text::decimal(id as nat);
    text::without_trailing(base, '/') + "/cache/epub/"@ + n + "/pg"@ + n + ".rdf"@
}

/// The query pairs of a search: none where there are no words, which lists the
/// catalogue, most read first. Gutendex takes `*` by the letter.
pub open spec fn search_pairs(free_text: Seq<char>) -> Seq<(Seq<char>, Seq<char>)> {
    if text::is_blank(free_text) {
        Seq::empty()
    } else {
        seq![("search"@, text::trimmed(free_text))]
    }
}

/// What is reported where the answer for one book cannot be read.
pub fn bad_book(record_id: &str, e: &str) -> (r: GatewayError)
    ensures
        r@ == GatewayErrorView::Permanent("decode gutendex book "@ + record_id@ + ": "@ + e@),
{
    let mut m = "decode gutendex book ".to_owned();
    m.append(record_id);
    m.append(": ");
    m.append(e);
    GatewayError::Permanent(m)
}

/// What is reported where the answer of a search cannot be read.
pub fn bad_search(e: &str) -> (r: GatewayError)
    ensures
        r@ == GatewayErrorView::Permanent("decode gutendex search response: "@ + e@),
{
    let mut m = "decode gutendex search response: ".to_owned();
    m.append(e);
    GatewayError::Permanent(m)
}

/// The first `max_results` of the books that were found.
pub fn first_results(results: Vec<GutendexBook>, max_results: usize) -> (r: Vec<GutendexBook>)
    ensures
        r@ == if results@.len() > max_results {
            results@.take(max_results as int)
        } else {
            results@
        },
{
    let mut books = results;
    if books.len() > max_results {
        books.truncate(max_results);
    }
    books
}

// ---------------------------------------------------------------------------
// Downloads
// ---------------------------------------------------------------------------
/// What a download came to.
#[derive(Debug)]
pub enum Fetched<T> {
    /// A response with its status, and its body where that could be read.
    Response { status: u16, body: Option<T> },
    /// No response, or none in time.
    NoResponse,
}

/// The body of a response that reports success.
pub open spec fn body_in<T>(fetched: Fetched<T>) -> Option<T> {
    match fetched {
        Fetched::Response { status, body } => if 200 <= status < 300 {
            body
        } else {
            None
        },
        Fetched::NoResponse => None,
    }
}

/// The body of a response that reports success. A download that fails is left out,
/// and fails nothing else.
pub fn body_of<T>(fetched: Fetched<T>) -> (r: Option<T>)
    ensures
        r == body_in(fetched),
{
    match fetched {
        Fetched::Response { status, body } => if 200 <= status && status < 300 {
            body
        } else {
            None
        },
        Fetched::NoResponse => None,
    }
}

/// How the address of a cover is come by.
#[derive(Debug)]
pub enum CoverStep {
    /// It is known.
    Known(String),
    /// The cover is fetched from a URL.
    Fetch(String),
    /// There is no cover.
    Absent,
}

/// How the address of a book's cover is come by, `cached` being the one that is kept.
pub fn cover_step(cached: Option<String>, book: &GutendexBook) -> (r: CoverStep)
    ensures
        match r {
            CoverStep::Known(cid) => cached == Some(cid),
            CoverStep::Fetch(url) => cached is None && format_url(book@, COVER_FORMAT@) == Some(
                url@,
            ),
            CoverStep::Absent => cached is None && format_url(book@, COVER_FORMAT@) is None,
        },
{
    match cached {
        Some(cid) => CoverStep::Known(cid),
        None => match book.formats.get(COVER_FORMAT) {
            Some(url) => CoverStep::Fetch(url.clone()),
            None => CoverStep::Absent,
        },
    }
}

/// The bytes of a cover, and their content address.
#[derive(Debug)]
pub struct Cover {
    pub cid: String,
    pub bytes: Vec<u8>,
}

/// The bytes of a cover, and their content address.
#[verifier::ext_equal]
pub ghost struct CoverView {
    pub cid: Seq<char>,
    pub bytes: Seq<u8>,
}

impl View for Cover {
    type V = CoverView;

    open spec fn view(&self) -> CoverView {
        CoverView { cid: self.cid@, bytes: self.bytes@ }
    }
}

pub open spec fn cover_opt(cover: Option<Cover>) -> Option<CoverView> {
    match cover {
        Some(c) => Some(c@),
        None => None,
    }
}

/// What is known of a book's cover: the address that is kept, and what the download
/// came to.
#[derive(Debug)]
pub struct CoverLookup {
    pub cached: Option<String>,
    pub fetched: Fetched<Cover>,
}

/// What is known of a book's cover: the address that is kept, and what was downloaded.
pub ghost struct CoverLookupView {
    pub cached: Option<Seq<char>>,
    pub fetched: Option<CoverView>,
}

impl View for CoverLookup {
    type V = CoverLookupView;

    open spec fn view(&self) -> CoverLookupView {
        CoverLookupView {
            cached: text::text_opt(self.cached),
            fetched: cover_opt(body_in(self.fetched)),
        }
    }
}

/// What of the download of a book's cover is kept, to be served as a blob and not to be
/// fetched again: the cover, where it is downloaded at all, and reports success.
pub open spec fn kept_cover(book: BookView, lookup: CoverLookupView) -> Option<CoverView> {
    if lookup.cached is None && format_url(book, COVER_FORMAT@) is Some {
        lookup.fetched
    } else {
        None
    }
}

/// The address of a book's cover: the one that is kept, else that of the download, where
/// the book has a cover.
pub open spec fn cover_address(book: BookView, lookup: CoverLookupView) -> Option<Seq<char>> {
    match lookup.cached {
        Some(cid) => Some(cid),
        None => match kept_cover(book, lookup) {
            Some(cover) => Some(cover.cid),
            None => None,
        },
    }
}

/// What is known of the `i`-th cover; nothing behind the end of the list.
pub open spec fn lookup_at(lookups: Seq<CoverLookupView>, i: int) -> CoverLookupView {
    if 0 <= i < lookups.len() {
        lookups[i]
    } else {
        CoverLookupView { cached: None, fetched: None }
    }
}

/// The addresses of the covers of `books`, one for each.
pub open spec fn cover_addresses(books: Seq<BookView>, lookups: Seq<CoverLookupView>) -> Seq<
    Option<Seq<char>>,
> {
    Seq::new(books.len(), |i: int| cover_address(books[i], lookup_at(lookups, i)))
}

/// What of the download of a book's cover is kept: its bytes under their address, and the
/// address for the book. Nothing where an address is kept already, where the book has no
/// cover, and where the download fails.
pub fn cover_to_keep<'a>(book: &GutendexBook, lookup: &'a CoverLookup) -> (r: Option<&'a Cover>)
    ensures
        match r {
            Some(cover) => Some(cover@),
            None => None,
        } == kept_cover(book@, lookup@),
{
    if lookup.cached.is_some() || !book.formats.contains_key(COVER_FORMAT) {
        return None;
    }
    match &lookup.fetched {
        Fetched::Response { status, body: Some(cover) } => if 200 <= *status && *status < 300 {
            Some(cover)
        } else {
            None
        },
        _ => None,
    }
}

/// The address of a book's cover, after its download.
pub fn cover_cid(book: &GutendexBook, lookup: CoverLookup) -> (r: Option<String>)
    ensures
        text::text_opt(r) == cover_address(book@, lookup@),
{
    match cover_step(lookup.cached, book) {
        CoverStep::Known(cid) => Some(cid),
        CoverStep::Fetch(_) => match body_of(lookup.fetched) {
            Some(cover) => Some(cover.cid),
            None => None,
        },
        CoverStep::Absent => None,
    }
}

/// The addresses of the covers of `books`, one for each and in order. A book without a
/// cover, or whose cover could not be fetched, has none.
pub fn cover_cids(books: &Vec<GutendexBook>, lookups: Vec<CoverLookup>) -> (r: Vec<Option<String>>)
    ensures
        r@.map_values(|c: Option<String>| text::text_opt(c)) == cover_addresses(
            books@.map_values(|b: GutendexBook| b@),
            lookups@.map_values(|l: CoverLookup| l@),
        ),
{
    let ghost all = lookups@.map_values(|l: CoverLookup| l@);
    let mut rest = lookups;
    let mut out: Vec<Option<String>> = Vec::new();
    let mut i: usize = 0;
    assert(lookups@.skip(0) == lookups@);
    while i < books.len()
        invariant
            i <= books@.len(),
            out@.len() == i,
            all == lookups@.map_values(|l: CoverLookup| l@),
            rest@ == lookups@.skip(least(i as nat, lookups@.len()) as int),
            forall|k: int|
                0 <= k < i ==> text::text_opt(#[trigger] out@[k]) == cover_address(
                    books@[k]@,
                    lookup_at(all, k),
                ),
        decreases books@.len() - i,
    {
        let lookup = if rest.len() > 0 {
            let l = rest.remove(0);
            assert(l@ == all[i as int]);
            l
        } else {
            CoverLookup { cached: None, fetched: Fetched::NoResponse }
        };
        assert(rest@ =~= lookups@.skip(least((i + 1) as nat, lookups@.len()) as int));
        assert(lookup@ == lookup_at(all, i as int));
        out.push(cover_cid(&books[i], lookup));
        i += 1;
    }
    assert(out@.map_values(|c: Option<String>| text::text_opt(c)) =~= cover_addresses(
        books@.map_values(|b: GutendexBook| b@),
        all,
    ));
    out
}

/// How the outcome of an edition is come by.
#[derive(Debug)]
pub enum ComputeStep<T> {
    /// It is kept, and nothing is sent.
    Known(T),
    /// The book is fetched from a URL.
    Fetch(String),
}

/// How the outcome of an edition is come by.
pub ghost enum ComputeStepView<T> {
    Known(T),
    Fetch(Seq<char>),
}

impl<T> View for ComputeStep<T> {
    type V = ComputeStepView<T>;

    open spec fn view(&self) -> ComputeStepView<T> {
        match *self {
            ComputeStep::Known(kept) => ComputeStepView::Known(kept),
            ComputeStep::Fetch(url) => ComputeStepView::Fetch(url@),
        }
    }
}

/// How the outcome of the edition `record_id` is come by, `kept` being what is kept of it.
pub open spec fn step_to_outcome<T>(
    base: Seq<char>,
    kept: Option<T>,
    record_id: Seq<char>,
) -> ComputeStepView<T> {
    match kept {
        Some(k) => ComputeStepView::Known(k),
        None => ComputeStepView::Fetch(book_url_of(base, record_id)),
    }
}

/// The content address of an edition, as it is kept for its record.
#[derive(Debug)]
pub struct KeptAddress {
    pub record_id: String,
    pub cid: String,
}

/// The content address of an edition, as it is kept for its record.
#[verifier::ext_equal]
pub ghost struct KeptAddressView {
    pub record_id: Seq<char>,
    pub cid: Seq<char>,
}

impl View for KeptAddress {
    type V = KeptAddressView;

    open spec fn view(&self) -> KeptAddressView {
        KeptAddressView { record_id: self.record_id@, cid: self.cid@ }
    }
}

/// What is kept once the outcome of the edition `record_id` was computed: its address.
pub open spec fn kept_address(record_id: Seq<char>, outcome: HashOutcome) -> KeptAddressView {
    KeptAddressView { record_id, cid: outcome.hash@ }
}

/// What is kept once the outcome of the edition `record_id` was computed: its address.
pub fn address_to_keep(record_id: &str, outcome: &HashOutcome) -> (r: KeptAddress)
    ensures
        r@ == kept_address(record_id@, *outcome),
{
    KeptAddress { record_id: record_id.to_owned(), cid: outcome.hash.clone() }
}

/// The addresses that are kept, by record, once `kept` is among them.
pub open spec fn addresses_after(
    addresses: Map<Seq<char>, Seq<char>>,
    kept: KeptAddressView,
) -> Map<Seq<char>, Seq<char>> {
    addresses.insert(kept.record_id, kept.cid)
}

/// The address that is kept for a record.
pub open spec fn address_in(addresses: Map<Seq<char>, Seq<char>>, record_id: Seq<char>) -> Option<
    Seq<char>,
> {
    if addresses.contains_key(record_id) {
        Some(addresses[record_id])
    } else {
        None
    }
}

/// How the fields of an RDF document are come by.
#[derive(Debug)]
pub enum BibrecStep {
    /// They are known.
    Known(Table<String>),
    /// The document is fetched from a URL.
    Fetch(String),
}

/// The fields of an RDF document, and whether they are kept.
#[derive(Debug)]
pub struct Bibrec {
    pub fields: Table<String>,
    pub keep: bool,
}

/// The fields that the download of an RDF document gives: none where it fails.
pub open spec fn fields_in(fetched: Fetched<String>) -> Map<Seq<char>, Seq<char>> {
    match body_in(fetched) {
        Some(xml) => rdf_fields(xml@),
        None => Map::empty(),
    }
}

/// The fields that the download of an RDF document gives: none where it fails. Only
/// fields that are there are kept, so that a document that had none is asked again.
pub fn bibrec_of(fetched: &Fetched<String>) -> (r: Bibrec)
    ensures
        r.fields@ == fields_in(*fetched),
        r.keep == (fields_in(*fetched) != Map::<Seq<char>, Seq<char>>::empty()),
{
    let fields = match fetched {
        Fetched::Response { status, body: Some(xml) } => if 200 <= *status && *status < 300 {
            parse_pgterms_rdf(xml.as_str())
        } else {
            Table::new()
        },
        _ => Table::new(),
    };
    let keep = fields.len() > 0;
    Bibrec { fields, keep }
}

/// What is known of a book's RDF document: the fields that are kept, and what the
/// download came to.
#[derive(Debug)]
pub struct BibrecLookup {
    pub cached: Option<Table<String>>,
    pub fetched: Fetched<String>,
}

/// What is known of a book's RDF document: the fields that are kept, and those that were
/// downloaded.
pub ghost struct BibrecLookupView {
    pub cached: Option<Map<Seq<char>, Seq<char>>>,
    pub fetched: Map<Seq<char>, Seq<char>>,
}

impl View for BibrecLookup {
    type V = BibrecLookupView;

    open spec fn view(&self) -> BibrecLookupView {
        BibrecLookupView {
            cached: match self.cached {
                Some(fields) => Some(fields@),
                None => None,
            },
            fetched: fields_in(self.fetched),
        }
    }
}

/// The fields of a book's RDF document: those that are kept, else those of the download.
pub open spec fn bibrec_fields(lookup: BibrecLookupView) -> Map<Seq<char>, Seq<char>> {
    match lookup.cached {
        Some(fields) => fields,
        None => lookup.fetched,
    }
}

/// What is known of the `i`-th RDF document; nothing behind the end of the list.
pub open spec fn bibrec_lookup_at(lookups: Seq<BibrecLookupView>, i: int) -> BibrecLookupView {
    if 0 <= i < lookups.len() {
        lookups[i]
    } else {
        BibrecLookupView { cached: None, fetched: Map::empty() }
    }
}

/// The fields of the RDF documents of `n` books, one set for each.
pub open spec fn bibrec_lists(n: nat, lookups: Seq<BibrecLookupView>) -> Seq<
    Map<Seq<char>, Seq<char>>,
> {
    Seq::new(n, |i: int| bibrec_fields(bibrec_lookup_at(lookups, i)))
}

/// The fields of the RDF documents of `books`, one set for each and in order. A book whose
/// document could not be fetched, or says nothing, has an empty one.
pub fn bibrecs_of(books: &Vec<GutendexBook>, lookups: Vec<BibrecLookup>) -> (r: Vec<Table<String>>)
    ensures
        r@.len() == books@.len(),
        r@.map_values(|t: Table<String>| t@) == bibrec_lists(
            books@.len(),
            lookups@.map_values(|l: BibrecLookup| l@),
        ),
{
    let ghost all = lookups@.map_values(|l: BibrecLookup| l@);
    let mut rest = lookups;
    let mut out: Vec<Table<String>> = Vec::new();
    let mut i: usize = 0;
    assert(lookups@.skip(0) == lookups@);
    while i < books.len()
        invariant
            i <= books@.len(),
            out@.len() == i,
            all == lookups@.map_values(|l: BibrecLookup| l@),
            rest@ == lookups@.skip(least(i as nat, lookups@.len()) as int),
            forall|k: int|
                0 <= k < i ==> (#[trigger] out@[k])@ == bibrec_fields(bibrec_lookup_at(all, k)),
        decreases books@.len() - i,
    {
        let lookup = if rest.len() > 0 {
            let l = rest.remove(0);
            assert(l@ == all[i as int]);
            l
        } else {
            BibrecLookup { cached: None, fetched: Fetched::NoResponse }
        };
        assert(rest@ =~= lookups@.skip(least((i + 1) as nat, lookups@.len()) as int));
        assert(lookup@ == bibrec_lookup_at(all, i as int));
        let fields = match lookup.cached {
            Some(fields) => fields,
            None => bibrec_of(&lookup.fetched).fields,
        };
        out.push(fields);
        i += 1;
    }
    assert(out@.map_values(|t: Table<String>| t@) =~= bibrec_lists(books@.len(), all));
    out
}

/// The work that an edition is linked to, as the lookup of it came out. An edition
/// whose lookup fails is published without a link.
pub fn binding_of(answer: Result<Option<String>, GatewayError>) -> (r: Option<String>)
    ensures
        r == match answer {
            Ok(work) => work,
            Err(_) => None,
        },
{
    match answer {
        Ok(work) => work,
        Err(_) => None,
    }
}

// ---------------------------------------------------------------------------
// The upstream
// ---------------------------------------------------------------------------
/// The `gutenberg` upstream.
#[derive(Debug)]
pub struct GutenbergPlugin {
    pub base_url: String,
    pub rdf_base_url: String,
    /// Another place than the public Open Library.
    pub openlibrary_base_url: Option<String>,
    /// The budget that is shared with the other caller of Open Library.
    pub openlibrary_budget: Option<BudgetSize>,
    pub contact: Option<String>,
    /// Once configured, the client that links editions to works.
    pub openlibrary: Option<OpenLibraryClient>,
}

impl GutenbergPlugin {
    /// The upstream at the public Gutendex, not yet configured.
    pub fn new() -> (r: Self)
        ensures
            r.base_url@ == DEFAULT_BASE_URL@,
            r.rdf_base_url@ == DEFAULT_RDF_BASE_URL@,
            r.openlibrary_base_url is None,
            r.openlibrary_budget is None,
            r.contact is None,
            r.openlibrary is None,
    {
        GutenbergPlugin::with_base_url(DEFAULT_BASE_URL.to_owned())
    }

    /// The upstream at another Gutendex.
    pub fn with_base_url(base_url: String) -> (r: Self)
        ensures
            r.base_url == base_url,
            r.rdf_base_url@ == DEFAULT_RDF_BASE_URL@,
            r.openlibrary_base_url is None,
            r.openlibrary_budget is None,
            r.contact is None,
            r.openlibrary is None,
    {
        GutenbergPlugin {
            base_url,
            rdf_base_url: DEFAULT_RDF_BASE_URL.to_owned(),
            openlibrary_base_url: None,
            openlibrary_budget: None,
            contact: None,
            openlibrary: None,
        }
    }

    /// Fetches RDF documents from another place.
    pub fn with_rdf_base_url(self, rdf_base_url: String) -> (r: Self)
        ensures
            r == (GutenbergPlugin { rdf_base_url, ..self }),
    {
        let mut plugin = self;
        plugin.rdf_base_url = rdf_base_url;
        plugin
    }

    /// Asks another Open Library for the works of editions.
    pub fn with_openlibrary_base_url(self, api_base: String) -> (r: Self)
        ensures
            r == (GutenbergPlugin { openlibrary_base_url: Some(api_base), ..self }),
    {
        let mut plugin = self;
        plugin.openlibrary_base_url = Some(api_base);
        plugin
    }

    /// Draws on a budget that is shared with the other caller of Open Library.
    pub fn with_openlibrary_budget(self, budget: BudgetSize) -> (r: Self)
        ensures
            r == (GutenbergPlugin { openlibrary_budget: Some(budget), ..self }),
    {
        let mut plugin = self;
        plugin.openlibrary_budget = Some(budget);
        plugin
    }

    /// Makes the upstream ready, with the contact of `files` or the environment, and
    /// gives the budget that its requests to Open Library draw on.
    pub fn configure(&mut self, files: &Vec<Option<Vec<u8>>>, env_contact: Option<&str>) -> (r:
        BudgetSize)
        ensures
            text::text_opt(final(self).contact) == contact::first_contact(
                files@,
                contact::contact_opt(text::str_opt(env_contact)),
            ),
            final(self).openlibrary is Some,
            final(self).openlibrary->0.api_base@ == match old(self).openlibrary_base_url {
                Some(b) => b@,
                None => client::DEFAULT_API_BASE@,
            },
            final(self).openlibrary->0.user_agent@ == contact::agent(
                text::text_opt(final(self).contact),
            ),
            final(self).base_url == old(self).base_url,
            final(self).rdf_base_url == old(self).rdf_base_url,
            final(self).openlibrary_base_url == old(self).openlibrary_base_url,
            final(self).openlibrary_budget == old(self).openlibrary_budget,
            r == match old(self).openlibrary_budget {
                Some(b) => b,
                None => contact::budget_size(final(self).contact is Some),
            },
    {
        let found = contact::load_contact(files, env_contact);
        let size = match self.openlibrary_budget {
            Some(b) => b,
            None => contact::budget(found.is_some()),
        };
        let api_base = match &self.openlibrary_base_url {
            Some(b) => Some(b.clone()),
            None => None,
        };
        let named = match &found {
            Some(c) => Some(c.as_str()),
            None => None,
        };
        self.openlibrary = Some(OpenLibraryClient::new(api_base, named));
        self.contact = found;
        size
    }

    pub fn upstream_id(&self) -> (r: &'static str)
        ensures
            r@ == UPSTREAM@,
    {
        UPSTREAM
    }

    /// Documents only.
    pub fn served_file_types(&self) -> (r: &'static [&'static str])
        ensures
            r@.len() == 1,
            r@[0]@ == "document"@,
    {
        &["document"]
    }

    /// Books only.
    pub fn served_content_kinds(&self) -> (r: &'static [&'static str])
        ensures
            r@.len() == 1,
            r@[0]@ == "book"@,
    {
        &["book"]
    }

    pub fn health(&self) -> (r: PluginHealth)
        ensures
            match r {
                PluginHealth::Healthy => self.openlibrary is Some,
                PluginHealth::Degraded { reason } => self.openlibrary is None && reason@
                    == "configure() not yet called"@,
            },
    {
        if self.openlibrary.is_some() {
            PluginHealth::Healthy
        } else {
            PluginHealth::Degraded { reason: "configure() not yet called".to_owned() }
        }
    }

    /// The search that answers a query, or none where `accepted` says that the query
    /// asks for what this upstream does not serve.
    pub fn handle_query(&self, query: &GatewayQuery, accepted: bool) -> (r: Option<BookSearch>)
        ensures
            match r {
                Some(s) => accepted && s.url@ == search_url(self.base_url@) && pairs(s.params@)
                    == search_pairs(query@.free_text),
                None => !accepted,
            },
    {
        if !accepted {
            return None;
        }
        let mut url = text::trim_end_matches(self.base_url.as_str(), '/').to_owned();
        url.append("/books/");
        let q = text::trim(query.free_text.as_str());
        let params = if q.is_empty() {
            Vec::new()
        } else {
            vec![("search".to_owned(), q.to_owned())]
        };
        assert(pairs(params@) =~= search_pairs(query@.free_text));
        Some(BookSearch { url, params })
    }

    /// The URL of one book.
    pub fn book_url(&self, record_id: &str) -> (r: String)
        ensures
            r@ == book_url_of(self.base_url@, record_id@),
    {
        let mut url = text::trim_end_matches(self.base_url.as_str(), '/').to_owned();
        url.append("/books/");
        url.append(record_id);
        url
    }

    /// The URL of the RDF document of one book.
    pub fn rdf_url(&self, id: u64) -> (r: String)
        ensures
            r@ == rdf_url_of(self.rdf_base_url@, id),
    {
        let n = text::decimal_of(id);
        let mut url = text::trim_end_matches(self.rdf_base_url.as_str(), '/').to_owned();
        url.append("/cache/epub/");
        url.append(n.as_str());
        url.append("/pg");
        url.append(n.as_str());
        url.append(".rdf");
        url
    }

    /// How the fields of a book's RDF document are come by, `cached` being those that
    /// are kept.
    pub fn bibrec_step(&self, cached: Option<Table<String>>, id: u64) -> (r: BibrecStep)
        ensures
            match r {
                BibrecStep::Known(fields) => cached == Some(fields),
                BibrecStep::Fetch(url) => cached is None && url@ == rdf_url_of(
                    self.rdf_base_url@,
                    id,
                ),
            },
    {
        match cached {
            Some(fields) => BibrecStep::Known(fields),
            None => BibrecStep::Fetch(self.rdf_url(id)),
        }
    }

    /// How the outcome of the edition `record_id` is come by, `kept` being the one that is
    /// kept.
    pub fn compute_step<T>(&self, kept: Option<T>, record_id: &str) -> (r: ComputeStep<T>)
        ensures
            r@ == step_to_outcome(self.base_url@, kept, record_id@),
    {
        match kept {
            Some(o) => ComputeStep::Known(o),
            None => ComputeStep::Fetch(self.book_url(record_id)),
        }
    }

    /// The lines of the configuration page.
    pub fn config_schema(&self) -> (r: Vec<ConfigField>)
        ensures
            r@.len() == 1,
            r@[0].key@ == CONTACT_KEY@,
            r@[0].label@ == contact::CONTACT_LABEL@,
            r@[0].help@ == contact::CONTACT_HELP@,
    {
        vec![contact::contact_field()]
    }

    /// The values of the configuration page.
    pub fn config_values(&self) -> (r: Json)
        ensures
            r@ == contact::config_view(text::text_opt(self.contact)),
    {
        let named = match &self.contact {
            Some(c) => Some(c.as_str()),
            None => None,
        };
        contact::config_json(named)
    }
}

impl Default for GutenbergPlugin {
    fn default() -> (r: Self)
        ensures
            r.base_url@ == DEFAULT_BASE_URL@,
            r.rdf_base_url@ == DEFAULT_RDF_BASE_URL@,
            r.openlibrary_base_url is None,
            r.openlibrary_budget is None,
            r.contact is None,
            r.openlibrary is None,
    {
        GutenbergPlugin::new()
    }
}

// ---------------------------------------------------------------------------
// Laws
// ---------------------------------------------------------------------------
/// A query without words lists the catalogue: it sends no search at all, and never a
/// search for nothing. A query with words is searched for as it was typed, but for
/// the white space around it.
pub proof fn law_browse_sends_no_search(free_text: Seq<char>)
    ensures
        search_pairs(free_text).len() == 0 <==> text::is_blank(free_text),
        !text::is_blank(free_text) ==> search_pairs(free_text).len() == 1 && search_pairs(
            free_text,
        )[0].0 == "search"@ && search_pairs(free_text)[0].1 == text::trimmed(free_text)
            && search_pairs(free_text)[0].1.len() > 0,
{
}

/// The addresses of covers are aligned with the books, one for each, and each depends on
/// its own book and what is known of that book's cover alone.
pub proof fn law_covers_are_aligned(
    books: Seq<BookView>,
    lookups: Seq<CoverLookupView>,
    i: int,
)
    requires
        0 <= i < books.len(),
    ensures
        cover_addresses(books, lookups).len() == books.len(),
        cover_addresses(books, lookups)[i] == cover_addresses(
            seq![books[i]],
            seq![lookup_at(lookups, i)],
        )[0],
{
}

/// A cover that is downloaded is kept, and nothing else is: the address that is kept is
/// the one that was given, and gives the same address from then on, whatever is
/// downloaded. A download that fails is kept nowhere, and gives none.
pub proof fn law_covers_are_kept(book: BookView, lookup: CoverLookupView, later: Option<CoverView>)
    ensures
        match kept_cover(book, lookup) {
            Some(cover) => {
                &&& lookup.cached is None && lookup.fetched == Some(cover)
                &&& cover_address(book, lookup) == Some(cover.cid)
                &&& cover_address(
                    book,
                    CoverLookupView { cached: Some(cover.cid), fetched: later },
                ) == cover_address(book, lookup)
            },
            None => cover_address(book, lookup) == lookup.cached,
        },
        lookup.fetched is None ==> kept_cover(book, lookup) is None,
{
}

/// The fields of RDF documents are aligned with the books, one set for each, and each
/// depends on what is known of that book's document alone.
pub proof fn law_bibrecs_are_aligned(n: nat, lookups: Seq<BibrecLookupView>, i: int)
    requires
        0 <= i < n,
    ensures
        bibrec_lists(n, lookups).len() == n,
        bibrec_lists(n, lookups)[i] == bibrec_lists(1, seq![bibrec_lookup_at(lookups, i)])[0],
{
}

/// The outcome of an edition, once computed, is served again: its address is what is
/// kept, the next call sends nothing and gives that address, and what is kept for other
/// records stays.
pub proof fn law_outcome_is_served_again(
    base: Seq<char>,
    addresses: Map<Seq<char>, Seq<char>>,
    record_id: Seq<char>,
    outcome: HashOutcome,
    other: Seq<char>,
)
    ensures
        ({
            let after = addresses_after(addresses, kept_address(record_id, outcome));
            &&& step_to_outcome(base, address_in(after, record_id), record_id)
                == ComputeStepView::Known(outcome.hash@)
            &&& other != record_id ==> step_to_outcome(base, address_in(after, other), other)
                == step_to_outcome(base, address_in(addresses, other), other)
        }),
{
}

/// A trailing slash of the base URL makes no difference.
pub proof fn law_trailing_slashes(base: Seq<char>, record_id: Seq<char>, id: u64)
    ensures
        search_url(base.push('/')) == search_url(base),
        book_url_of(base.push('/'), record_id) == book_url_of(base, record_id),
        rdf_url_of(base.push('/'), id) == rdf_url_of(base, id),
{
    assert(base.push('/').drop_last() == base);
}

/// Where Gutendex and Project Gutenberg are asked: below the base, without the slashes at
/// its end, for the books, for the book `record_id`, and for the RDF document of the book
/// `id`.
pub proof fn law_urls(base: Seq<char>, record_id: Seq<char>, id: u64)
    requires
        base.len() == 0 || base.last() != '/',
    ensures
        search_url(base) == base + "/books/"@,
        book_url_of(base, record_id) == base + "/books/"@ + record_id,
        rdf_url_of(base, id) == base + "/cache/epub/"@ + text::decimal(id as nat) + "/pg"@
            + text::decimal(id as nat) + ".rdf"@,
        DEFAULT_BASE_URL@ == "https://gutendex.com"@,
        DEFAULT_RDF_BASE_URL@ == "https://www.gutenberg.org"@,
{
    text::law_without_trailing(base, '/');
    let r = text::without_trailing(base, '/');
    if r.len() < base.len() {
        assert(base[base.len() - 1] == '/');
    }
    assert(base.take(base.len() as int) =~= base);
}

/// A download counts where it reports success, which are the statuses from 200 to 299, and
/// its body could be read. Then the body is what was downloaded, whole.
pub proof fn law_downloads<T>(status: u16, body: Option<T>)
    ensures
        200 <= status <= 299 ==> body_in(Fetched::Response { status, body }) == body,
        status < 200 || status > 299 ==> body_in(Fetched::Response { status, body }) is None,
        body_in(Fetched::<T>::NoResponse) is None,
{
}

/// The fields of a book's RDF document are those that are kept, else those of the
/// download, and none where that failed.
pub proof fn law_bibrec_fields(
    kept: Map<Seq<char>, Seq<char>>,
    lookup: BibrecLookupView,
    xml: String,
)
    ensures
        bibrec_fields(BibrecLookupView { cached: Some(kept), ..lookup }) == kept,
        bibrec_fields(BibrecLookupView { cached: None, ..lookup }) == lookup.fetched,
        fields_in(Fetched::Response { status: 200, body: Some(xml) }) == rdf_fields(xml@),
        fields_in(Fetched::<String>::NoResponse) == Map::<Seq<char>, Seq<char>>::empty(),
{
}

/// A cover that is known is not fetched, and one that is fetched is that of the book.
pub proof fn law_cover_addresses(book: BookView, cid: Seq<char>, cover: CoverView)
    ensures
        cover_address(book, CoverLookupView { cached: Some(cid), fetched: Some(cover) }) == Some(
            cid,
        ),
        book.formats.contains_key("image/jpeg"@) ==> cover_address(
            book,
            CoverLookupView { cached: None, fetched: Some(cover) },
        ) == Some(cover.cid),
        !book.formats.contains_key("image/jpeg"@) ==> cover_address(
            book,
            CoverLookupView { cached: None, fetched: Some(cover) },
        ) is None,
        cover_address(book, CoverLookupView { cached: None, fetched: None }) is None,
{
}

/// An outcome that is kept is served, and one that is not is fetched from its book's URL.
pub proof fn law_steps_to_outcomes(base: Seq<char>, record_id: Seq<char>, kept: Seq<char>)
    ensures
        step_to_outcome(base, Some(kept), record_id) == ComputeStepView::Known(kept),
        step_to_outcome(base, None::<Seq<char>>, record_id)
            == ComputeStepView::<Seq<char>>::Fetch(book_url_of(base, record_id)),
{
}

/// How often a call is sent, and how long it and a download may take.
pub proof fn law_patience()
    ensures
        SEARCH_ATTEMPTS == 3,
        HTTP_TIMEOUT_SECS == 30,
        DOWNLOAD_TIMEOUT_SECS == 8,
{
}

/// Each book of a list has the cover that was looked up for it, at the same place, and one
/// for which nothing was looked up has none.
pub proof fn law_covers_of_a_list(books: Seq<BookView>, lookups: Seq<CoverLookupView>, i: int)
    requires
        0 <= i < books.len(),
    ensures
        i < lookups.len() ==> cover_addresses(books, lookups)[i] == cover_address(
            books[i],
            lookups[i],
        ),
        i >= lookups.len() ==> cover_addresses(books, lookups)[i] is None,
{
}

/// Each book of a list has the fields that were looked up for it, at the same place, and
/// one for which nothing was looked up has none.
pub proof fn law_bibrecs_of_a_list(n: nat, lookups: Seq<BibrecLookupView>, i: int)
    requires
        0 <= i < n,
    ensures
        i < lookups.len() ==> bibrec_lists(n, lookups)[i] == bibrec_fields(lookups[i]),
        i >= lookups.len() ==> bibrec_lists(n, lookups)[i] == Map::<Seq<char>, Seq<char>>::empty(),
{
}

} // verus!

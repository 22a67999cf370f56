//! The Open Library client: what is asked of it, and how its answers are read.
//!
//! Used by both upstreams: the `openlibrary` cards (search, trending, new works,
//! work lookups) and the `gutenberg` editions (the link from an etext to its work).
//! `search.json` answers `{numFound, docs}`, `/trending/daily.json` answers
//! `{works}` with the same shape of documents, and the `description` of a work is
//! either a string or `{type: "/type/text", value}`.
use crate::json::{self, Json, JsonView};
use crate::text;
use vstd::prelude::*;

pub use crate::contact::{
    budget, contact_dirs, contact_field, env_contact, load_contact, sanitize_contact, user_agent,
    ContactDir,
};
pub use crate::lookup::OpenLibraryClient;

verus! {

/// The public Open Library.
pub const DEFAULT_API_BASE: &'static str = "https://openlibrary.org";

/// Where cover images are served.
pub const COVERS_BASE: &'static str = "https://covers.openlibrary.org/b/id";

/// The configuration key of the operator's contact.
pub const CONTACT_KEY: &'static str = "contact";

/// The environment variable that seeds the contact.
pub const CONTACT_ENV: &'static str = "OPENLIBRARY_CONTACT";

/// The version that the `User-Agent` names.
pub const VERSION: &'static str = "0.1.0";

/// How many seconds a search waits for a lease of the rate budget: someone is
/// watching it.
pub const SEARCH_DEADLINE: u64 = 20;

/// How many seconds a browse row waits for a lease.
pub const BROWSE_DEADLINE: u64 = 5;

/// How many seconds the lookup of an edition's work waits for a lease. It must not
/// make an edition late that is already in hand.
pub const BINDING_DEADLINE: u64 = 2;

/// How many seconds one upstream call may take.
pub const HTTP_TIMEOUT_SECS: u64 = 20;

/// How often a call is sent that gets no response.
pub const SEND_ATTEMPTS: usize = 2;

/// The fields that every request for documents asks for, so that a card found by
/// search and the same card found by its id are the same.
pub const SEARCH_FIELDS: &'static str = "key,title,author_name,cover_i,first_publish_year,language";

/// The length of a day in seconds.
pub const DAY: u64 = 86_400;

/// Works and author names are edited rarely.
pub const WORK_TTL_SECS: u64 = 30 * DAY;

pub const SEARCH_TTL_SECS: u64 = DAY;

pub const BROWSE_TTL_SECS: u64 = 6 * 3600;

/// The link from an etext to a work is checked again every month.
pub const BINDING_HIT_TTL_SECS: u64 = 30 * DAY;

/// A missing link is checked again every week.
pub const BINDING_MISS_TTL_SECS: u64 = 7 * DAY;

/// How many authors of a work are looked up one by one.
pub const MAX_AUTHORS: usize = 4;

// ---------------------------------------------------------------------------
// Work ids
// ---------------------------------------------------------------------------
/// `OL`, decimal digits, `W`: the id of a work. An edition's ends in `M`, an
/// author's in `A`.
pub open spec fn names_work(s: Seq<char>) -> bool {
    &&& s.len() > 3
    &&& s[0] == 'O'
    &&& s[1] == 'L'
    &&& s.last() == 'W'
    &&& text::all_digits(s.subrange(2, s.len() - 1))
}

/// Whether `s` is a bare Open Library work id, such as `OL66554W`.
pub fn is_work_id(s: &str) -> (r: bool)
    ensures
        r == names_work(s@),
{
    let v = text::chars_of(s);
    let n: usize = v.len();
    if n <= 3 || v[0] != 'O' || v[1] != 'L' || v[n - 1] != 'W' {
        return false;
    }
    let ghost middle = s@.subrange(2, s@.len() - 1);
    let mut i: usize = 2;
    while i < n - 1
        invariant
            n == v@.len(),
            v@ == s@,
            3 < n,
            2 <= i <= n - 1,
            middle == s@.subrange(2, s@.len() - 1),
            forall|k: int| 0 <= k < i - 2 ==> text::is_digit(#[trigger] middle[k]),
        decreases n - i,
    {
        assert(v@[i as int] == middle[i - 2]);
        if !('0' <= v[i] && v[i] <= '9') {
            return false;
        }
        i += 1;
    }
    true
}

/// The work that the path `/works/OL...W` names.
pub open spec fn work_of_path(path: Seq<char>) -> Option<Seq<char>> {
    match text::after_prefix(path, "/works/"@) {
        Some(id) => if names_work(id) {
            Some(id)
        } else {
            None
        },
        None => None,
    }
}

/// The work that the path `/works/OL...W` names.
pub fn work_in_path(path: &str) -> (r: Option<&str>)
    ensures
        text::str_opt(r) == work_of_path(path@),
{
    match text::strip_prefix(path, "/works/") {
        Some(id) => if is_work_id(id) {
            Some(id)
        } else {
            None
        },
        None => None,
    }
}

// ---------------------------------------------------------------------------
// Documents
// ---------------------------------------------------------------------------
/// One document of a search, as far as it is read. Nothing in it changes unless
/// the work does.
#[derive(Debug, Clone, Default)]
pub struct SearchDoc {
    pub key: String,
    pub title: Option<String>,
    pub author_name: Vec<String>,
    pub cover_i: Option<i64>,
    pub first_publish_year: Option<i32>,
    pub id_project_gutenberg: Vec<String>,
}

/// What a [`SearchDoc`] says.
#[verifier::ext_equal]
pub ghost struct SearchDocView {
    pub key: Seq<char>,
    pub title: Option<Seq<char>>,
    pub author_name: Seq<Seq<char>>,
    pub cover_i: Option<i64>,
    pub first_publish_year: Option<i32>,
    pub id_project_gutenberg: Seq<Seq<char>>,
}

impl View for SearchDoc {
    type V = SearchDocView;

    open spec fn view(&self) -> SearchDocView {
        SearchDocView {
            key: self.key@,
            title: text::text_opt(self.title),
            author_name: text::texts(self.author_name@),
            cover_i: self.cover_i,
            first_publish_year: self.first_publish_year,
            id_project_gutenberg: text::texts(self.id_project_gutenberg@),
        }
    }
}

pub open spec fn doc_views(list: Seq<SearchDoc>) -> Seq<SearchDocView> {
    list.map_values(|d: SearchDoc| d@)
}

pub open spec fn doc_opt(d: Option<SearchDoc>) -> Option<SearchDocView> {
    match d {
        Some(d) => Some(d@),
        None => None,
    }
}

impl SearchDocView {
    /// The bare id of the work, where the key names one.
    pub open spec fn work_id(self) -> Option<Seq<char>> {
        work_of_path(self.key)
    }

    /// Where the large cover image is.
    pub open spec fn cover_url(self) -> Option<Seq<char>> {
        match self.cover_i {
            Some(c) => if c > 0 {
                Some(COVERS_BASE@ + "/"@ + text::decimal(c as nat) + "-L.jpg"@)
            } else {
                None
            },
            None => None,
        }
    }
}

impl SearchDoc {
    /// The bare id of the work, where the key names one.
    pub fn work_id(&self) -> (r: Option<&str>)
        ensures
            text::str_opt(r) == self@.work_id(),
    {
        work_in_path(self.key.as_str())
    }

    /// Where the large cover image is. A cover number that is not positive stands
    /// for no cover.
    pub fn cover_url(&self) -> (r: Option<String>)
        ensures
            text::text_opt(r) == self@.cover_url(),
    {
        match self.cover_i {
            Some(c) => if c > 0 {
                let number = text::decimal_of(c as u64);
                let mut url = COVERS_BASE.to_owned();
                url.append("/");
                url.append(number.as_str());
                url.append("-L.jpg");
                Some(url)
            } else {
                None
            },
            None => None,
        }
    }
}

// ---------------------------------------------------------------------------
// Reading documents
// ---------------------------------------------------------------------------
/// How many fields a document has.
pub const DOC_FIELDS: usize = 6;

/// A document's field: by its name in an object, by its place in an array.
pub open spec fn doc_field(doc: JsonView, name: Seq<char>, place: int) -> Option<JsonView> {
    match doc {
        JsonView::Array(items) => if 0 <= place < items.len() {
            Some(items[place])
        } else {
            None
        },
        _ => doc.member(name),
    }
}

/// A text; empty where it is left out.
pub open spec fn text_field(v: Option<JsonView>) -> Option<Seq<char>> {
    match v {
        None => Some(Seq::empty()),
        Some(v) => v.text(),
    }
}

/// A text that may be left out or be null.
pub open spec fn optional_text(v: Option<JsonView>) -> Option<Option<Seq<char>>> {
    match v {
        None => Some(None),
        Some(JsonView::Null) => Some(None),
        Some(JsonView::Text(s)) => Some(Some(s)),
        Some(_) => None,
    }
}

/// An integer that may be left out or be null.
pub open spec fn optional_number(v: Option<JsonView>) -> Option<Option<i64>> {
    match v {
        None => Some(None),
        Some(JsonView::Null) => Some(None),
        Some(v) => match v.signed() {
            Some(n) => Some(Some(n)),
            None => None,
        },
    }
}

/// A 32-bit integer that may be left out or be null.
pub open spec fn optional_year(v: Option<JsonView>) -> Option<Option<i32>> {
    match optional_number(v) {
        Some(Some(n)) => if i32::MIN <= n <= i32::MAX {
            Some(Some(n as i32))
        } else {
            None
        },
        Some(None) => Some(None),
        None => None,
    }
}

/// The texts of `items`, where each of them is a text.
pub open spec fn all_texts(items: Seq<JsonView>) -> Option<Seq<Seq<char>>> {
    if forall|i: int| 0 <= i < items.len() ==> (#[trigger] items[i]) is Text {
        Some(items.map_values(|v: JsonView| v->Text_0))
    } else {
        None
    }
}

/// A list of texts; empty where it is left out.
pub open spec fn text_list(v: Option<JsonView>) -> Option<Seq<Seq<char>>> {
    match v {
        None => Some(Seq::empty()),
        Some(JsonView::Array(items)) => all_texts(items),
        Some(_) => None,
    }
}

/// The document that a JSON value writes. A field of another type than its own
/// makes the whole value no document; members with other names are passed over.
pub open spec fn doc_in(v: JsonView) -> Option<SearchDocView> {
    let shaped = match v {
        JsonView::Object(_) => true,
        JsonView::Array(items) => items.len() <= DOC_FIELDS,
        _ => false,
    };
    let key = text_field(doc_field(v, "key"@, 0));
    let title = optional_text(doc_field(v, "title"@, 1));
    let author_name = text_list(doc_field(v, "author_name"@, 2));
    let cover_i = optional_number(doc_field(v, "cover_i"@, 3));
    let first_publish_year = optional_year(doc_field(v, "first_publish_year"@, 4));
    let id_project_gutenberg = text_list(doc_field(v, "id_project_gutenberg"@, 5));
    if shaped && key is Some && title is Some && author_name is Some && cover_i is Some
        && first_publish_year is Some && id_project_gutenberg is Some {
        Some(
            SearchDocView {
                key: key->0,
                title: title->0,
                author_name: author_name->0,
                cover_i: cover_i->0,
                first_publish_year: first_publish_year->0,
                id_project_gutenberg: id_project_gutenberg->0,
            },
        )
    } else {
        None
    }
}

/// The documents among `items`, in order.
pub open spec fn docs_among(items: Seq<JsonView>) -> Seq<SearchDocView>
    decreases items.len(),
{
    if items.len() == 0 {
        Seq::empty()
    } else {
        let init = docs_among(items.drop_last());
        match doc_in(items.last()) {
            Some(d) => init.push(d),
            None => init,
        }
    }
}

fn read_field<'a>(doc: &'a Json, name: &str, place: usize) -> (r: Option<&'a Json>)
    ensures
        json::json_opt(r) == doc_field(doc@, name@, place as int),
{
    match doc.as_array() {
        Some(items) => if place < items.len() {
            Some(&items[place])
        } else {
            None
        },
        None => doc.get(name),
    }
}

fn read_text(v: Option<&Json>) -> (r: Option<String>)
    ensures
        text::text_opt(r) == text_field(json::json_opt(v)),
{
    match v {
        None => Some(String::new()),
        Some(v) => match v.as_str() {
            Some(s) => Some(s.to_owned()),
            None => None,
        },
    }
}

fn read_optional_text(v: Option<&Json>) -> (r: Option<Option<String>>)
    ensures
        match r {
            Some(t) => optional_text(json::json_opt(v)) == Some(text::text_opt(t)),
            None => optional_text(json::json_opt(v)) is None,
        },
{
    match v {
        None => Some(None),
        Some(Json::Null) => Some(None),
        Some(Json::Text(s)) => Some(Some(s.clone())),
        Some(_) => None,
    }
}

fn read_optional_number(v: Option<&Json>) -> (r: Option<Option<i64>>)
    ensures
        r == optional_number(json::json_opt(v)),
{
    match v {
        None => Some(None),
        Some(Json::Null) => Some(None),
        Some(v) => match v.as_i64() {
            Some(n) => Some(Some(n)),
            None => None,
        },
    }
}

fn read_optional_year(v: Option<&Json>) -> (r: Option<Option<i32>>)
    ensures
        r == optional_year(json::json_opt(v)),
{
    match read_optional_number(v) {
        Some(Some(n)) => if -2147483648 <= n && n <= 2147483647 {
            Some(Some(n as i32))
        } else {
            None
        },
        Some(None) => Some(None),
        None => None,
    }
}

fn read_text_list(v: Option<&Json>) -> (r: Option<Vec<String>>)
    ensures
        match r {
            Some(list) => text_list(json::json_opt(v)) == Some(text::texts(list@)),
            None => text_list(json::json_opt(v)) is None,
        },
{
    let mut out: Vec<String> = Vec::new();
    let value = match v {
        None => {
            assert(text::texts(out@) =~= Seq::empty());
            return Some(out);
        },
        Some(v) => v,
    };
    let items = match value.as_array() {
        Some(items) => items,
        None => {
            return None;
        },
    };
    let ghost all = json::views(items@);
    let mut i: usize = 0;
    while i < items.len()
        invariant
            i <= items@.len(),
            all == json::views(items@),
            out@.len() == i,
            forall|k: int|
                0 <= k < i ==> (#[trigger] all[k]) is Text && out@[k]@ == all[k]->Text_0,
            text_list(json::json_opt(v)) == all_texts(all),
        decreases items@.len() - i,
    {
        assert(all[i as int] == items@[i as int]@);
        match items[i].as_str() {
            Some(s) => out.push(s.to_owned()),
            None => {
                assert(!(all[i as int] is Text));
                return None;
            },
        }
        i += 1;
    }
    assert(text::texts(out@) =~= all.map_values(|v: JsonView| v->Text_0));
    Some(out)
}

impl SearchDoc {
    /// The document that `v` writes, if it writes one.
    pub fn from_json(v: &Json) -> (r: Option<SearchDoc>)
        ensures
            doc_opt(r) == doc_in(v@),
    {
        proof {
            v.lemma_view();
        }
        let shaped = match v {
            Json::Object(_) => true,
            Json::Array(items) => items.len() <= DOC_FIELDS,
            _ => false,
        };
        let key = read_text(read_field(v, "key", 0));
        let title = read_optional_text(read_field(v, "title", 1));
        let author_name = read_text_list(read_field(v, "author_name", 2));
        let cover_i = read_optional_number(read_field(v, "cover_i", 3));
        let first_publish_year = read_optional_year(read_field(v, "first_publish_year", 4));
        let id_project_gutenberg = read_text_list(read_field(v, "id_project_gutenberg", 5));
        if !shaped {
            return None;
        }
        match (key, title, author_name, cover_i, first_publish_year, id_project_gutenberg) {
            (Some(key), Some(title), Some(author_name), Some(cover_i), Some(
                first_publish_year,
            ), Some(id_project_gutenberg)) => Some(
                SearchDoc {
                    key,
                    title,
                    author_name,
                    cover_i,
                    first_publish_year,
                    id_project_gutenberg,
                },
            ),
            _ => None,
        }
    }
}

/// The documents of a list. What is no document is passed over, and what is no
/// list has none.
pub fn parse_docs(v: Option<&Json>) -> (r: Vec<SearchDoc>)
    ensures
        doc_views(r@) == docs_among(json::items_of(json::json_opt(v))),
{
    let mut out: Vec<SearchDoc> = Vec::new();
    assert(doc_views(out@) =~= Seq::empty());
    let v = match v {
        Some(v) => v,
        None => {
            return out;
        },
    };
    let items = match v.as_array() {
        Some(items) => items,
        None => {
            return out;
        },
    };
    let ghost all = json::views(items@);
    let mut i: usize = 0;
    while i < items.len()
        invariant
            i <= items@.len(),
            all == json::views(items@),
            doc_views(out@) == docs_among(all.take(i as int)),
        decreases items@.len() - i,
    {
        assert(all.take(i + 1).drop_last() == all.take(i as int));
        assert(all.take(i + 1).last() == items@[i as int]@);
        let ghost before = out@;
        if let Some(d) = SearchDoc::from_json(&items[i]) {
            out.push(d);
            assert(doc_views(out@) =~= doc_views(before).push(d@));
        }
        i += 1;
    }
    assert(all.take(all.len() as int) == all);
    out
}

// ---------------------------------------------------------------------------
// The work of an etext
// ---------------------------------------------------------------------------
/// How many works an answer says there are; as many as it lists, where it does
/// not say.
pub open spec fn total_found(body: JsonView) -> u64 {
    let said = match body.member("numFound"@) {
        Some(v) => Some(v),
        None => body.member("num_found"@),
    };
    match said {
        Some(v) => match v.unsigned() {
            Some(n) => n,
            None => docs_among(json::items_of(body.member("docs"@))).len() as u64,
        },
        None => docs_among(json::items_of(body.member("docs"@))).len() as u64,
    }
}

/// `doc` itself lists the etext `gutenberg_id`.
pub open spec fn lists_etext(doc: SearchDocView, gutenberg_id: u64) -> bool {
    exists|i: int|
        0 <= i < doc.id_project_gutenberg.len() && text::trimmed(
            #[trigger] doc.id_project_gutenberg[i],
        ) == text::decimal(gutenberg_id as nat)
}

/// The one work that an answer links to the etext `gutenberg_id`.
pub open spec fn binding_in(body: JsonView, gutenberg_id: u64) -> Option<Seq<char>> {
    let docs = docs_among(json::items_of(body.member("docs"@)));
    if docs.len() == 1 && total_found(body) == 1 && lists_etext(docs[0], gutenberg_id) {
        docs[0].work_id()
    } else {
        None
    }
}

fn lists(doc: &SearchDoc, gutenberg_id: u64) -> (r: bool)
    ensures
        r == lists_etext(doc@, gutenberg_id),
{
    let wanted = text::decimal_of(gutenberg_id);
    let mut i: usize = 0;
    while i < doc.id_project_gutenberg.len()
        invariant
            i <= doc.id_project_gutenberg@.len(),
            wanted@ == text::decimal(gutenberg_id as nat),
            forall|k: int|
                0 <= k < i ==> text::trimmed(#[trigger] doc@.id_project_gutenberg[k]) != wanted@,
        decreases doc.id_project_gutenberg@.len() - i,
    {
        let g = text::trim(doc.id_project_gutenberg[i].as_str());
        assert(doc@.id_project_gutenberg[i as int] == doc.id_project_gutenberg@[i as int]@);
        if text::same(g, wanted.as_str()) {
            return true;
        }
        i += 1;
    }
    false
}

/// Decides the link from an etext to its work from the answer to
/// `q=id_project_gutenberg:<id>`. There is one only where exactly one work was
/// found, that work lists the etext itself, and its key is a work's.
pub fn single_gutenberg_work(body: &Json, gutenberg_id: u64) -> (r: Option<String>)
    ensures
        text::text_opt(r) == binding_in(body@, gutenberg_id),
{
    let docs = parse_docs(body.get("docs"));
    let said = match body.get("numFound") {
        Some(v) => Some(v),
        None => body.get("num_found"),
    };
    let total: u64 = match said {
        Some(v) => match v.as_u64() {
            Some(n) => n,
            None => docs.len() as u64,
        },
        None => docs.len() as u64,
    };
    assert(doc_views(docs@).len() == docs@.len());
    if total != 1 || docs.len() != 1 {
        return None;
    }
    assert(doc_views(docs@)[0] == docs@[0]@);
    if !lists(&docs[0], gutenberg_id) {
        return None;
    }
    match docs[0].work_id() {
        Some(id) => Some(id.to_owned()),
        None => None,
    }
}

// ---------------------------------------------------------------------------
// Descriptions
// ---------------------------------------------------------------------------
/// What a work JSON contributes to a card.
#[derive(Debug, Clone)]
pub struct WorkText {
    /// The id under which the work is kept, which is another than the one asked for
    /// where that one was merged away.
    pub id: String,
    pub description: Option<String>,
}

/// The text of a field that is either `"..."` or `{"value": "..."}`.
pub open spec fn plain_text(v: Option<JsonView>) -> Option<Seq<char>> {
    match v {
        Some(JsonView::Text(s)) => Some(s),
        Some(v) => json::text_of(v.member("value"@)),
        None => None,
    }
}

/// The text of a field that is either `"..."` or `{"value": "..."}`.
pub fn text_value(v: Option<&Json>) -> (r: Option<String>)
    ensures
        text::text_opt(r) == plain_text(json::json_opt(v)),
{
    match v {
        Some(Json::Text(s)) => Some(s.clone()),
        Some(v) => match json::text_member(v, "value") {
            Some(s) => Some(s.to_owned()),
            None => None,
        },
        None => None,
    }
}

/// `s` with `\r\n` and `\r` made `\n`.
pub open spec fn unix_lines(s: Seq<char>) -> Seq<char> {
    text::replaced(text::replaced(s, "\r\n"@, "\n"@), "\r"@, "\n"@)
}

/// The synopsis in a description: what stands before the first line, but for the text's
/// own first, that begins with `----`, trimmed, where anything does.
pub open spec fn synopsis(raw: Seq<char>) -> Option<Seq<char>> {
    let body = text::trimmed(text::before(unix_lines(raw), "\n----"@));
    if body.len() == 0 {
        None
    } else {
        Some(body)
    }
}

/// The synopsis in a description, with Unix line ends. The rule `----` and the
/// list of links that follows it are no part of it.
pub fn clean_description(raw: &str) -> (r: Option<String>)
    ensures
        text::text_opt(r) == synopsis(raw@),
{
    proof {
        reveal_strlit("\r\n");
        reveal_strlit("\r");
    }
    let newline = text::chars_of("\n");
    let v = text::chars_of(raw);
    let crlf = text::chars_of("\r\n");
    let cr = text::chars_of("\r");
    let v = text::replace(v.as_slice(), crlf.as_slice(), newline.as_slice());
    let v = text::replace(v.as_slice(), cr.as_slice(), newline.as_slice());
    let rule = text::chars_of("\n----");
    let whole = text::string_of(v.as_slice());
    let end: usize = match text::find_from(v.as_slice(), rule.as_slice(), 0) {
        Some(i) => i,
        None => v.len(),
    };
    proof {
        text::lemma_position_from(v@, rule@, 0);
    }
    let head = whole.as_str().substring_char(0, end);
    assert(head@ =~= text::before(unix_lines(raw@), "\n----"@));
    let body = text::trim(head);
    if body.is_empty() {
        None
    } else {
        Some(body.to_owned())
    }
}

// ---------------------------------------------------------------------------
// Laws
// ---------------------------------------------------------------------------
/// An etext is linked to a work only where Open Library itself records it: exactly one
/// work was found, the answer lists exactly that one, and it lists the etext. What is
/// linked is a work's id, and never an edition's.
pub proof fn law_binding(body: JsonView, gutenberg_id: u64)
    ensures
        binding_in(body, gutenberg_id) matches Some(work) ==> {
            let docs = docs_among(json::items_of(body.member("docs"@)));
            &&& names_work(work)
            &&& total_found(body) == 1
            &&& docs.len() == 1
            &&& docs[0].key == "/works/"@ + work
            &&& lists_etext(docs[0], gutenberg_id)
        },
{
    match binding_in(body, gutenberg_id) {
        Some(work) => {
            let doc = docs_among(json::items_of(body.member("docs"@)))[0];
            assert(doc.key =~= "/works/"@ + work) by {
                assert(doc.key.take("/works/"@.len() as int) == "/works/"@);
            }
        },
        None => {},
    }
}

/// A work id is told from an edition's and an author's by its last letter.
pub proof fn law_work_ids(id: Seq<char>)
    ensures
        names_work(id) ==> id.last() != 'M' && id.last() != 'A',
        names_work(id) ==> work_of_path("/works/"@ + id) == Some(id),
        names_work(id) ==> !names_work("/works/"@ + id),
{
    let path = "/works/"@ + id;
    reveal_strlit("/works/");
    assert(path.take("/works/"@.len() as int) =~= "/works/"@);
    assert(path.skip("/works/"@.len() as int) =~= id);
    assert(path[0] == '/');
}

proof fn lemma_replaced_char(s: Seq<char>, from: Seq<char>, to: Seq<char>, c: char)
    requires
        from == seq![c],
        !to.contains(c),
    ensures
        !text::replaced(s, from, to).contains(c),
    decreases s.len(),
{
    let r = text::replaced(s, from, to);
    if s.len() > 0 {
        if text::has_prefix(s, from) {
            let rest = text::replaced(s.skip(1), from, to);
            lemma_replaced_char(s.skip(1), from, to, c);
            assert(r == to + rest);
            if r.contains(c) {
                let i = r.index_of(c);
                if i < to.len() {
                    assert(to[i] == c);
                } else {
                    assert(rest[i - to.len()] == c);
                }
            }
        } else {
            let rest = text::replaced(s.skip(1), from, to);
            lemma_replaced_char(s.skip(1), from, to, c);
            assert(s[0] != c) by {
                if s[0] == c {
                    assert(s.take(1) =~= from);
                }
            }
            if r.contains(c) {
                let i = r.index_of(c);
                if i > 0 {
                    assert(rest[i - 1] == c);
                }
            }
        }
    }
}

/// A synopsis is not empty, is not padded, has no carriage return, and holds no line
/// that begins with the rule `----` but perhaps its first.
pub proof fn law_synopsis(raw: Seq<char>)
    ensures
        synopsis(raw) matches Some(t) ==> {
            &&& t.len() > 0
            &&& text::trimmed(t) == t
            &&& !t.contains('\r')
            &&& !text::has_part(t, "\n----"@)
        },
{
    let lines = unix_lines(raw);
    let rule = "\n----"@;
    let head = text::before(lines, rule);
    let t = text::trimmed(head);
    reveal_strlit("\r");
    reveal_strlit("\n");
    assert("\r"@ =~= seq!['\r']);
    lemma_replaced_char(text::replaced(raw, "\r\n"@, "\n"@), "\r"@, "\n"@, '\r');
    text::lemma_position_from(lines, rule, 0);
    text::law_trimmed(head);
    let b = choose|b: int| #[trigger]
        text::occurs_at(head, t, b) && (forall|i: int|
            0 <= i < b || b + t.len() <= i < head.len() ==> text::is_space(#[trigger] head[i]));
    assert(head == head.take(head.len() as int));
    if t.contains('\r') {
        let i = t.index_of('\r');
        assert(head.subrange(b, b + t.len())[i] == head[b + i]);
        assert(lines[b + i] == '\r');
    }
    if text::has_part(t, rule) {
        let i = choose|i: int| text::occurs_at(t, rule, i);
        let x = lines.subrange(b + i, b + i + rule.len());
        let y = t.subrange(i, i + rule.len());
        assert forall|k: int| 0 <= k < rule.len() implies #[trigger] x[k] == y[k] by {
            assert(head.subrange(b, b + t.len())[i + k] == head[b + i + k]);
        }
        assert(x =~= y);
        assert(text::occurs_at(lines, rule, b + i));
        reveal_strlit("\n----");
    }
}

/// A work id is `OL`, decimal digits and `W`, however many digits there are.
pub proof fn law_work_id_form(s: Seq<char>, digits: Seq<char>)
    ensures
        digits.len() > 0 && text::all_digits(digits) ==> names_work("OL"@ + digits + "W"@),
        names_work(s) ==> {
            let middle = s.subrange(2, s.len() - 1);
            middle.len() > 0 && text::all_digits(middle) && s == "OL"@ + middle + "W"@
        },
{
    reveal_strlit("OL");
    reveal_strlit("W");
    if digits.len() > 0 && text::all_digits(digits) {
        let id = "OL"@ + digits + "W"@;
        assert(id.subrange(2, id.len() - 1) =~= digits);
    }
    if names_work(s) {
        assert(s =~= "OL"@ + s.subrange(2, s.len() - 1) + "W"@);
    }
}

/// A path names a work exactly where it is `/works/` and a work id.
pub proof fn law_work_path(path: Seq<char>, id: Seq<char>)
    ensures
        work_of_path(path) matches Some(w) ==> names_work(w) && path == "/works/"@ + w,
        work_of_path("/works/"@ + id) == if names_work(id) {
            Some(id)
        } else {
            None
        },
{
    text::law_prefix(path, "/works/"@, id);
}

/// A document has a cover exactly where its cover number is positive, and the cover is the
/// large image of that number.
pub proof fn law_cover_url(doc: SearchDocView)
    ensures
        doc.cover_url() is Some <==> doc.cover_i is Some && doc.cover_i->0 > 0,
        doc.cover_url() is Some ==> doc.cover_url()->0 == "https://covers.openlibrary.org/b/id/"@
            + text::decimal(doc.cover_i->0 as nat) + "-L.jpg"@,
{
    reveal_strlit("https://covers.openlibrary.org/b/id/");
    reveal_strlit("https://covers.openlibrary.org/b/id");
    reveal_strlit("/");
    assert(COVERS_BASE@ + "/"@ =~= "https://covers.openlibrary.org/b/id/"@);
}

/// A list of texts, as JSON.
pub open spec fn written_texts(list: Seq<Seq<char>>) -> JsonView {
    JsonView::Array(list.map_values(|s: Seq<char>| JsonView::Text(s)))
}

/// A number that may be absent, as JSON.
pub open spec fn written_number(n: Option<i64>) -> JsonView {
    match n {
        Some(n) => JsonView::Number {
            unsigned: if n >= 0 {
                Some(n as u64)
            } else {
                None
            },
            signed: Some(n),
        },
        None => JsonView::Null,
    }
}

/// A document, as Open Library writes one.
pub open spec fn written_doc(doc: SearchDocView) -> Seq<(Seq<char>, JsonView)> {
    seq![
        ("key"@, JsonView::Text(doc.key)),
        (
            "title"@,
            match doc.title {
                Some(t) => JsonView::Text(t),
                None => JsonView::Null,
            },
        ),
        ("author_name"@, written_texts(doc.author_name)),
        ("cover_i"@, written_number(doc.cover_i)),
        (
            "first_publish_year"@,
            written_number(
                match doc.first_publish_year {
                    Some(y) => Some(y as i64),
                    None => None,
                },
            ),
        ),
        ("id_project_gutenberg"@, written_texts(doc.id_project_gutenberg)),
    ]
}

proof fn lemma_reveal_doc_names()
    ensures
        "key"@.len() == 3,
        "title"@.len() == 5,
        "author_name"@.len() == 11,
        "cover_i"@.len() == 7,
        "first_publish_year"@.len() == 18,
        "id_project_gutenberg"@.len() == 20,
{
    reveal_strlit("key");
    reveal_strlit("title");
    reveal_strlit("author_name");
    reveal_strlit("cover_i");
    reveal_strlit("first_publish_year");
    reveal_strlit("id_project_gutenberg");
}

proof fn lemma_written_texts(list: Seq<Seq<char>>)
    ensures
        text_list(Some(written_texts(list))) == Some(list),
{
    let items = list.map_values(|s: Seq<char>| JsonView::Text(s));
    assert forall|i: int| 0 <= i < items.len() implies (#[trigger] items[i]) is Text by {
        assert(items[i] == JsonView::Text(list[i]));
    }
    assert(items.map_values(|v: JsonView| v->Text_0) =~= list);
}

/// A document that Open Library writes is read as it was written, whatever it says, and
/// whatever else stands with it under other names. A list in the order of the fields is
/// read alike.
pub proof fn law_document_reads_back(
    doc: SearchDocView,
    members: Seq<(Seq<char>, JsonView)>,
    other: Seq<char>,
    value: JsonView,
)
    requires
        other != "key"@,
        other != "title"@,
        other != "author_name"@,
        other != "cover_i"@,
        other != "first_publish_year"@,
        other != "id_project_gutenberg"@,
    ensures
        doc_in(JsonView::Object(written_doc(doc))) == Some(doc),
        doc_in(JsonView::Object(seq![(other, value)] + members)) == doc_in(
            JsonView::Object(members),
        ),
        doc_in(
            JsonView::Array(written_doc(doc).map_values(|m: (Seq<char>, JsonView)| m.1)),
        ) == Some(doc),
{
    let w = written_doc(doc);
    lemma_reveal_doc_names();
    lemma_written_texts(doc.author_name);
    lemma_written_texts(doc.id_project_gutenberg);
    lemma_first_members(w);
    json::law_member_in_front(members, other, value, "key"@);
    json::law_member_in_front(members, other, value, "title"@);
    json::law_member_in_front(members, other, value, "author_name"@);
    json::law_member_in_front(members, other, value, "cover_i"@);
    json::law_member_in_front(members, other, value, "first_publish_year"@);
    json::law_member_in_front(members, other, value, "id_project_gutenberg"@);
    let v = JsonView::Object(w);
    assert(v.member("key"@) == Some(w[0].1));
    assert(v.member("title"@) == Some(w[1].1));
    assert(v.member("author_name"@) == Some(w[2].1));
    assert(v.member("cover_i"@) == Some(w[3].1));
    assert(v.member("first_publish_year"@) == Some(w[4].1));
    assert(v.member("id_project_gutenberg"@) == Some(w[5].1));
    assert(doc_in(v)->0 =~= doc);
    let items = w.map_values(|m: (Seq<char>, JsonView)| m.1);
    let a = JsonView::Array(items);
    assert(items.len() == 6);
    assert(items[0] == w[0].1 && items[1] == w[1].1 && items[2] == w[2].1 && items[3] == w[3].1
        && items[4] == w[4].1 && items[5] == w[5].1);
    assert(doc_in(a)->0 =~= doc);
}

/// The members of an object of six different names.
proof fn lemma_first_members(w: Seq<(Seq<char>, JsonView)>)
    requires
        w.len() == 6,
        w[0].0.len() == 3,
        w[1].0.len() == 5,
        w[2].0.len() == 11,
        w[3].0.len() == 7,
        w[4].0.len() == 18,
        w[5].0.len() == 20,
    ensures
        json::first_member(w, w[0].0) == Some(w[0].1),
        json::first_member(w, w[1].0) == Some(w[1].1),
        json::first_member(w, w[2].0) == Some(w[2].1),
        json::first_member(w, w[3].0) == Some(w[3].1),
        json::first_member(w, w[4].0) == Some(w[4].1),
        json::first_member(w, w[5].0) == Some(w[5].1),
{
    reveal_with_fuel(json::first_member, 7);
}

/// The texts of a list that is left out are none.
pub open spec fn is_text_list(v: Option<JsonView>, list: Seq<Seq<char>>) -> bool {
    match v {
        None => list.len() == 0,
        Some(JsonView::Array(items)) => items.len() == list.len() && forall|i: int|
            0 <= i < items.len() ==> #[trigger] items[i] == JsonView::Text(list[i]),
        Some(_) => false,
    }
}

/// Each field of a document is read from the member of its name: the key and the lists may
/// be left out, the others may also be null. An object writes a document exactly where
/// each of its fields can be read, and what is neither an object nor a list writes none.
pub proof fn law_document_fields(v: JsonView, d: SearchDocView)
    ensures
        v is Object ==> (doc_in(v) == Some(d) <==> {
            let key = v.member("key"@);
            let title = v.member("title"@);
            let cover = v.member("cover_i"@);
            let year = v.member("first_publish_year"@);
            &&& match key {
                None => d.key.len() == 0,
                Some(k) => k == JsonView::Text(d.key),
            }
            &&& match d.title {
                None => title is None || title->0 is Null,
                Some(t) => title == Some(JsonView::Text(t)),
            }
            &&& is_text_list(v.member("author_name"@), d.author_name)
            &&& match d.cover_i {
                None => cover is None || cover->0 is Null,
                Some(n) => cover is Some && cover->0.signed() == Some(n),
            }
            &&& match d.first_publish_year {
                None => year is None || year->0 is Null,
                Some(y) => year is Some && year->0.signed() == Some(y as i64),
            }
            &&& is_text_list(v.member("id_project_gutenberg"@), d.id_project_gutenberg)
        }),
        !(v is Object) && !(v is Array) ==> doc_in(v) is None,
        v is Array && v->Array_0.len() > 6 ==> doc_in(v) is None,
{
    if v is Object {
        lemma_text_list(v.member("author_name"@), d.author_name);
        lemma_text_list(v.member("id_project_gutenberg"@), d.id_project_gutenberg);
        let key = v.member("key"@);
        if key is None && d.key.len() == 0 {
            assert(d.key =~= Seq::<char>::empty());
        }
    }
}

proof fn lemma_text_list(v: Option<JsonView>, list: Seq<Seq<char>>)
    ensures
        is_text_list(v, list) <==> text_list(v) == Some(list),
{
    match v {
        Some(JsonView::Array(items)) => {
            let read = items.map_values(|v: JsonView| v->Text_0);
            if is_text_list(v, list) {
                assert forall|i: int| 0 <= i < items.len() implies (#[trigger] items[i]) is Text by {
                    assert(items[i] == JsonView::Text(list[i]));
                }
                assert forall|i: int| 0 <= i < list.len() implies #[trigger] read[i] == list[i] by {
                    assert(items[i] == JsonView::Text(list[i]));
                }
                assert(read =~= list);
            }
            if text_list(v) == Some(list) {
                assert forall|i: int| 0 <= i < items.len() implies #[trigger] items[i]
                    == JsonView::Text(list[i]) by {
                    assert(read[i] == items[i]->Text_0);
                }
            }
        },
        None => {
            if list.len() == 0 {
                assert(list =~= Seq::<Seq<char>>::empty());
            }
        },
        _ => {},
    }
}

/// The documents of two lists are those of the one and then those of the other, and of a
/// single value the document that it writes, if any: none is lost, and none comes before
/// its turn.
pub proof fn law_docs_among(a: Seq<JsonView>, b: Seq<JsonView>, v: JsonView)
    ensures
        docs_among(a + b) == docs_among(a) + docs_among(b),
        docs_among(seq![v]) == match doc_in(v) {
            Some(d) => seq![d],
            None => Seq::<SearchDocView>::empty(),
        },
    decreases b.len(),
{
    let one = seq![v];
    assert(one.drop_last() =~= Seq::<JsonView>::empty());
    assert(docs_among(one.drop_last()) =~= Seq::<SearchDocView>::empty());
    if doc_in(v) is Some {
        assert(docs_among(one) =~= seq![doc_in(v)->0]);
    }
    if b.len() == 0 {
        assert(a + b =~= a);
        assert(docs_among(a) + docs_among(b) =~= docs_among(a));
    } else {
        law_docs_among(a, b.drop_last(), v);
        assert((a + b).drop_last() =~= a + b.drop_last());
        assert((a + b).last() == b.last());
        assert(docs_among(a + b) =~= docs_among(a) + docs_among(b));
    }
}

/// How many works were found is what the answer says, under either name, else how many it
/// lists.
pub proof fn law_total_found(body: JsonView, n: u64)
    ensures
        body.member("numFound"@) is Some && body.member("numFound"@)->0.unsigned() == Some(n)
            ==> total_found(body) == n,
        body.member("numFound"@) is None && body.member("num_found"@) is Some && body.member(
            "num_found"@,
        )->0.unsigned() == Some(n) ==> total_found(body) == n,
        (body.member("numFound"@) is None || body.member("numFound"@)->0.unsigned() is None) && (
        body.member("num_found"@) is None || body.member("num_found"@)->0.unsigned() is None)
            && docs_among(json::items_of(body.member("docs"@))).len() == n ==> total_found(body)
            == n,
{
}

/// Where exactly one work is found, the answer lists it with the key of a work, and any
/// of the etexts that it lists is the wanted one, however many there are, that work is
/// linked.
pub proof fn law_binding_is_made(
    body: JsonView,
    gutenberg_id: u64,
    doc: SearchDocView,
    i: int,
    work: Seq<char>,
)
    requires
        docs_among(json::items_of(body.member("docs"@))) == seq![doc],
        total_found(body) == 1,
        0 <= i < doc.id_project_gutenberg.len(),
        text::trimmed(doc.id_project_gutenberg[i]) == text::decimal(gutenberg_id as nat),
        names_work(work),
        doc.key == "/works/"@ + work,
    ensures
        binding_in(body, gutenberg_id) == Some(work),
{
    law_work_path(doc.key, work);
    assert(docs_among(json::items_of(body.member("docs"@)))[0] == doc);
}

/// Nothing is linked where not exactly one work is found or listed, and where the work
/// that is listed does not list the etext.
pub proof fn law_binding_is_not_made(body: JsonView, gutenberg_id: u64)
    ensures
        ({
            let docs = docs_among(json::items_of(body.member("docs"@)));
            binding_in(body, gutenberg_id) is Some ==> {
                &&& docs.len() == 1 && total_found(body) == 1
                &&& exists|i: int|
                    0 <= i < docs[0].id_project_gutenberg.len() && text::trimmed(
                        #[trigger] docs[0].id_project_gutenberg[i],
                    ) == text::decimal(gutenberg_id as nat)
            }
        }),
{
}

/// A text field is read whether it is a string or an object with a `value`, and what is
/// neither is none.
pub proof fn law_plain_text(v: JsonView, s: Seq<char>)
    ensures
        plain_text(Some(JsonView::Text(s))) == Some(s),
        v is Object && v.member("value"@) == Some(JsonView::Text(s)) ==> plain_text(Some(v)) == Some(
            s,
        ),
        v is Object && !(v.member("value"@) matches Some(JsonView::Text(_))) ==> plain_text(
            Some(v),
        ) is None,
        !(v is Text) && !(v is Object) ==> plain_text(Some(v)) is None,
        plain_text(None) is None,
{
}

/// A single character is replaced wherever it stands.
proof fn lemma_replaced_char_parts(u: Seq<char>, v: Seq<char>, from: Seq<char>, to: Seq<char>)
    requires
        from.len() == 1,
    ensures
        text::replaced(u + v, from, to) == text::replaced(u, from, to) + text::replaced(
            v,
            from,
            to,
        ),
    decreases u.len(),
{
    if u.len() == 0 {
        assert(u + v =~= v);
        assert(text::replaced(u, from, to) + text::replaced(v, from, to) =~= text::replaced(
            v,
            from,
            to,
        ));
    } else {
        let s = u + v;
        lemma_replaced_char_parts(u.skip(1), v, from, to);
        assert(s.skip(1) =~= u.skip(1) + v);
        assert(s.take(1) =~= u.take(1));
        assert(text::replaced(s, from, to) =~= text::replaced(u, from, to) + text::replaced(
            v,
            from,
            to,
        ));
    }
}

/// A carriage return with a line feed is replaced wherever it stands, so a text may be
/// parted anywhere else.
proof fn lemma_replaced_crlf_parts(u: Seq<char>, v: Seq<char>, to: Seq<char>)
    requires
        u.len() == 0 || v.len() == 0 || u.last() != '\r' || v[0] != '\n',
    ensures
        text::replaced(u + v, "\r\n"@, to) == text::replaced(u, "\r\n"@, to) + text::replaced(
            v,
            "\r\n"@,
            to,
        ),
    decreases u.len(),
{
    reveal_strlit("\r\n");
    let from = "\r\n"@;
    let s = u + v;
    if u.len() == 0 {
        assert(s =~= v);
        assert(text::replaced(u, from, to) + text::replaced(v, from, to) =~= text::replaced(
            v,
            from,
            to,
        ));
    } else if v.len() == 0 {
        assert(s =~= u);
        assert(text::replaced(u, from, to) + text::replaced(v, from, to) =~= text::replaced(
            u,
            from,
            to,
        ));
    } else if u.len() == 1 {
        assert(s.skip(1) =~= v);
        if text::has_prefix(s, from) {
            text::lemma_has_prefix(s, from, 0);
            text::lemma_has_prefix(s, from, 1);
        }
        assert(text::replaced(s, from, to) =~= u + text::replaced(v, from, to));
    } else {
        assert(s.take(2) =~= u.take(2));
        if text::has_prefix(u, from) {
            lemma_replaced_crlf_parts(u.skip(2), v, to);
            assert(s.skip(2) =~= u.skip(2) + v);
        } else {
            lemma_replaced_crlf_parts(u.skip(1), v, to);
            assert(s.skip(1) =~= u.skip(1) + v);
        }
        assert(text::replaced(s, from, to) =~= text::replaced(u, from, to) + text::replaced(
            v,
            from,
            to,
        ));
    }
}

/// Both parts of a text that is not parted within a line end have their line ends made
/// alike.
proof fn lemma_unix_lines_parts(u: Seq<char>, v: Seq<char>)
    requires
        u.len() == 0 || v.len() == 0 || u.last() != '\r' || v[0] != '\n',
    ensures
        unix_lines(u + v) == unix_lines(u) + unix_lines(v),
{
    reveal_strlit("\r");
    lemma_replaced_crlf_parts(u, v, "\n"@);
    lemma_replaced_char_parts(
        text::replaced(u, "\r\n"@, "\n"@),
        text::replaced(v, "\r\n"@, "\n"@),
        "\r"@,
        "\n"@,
    );
}

/// A text without a carriage return keeps its line ends.
proof fn lemma_unix_lines_plain(s: Seq<char>)
    requires
        !s.contains('\r'),
    ensures
        unix_lines(s) == s,
{
    reveal_strlit("\r");
    reveal_strlit("\r\n");
    text::law_replaced(s, Seq::empty(), "\r\n"@, "\n"@);
    text::law_replaced(s, Seq::empty(), "\r"@, "\n"@);
    assert(!text::has_part(s, "\r\n"@)) by {
        if text::has_part(s, "\r\n"@) {
            let i = choose|i: int| text::occurs_at(s, "\r\n"@, i);
            assert(s.subrange(i, i + 2)[0] == s[i]);
        }
    }
    assert(!text::has_part(s, "\r"@)) by {
        if text::has_part(s, "\r"@) {
            let i = choose|i: int| text::occurs_at(s, "\r"@, i);
            assert(s.subrange(i, i + 1)[0] == s[i]);
        }
    }
}

/// Every line end becomes a line feed, be it a carriage return with a line feed or one
/// alone, and nothing else changes.
pub proof fn law_line_ends(a: Seq<char>, b: Seq<char>)
    ensures
        !a.contains('\r') ==> unix_lines(a) == a,
        unix_lines(a + "\r\n"@ + b) == unix_lines(a) + "\n"@ + unix_lines(b),
        b.len() == 0 || b[0] != '\n' ==> unix_lines(a + "\r"@ + b) == unix_lines(a) + "\n"@
            + unix_lines(b),
{
    reveal_strlit("\r");
    reveal_strlit("\n");
    reveal_strlit("\r\n");
    if !a.contains('\r') {
        lemma_unix_lines_plain(a);
    }
    let crlf = "\r\n"@;
    let cr = "\r"@;
    let lf = "\n"@;
    let none = Seq::<char>::empty();
    assert(crlf =~= none + crlf + none);
    text::law_replaced(none, none, crlf, lf);
    assert(text::replaced(none, crlf, lf) =~= none);
    assert(none + lf + none =~= lf);
    assert(!lf.contains('\r'));
    lemma_unix_lines_plain(lf);
    assert(unix_lines(crlf) == lf) by {
        assert(text::replaced(crlf, crlf, lf) == lf);
        text::law_replaced(lf, none, cr, lf);
        assert(!text::has_part(lf, cr)) by {
            if text::has_part(lf, cr) {
                let i = choose|i: int| text::occurs_at(lf, cr, i);
                assert(lf.subrange(i, i + 1)[0] == lf[i]);
            }
        }
    }
    assert(unix_lines(cr) == lf) by {
        assert(text::replaced(cr, crlf, lf) == cr);
        assert(cr =~= none + cr + none);
        text::law_replaced(none, none, cr, lf);
        assert(text::replaced(none, cr, lf) =~= none);
    }
    lemma_unix_lines_parts(a, crlf + b);
    lemma_unix_lines_parts(crlf, b);
    assert(a + crlf + b =~= a + (crlf + b));
    assert(unix_lines(a + crlf + b) =~= unix_lines(a) + lf + unix_lines(b));
    if b.len() == 0 || b[0] != '\n' {
        lemma_unix_lines_parts(a, cr + b);
        lemma_unix_lines_parts(cr, b);
        assert(a + cr + b =~= a + (cr + b));
        assert(unix_lines(a + cr + b) =~= unix_lines(a) + lf + unix_lines(b));
    }
}

/// A description without the rule is a synopsis as a whole, whatever its length, but for
/// the white space around it. What follows the first line that begins with the rule is no
/// part of it, and line ends make no difference.
pub proof fn law_synopsis_is_whole(raw: Seq<char>, rest: Seq<char>)
    ensures
        synopsis(raw) == synopsis(unix_lines(raw)),
        !raw.contains('\r') && !text::has_part(raw, "\n----"@) ==> {
            &&& synopsis(raw) == if text::is_blank(raw) {
                None
            } else {
                Some(text::trimmed(raw))
            }
            &&& synopsis(raw + "\n----"@ + rest) == synopsis(raw)
        },
{
    let rule = "\n----"@;
    reveal_strlit("\n----");
    reveal_strlit("\r");
    reveal_strlit("\n");
    let lines = unix_lines(raw);
    assert("\r"@ =~= seq!['\r']);
    lemma_replaced_char(text::replaced(raw, "\r\n"@, "\n"@), "\r"@, "\n"@, '\r');
    lemma_unix_lines_plain(lines);
    if !raw.contains('\r') && !text::has_part(raw, rule) {
        lemma_unix_lines_plain(raw);
        text::law_position(raw, rule);
        let head = raw + rule;
        assert(!head.contains('\r')) by {
            if head.contains('\r') {
                let i = head.index_of('\r');
                if i < raw.len() {
                    assert(raw[i] == '\r');
                } else {
                    assert(rule[i - raw.len()] == '\r');
                }
            }
        }
        lemma_unix_lines_plain(head);
        lemma_unix_lines_parts(head, rest);
        let all = head + unix_lines(rest);
        assert(unix_lines(raw + rule + rest) == all);
        assert(all.subrange(raw.len() as int, (raw.len() + rule.len()) as int) =~= rule);
        assert(text::occurs_at(all, rule, raw.len() as int));
        assert forall|j: int| 0 <= j < raw.len() implies !text::occurs_at(all, rule, j) by {
            if text::occurs_at(all, rule, j) {
                let there = all.subrange(j, j + rule.len());
                if j + rule.len() <= raw.len() {
                    assert(raw.subrange(j, j + rule.len()) =~= there);
                    assert(text::occurs_at(raw, rule, j));
                } else {
                    assert(there[raw.len() - j] == all[raw.len() as int]);
                    assert(all[raw.len() as int] == rule[0]);
                }
            }
        }
        text::law_position(all, rule);
        assert(text::position(all, rule) == Some(raw.len() as int));
        assert(all.take(raw.len() as int) =~= raw);
    }
}

/// The names of a document's fields, in their order.
pub open spec fn field_names() -> Seq<Seq<char>> {
    seq![
        "key"@,
        "title"@,
        "author_name"@,
        "cover_i"@,
        "first_publish_year"@,
        "id_project_gutenberg"@,
    ]
}

/// A list writes the document that the object writes whose members have the names of the
/// fields in their order, as far as the list goes.
pub proof fn law_document_as_list(items: Seq<JsonView>)
    requires
        items.len() <= 6,
    ensures
        doc_in(JsonView::Array(items)) == doc_in(
            JsonView::Object(Seq::new(items.len(), |i: int| (field_names()[i], items[i]))),
        ),
{
    lemma_reveal_doc_names();
    let w = Seq::new(items.len(), |i: int| (field_names()[i], items[i]));
    let names = field_names();
    assert(names[0] == "key"@ && names[1] == "title"@ && names[2] == "author_name"@ && names[3]
        == "cover_i"@ && names[4] == "first_publish_year"@ && names[5]
        == "id_project_gutenberg"@);
    lemma_named(w, "key"@, 0);
    lemma_named(w, "title"@, 1);
    lemma_named(w, "author_name"@, 2);
    lemma_named(w, "cover_i"@, 3);
    lemma_named(w, "first_publish_year"@, 4);
    lemma_named(w, "id_project_gutenberg"@, 5);
}

/// The member of a name is the one at its place, where no other has the name.
proof fn lemma_named(w: Seq<(Seq<char>, JsonView)>, name: Seq<char>, place: int)
    requires
        0 <= place,
        place < w.len() ==> w[place].0 == name,
        forall|i: int| 0 <= i < w.len() && i != place ==> (#[trigger] w[i]).0 != name,
    ensures
        json::first_member(w, name) == if place < w.len() {
            Some(w[place].1)
        } else {
            None
        },
    decreases w.len(),
{
    if w.len() > 0 && place > 0 {
        let rest = w.skip(1);
        assert(w[0].0 != name);
        assert forall|i: int| 0 <= i < rest.len() && i != place - 1 implies (
        #[trigger] rest[i]).0 != name by {
            assert(rest[i] == w[i + 1]);
        }
        if place < w.len() {
            assert(rest[place - 1] == w[place]);
        }
        lemma_named(rest, name, place - 1);
    }
}

/// What is read of a document is all that it holds, each list in full and in order.
pub proof fn law_doc_view(doc: SearchDoc, i: int)
    ensures
        doc@.key == doc.key@,
        doc.title is Some ==> doc@.title == Some(doc.title->0@),
        doc.title is None ==> doc@.title is None,
        doc@.cover_i == doc.cover_i,
        doc@.first_publish_year == doc.first_publish_year,
        doc@.author_name.len() == doc.author_name@.len(),
        0 <= i < doc.author_name@.len() ==> doc@.author_name[i] == doc.author_name@[i]@,
        doc@.id_project_gutenberg.len() == doc.id_project_gutenberg@.len(),
        0 <= i < doc.id_project_gutenberg@.len() ==> doc@.id_project_gutenberg[i]
            == doc.id_project_gutenberg@[i]@,
{
}

/// How long a call waits for a lease of the rate budget, and for its answer, in seconds: a
/// search longest, a row less, the link of an edition least.
pub proof fn law_patience()
    ensures
        SEARCH_DEADLINE == 20,
        BROWSE_DEADLINE == 5,
        BINDING_DEADLINE == 2,
        HTTP_TIMEOUT_SECS == 20,
        BINDING_DEADLINE < BROWSE_DEADLINE < SEARCH_DEADLINE,
{
}

} // verus!

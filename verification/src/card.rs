//! Open Library work cards: which work is one, and what a card says.
use crate::openlibrary_client::{self as client, SearchDoc, SearchDocView, WorkText};
use crate::query::filter_is_true;
use crate::table::{
    has_field, is_member, lemma_not_member, lemma_with_members, put, put_members, put_opt,
    with_field, with_members, Table,
};
use crate::text;
use crate::types::{
    record_opt, record_views, DiscoveryRecord, DiscoveryRecordView, GatewayError, GatewayQuery,
    GatewayQueryView,
};
use vstd::prelude::*;

verus! {

/// The id of the upstream of cards, and the source that card locators name.
pub const UPSTREAM: &'static str = "openlibrary";

/// How many descriptions are fetched at once.
pub const DESCRIPTION_CONCURRENCY: usize = 4;

// ---------------------------------------------------------------------------
// Cards
// ---------------------------------------------------------------------------
/// The address of the card of `work_id`, where that is a work id and `locator` is
/// the card locator of [`UPSTREAM`] and `work_id`.
pub open spec fn card_address(work_id: Seq<char>, locator: Option<Seq<char>>) -> Option<
    Seq<char>,
> {
    if client::names_work(work_id) {
        locator
    } else {
        None
    }
}

/// The address of the card of `work_id`, `locator` being the card locator of
/// [`UPSTREAM`] and `work_id`. `None` for anything but a bare work id.
pub fn card_cid(work_id: &str, locator: Option<String>) -> (r: Option<String>)
    ensures
        text::text_opt(r) == card_address(work_id@, text::text_opt(locator)),
{
    if client::is_work_id(work_id) {
        locator
    } else {
        None
    }
}

/// The title of a document, trimmed, where it has one.
pub open spec fn title_of(doc: SearchDocView) -> Option<Seq<char>> {
    match doc.title {
        Some(t) => if text::is_blank(t) {
            None
        } else {
            Some(text::trimmed(t))
        },
        None => None,
    }
}

fn title_in(doc: &SearchDoc) -> (r: Option<&str>)
    ensures
        text::str_opt(r) == title_of(doc@),
{
    match &doc.title {
        Some(t) => {
            let t = text::trim(t.as_str());
            if t.is_empty() {
                None
            } else {
                Some(t)
            }
        },
        None => None,
    }
}

/// The names, trimmed, without the blank ones and without what came before.
pub open spec fn distinct_names(names: Seq<Seq<char>>) -> Seq<Seq<char>>
    decreases names.len(),
{
    if names.len() == 0 {
        Seq::empty()
    } else {
        let init = distinct_names(names.drop_last());
        let name = text::trimmed(names.last());
        if name.len() == 0 || init.contains(name) {
            init
        } else {
            init.push(name)
        }
    }
}

fn holds(list: &Vec<String>, name: &str) -> (r: bool)
    ensures
        r == text::texts(list@).contains(name@),
{
    let ghost all = text::texts(list@);
    let mut i: usize = 0;
    while i < list.len()
        invariant
            i <= list@.len(),
            all == text::texts(list@),
            forall|k: int| 0 <= k < i ==> #[trigger] all[k] != name@,
        decreases list@.len() - i,
    {
        assert(all[i as int] == list@[i as int]@);
        if text::same(list[i].as_str(), name) {
            return true;
        }
        i += 1;
    }
    false
}

fn author_names(names: &Vec<String>) -> (r: Vec<String>)
    ensures
        text::texts(r@) == distinct_names(text::texts(names@)),
{
    let ghost all = text::texts(names@);
    let mut out: Vec<String> = Vec::new();
    let mut i: usize = 0;
    assert(text::texts(out@) =~= distinct_names(all.take(0)));
    while i < names.len()
        invariant
            i <= names@.len(),
            all == text::texts(names@),
            text::texts(out@) == distinct_names(all.take(i as int)),
        decreases names@.len() - i,
    {
        assert(all.take(i + 1).drop_last() == all.take(i as int));
        assert(all.take(i + 1).last() == names@[i as int]@);
        let name = text::trim(names[i].as_str());
        if !name.is_empty() && !holds(&out, name) {
            let ghost before = out@;
            out.push(name.to_owned());
            assert(text::texts(out@) =~= text::texts(before).push(name@));
        }
        i += 1;
    }
    assert(all.take(all.len() as int) == all);
    out
}

/// The authors as one text, where there are any.
pub open spec fn byline(authors: Seq<Seq<char>>) -> Option<Seq<char>> {
    if authors.len() == 0 {
        None
    } else {
        Some(text::joined(authors, ", "@))
    }
}

/// The year in which a work was first published, with at least four digits.
pub open spec fn release_year(year: Option<i32>) -> Option<Seq<char>> {
    match year {
        Some(y) => if y > 0 {
            Some(text::zero_padded(text::decimal(y as nat), 4))
        } else {
            None
        },
        None => None,
    }
}

fn year_text(year: Option<i32>) -> (r: Option<String>)
    ensures
        text::text_opt(r) == release_year(year),
{
    match year {
        Some(y) => if y > 0 {
            Some(text::zero_pad(text::decimal_of(y as u64), 4))
        } else {
            None
        },
        None => None,
    }
}

/// A browse marker that a card carries because the query asks for it.
pub open spec fn marker(q: GatewayQueryView, key: Seq<char>) -> Option<Seq<char>> {
    if q.is_true(key) {
        Some("true"@)
    } else {
        None
    }
}

fn put_marker(fields: &mut Table<String>, q: &GatewayQuery, key: &str)
    ensures
        final(fields)@ == with_field(old(fields)@, key@, marker(q@, key@)),
{
    if filter_is_true(q, key) {
        put(fields, key, "true");
    }
}

/// The fields of the card of the work `id`.
pub open spec fn card_fields(
    doc: SearchDocView,
    id: Seq<char>,
    cid: Seq<char>,
    title: Seq<char>,
    poster_url: Seq<char>,
    description: Seq<char>,
    q: GatewayQueryView,
) -> Map<Seq<char>, Seq<char>> {
    let authors = distinct_names(doc.author_name);
    let m = Map::<Seq<char>, Seq<char>>::empty();
    let m = m.insert("fileType"@, "card"@);
    let m = m.insert("contentKind"@, "book"@);
    let m = m.insert("domain"@, "literature"@);
    let m = m.insert("workForm"@, "standalone"@);
    let m = m.insert("cids/"@ + cid, "true"@);
    let m = m.insert("openlibraryid"@, id);
    let m = m.insert("title"@, title);
    let m = m.insert("description/eng"@, description);
    let m = with_members(m, "authors/"@, authors);
    let m = with_field(m, "author"@, byline(authors));
    let m = with_field(m, "releasedate"@, release_year(doc.first_publish_year));
    let m = m.insert("poster_url"@, poster_url);
    let m = m.insert("sourceUrl"@, "https://openlibrary.org/works/"@ + id);
    let m = m.insert("source/gateway:openlibrary"@, "true"@);
    let m = with_field(m, "popular"@, marker(q, "popular"@));
    let m = with_field(m, "fresh"@, marker(q, "fresh"@));
    with_field(m, "trending"@, marker(q, "trending"@))
}

/// `doc` with a description can be a card: it has a work id, an address, a title, a
/// cover, and a description.
pub open spec fn makes_card(
    doc: SearchDocView,
    description: Seq<char>,
    locator: Option<Seq<char>>,
) -> bool {
    &&& doc.work_id() is Some
    &&& locator is Some
    &&& title_of(doc) is Some
    &&& doc.cover_url() is Some
    &&& !text::is_blank(description)
}

/// The card of a document and its description, `locator` being the card locator of
/// its work id.
pub open spec fn card(
    doc: SearchDocView,
    description: Seq<char>,
    q: GatewayQueryView,
    locator: Option<Seq<char>>,
) -> Option<DiscoveryRecordView> {
    if makes_card(doc, description, locator) {
        Some(
            DiscoveryRecordView {
                upstream_id: UPSTREAM@,
                record_id: doc.work_id()->0,
                fields: card_fields(
                    doc,
                    doc.work_id()->0,
                    locator->0,
                    title_of(doc)->0,
                    doc.cover_url()->0,
                    text::trimmed(description),
                    q,
                ),
            },
        )
    } else {
        None
    }
}

fn fields_of_card(
    doc: &SearchDoc,
    id: &str,
    cid: &str,
    title: &str,
    poster_url: &str,
    description: &str,
    q: &GatewayQuery,
) -> (r: Table<String>)
    ensures
        r@ == card_fields(doc@, id@, cid@, title@, poster_url@, description@, q@),
{
    let mut fields: Table<String> = Table::new();
    put(&mut fields, "fileType", "card");
    put(&mut fields, "contentKind", "book");
    put(&mut fields, "domain", "literature");
    put(&mut fields, "workForm", "standalone");
    let mut address = "cids/".to_owned();
    address.append(cid);
    put(&mut fields, address.as_str(), "true");
    put(&mut fields, "openlibraryid", id);
    put(&mut fields, "title", title);
    put(&mut fields, "description/eng", description);
    let authors = author_names(&doc.author_name);
    put_members(&mut fields, "authors/", &authors);
    let author = if authors.len() == 0 {
        None
    } else {
        Some(text::join(authors.as_slice(), ", "))
    };
    put_opt(&mut fields, "author", author);
    put_opt(&mut fields, "releasedate", year_text(doc.first_publish_year));
    put(&mut fields, "poster_url", poster_url);
    let mut source_url = "https://openlibrary.org/works/".to_owned();
    source_url.append(id);
    put(&mut fields, "sourceUrl", source_url.as_str());
    put(&mut fields, "source/gateway:openlibrary", "true");
    put_marker(&mut fields, q, "popular");
    put_marker(&mut fields, q, "fresh");
    put_marker(&mut fields, q, "trending");
    fields
}

/// The card of a document and its description, `locator` being the card locator of
/// [`UPSTREAM`] and the document's work id.
///
/// `None` where the work is no card: without a work id, an address or a title, and
/// without a cover or a description.
///
/// Of the query's filters a card echoes the browse markers only. A card that lacks
/// another filter's key does not match it, which is the truth.
pub fn to_record(
    doc: &SearchDoc,
    description: &str,
    query: &GatewayQuery,
    locator: Option<String>,
) -> (r: Option<DiscoveryRecord>)
    ensures
        record_opt(r) == card(doc@, description@, query@, text::text_opt(locator)),
{
    let id = match doc.work_id() {
        Some(id) => id,
        None => {
            return None;
        },
    };
    let cid = match card_cid(id, locator) {
        Some(cid) => cid,
        None => {
            return None;
        },
    };
    let title = match title_in(doc) {
        Some(t) => t,
        None => {
            return None;
        },
    };
    let poster_url = match doc.cover_url() {
        Some(u) => u,
        None => {
            return None;
        },
    };
    let description = text::trim(description);
    if description.is_empty() {
        return None;
    }
    let fields = fields_of_card(
        doc,
        id,
        cid.as_str(),
        title,
        poster_url.as_str(),
        description,
        query,
    );
    Some(
        DiscoveryRecord { upstream_id: UPSTREAM.to_owned(), record_id: id.to_owned(), fields },
    )
}

// ---------------------------------------------------------------------------
// From documents to cards
// ---------------------------------------------------------------------------
/// `doc` can become a card, whatever its description says.
pub open spec fn is_candidate(doc: SearchDocView) -> bool {
    doc.work_id() is Some && doc.cover_url() is Some && title_of(doc) is Some
}

/// One of `docs` has the key `key`.
pub open spec fn has_key(docs: Seq<SearchDocView>, key: Seq<char>) -> bool {
    exists|i: int| 0 <= i < docs.len() && (#[trigger] docs[i]).key == key
}

/// The documents that can become cards, in order, each key once.
pub open spec fn candidates_of(docs: Seq<SearchDocView>) -> Seq<SearchDocView>
    decreases docs.len(),
{
    if docs.len() == 0 {
        Seq::empty()
    } else {
        let init = candidates_of(docs.drop_last());
        if is_candidate(docs.last()) && !has_key(init, docs.last().key) {
            init.push(docs.last())
        } else {
            init
        }
    }
}

fn keyed(docs: &Vec<SearchDoc>, key: &str) -> (r: bool)
    ensures
        r == has_key(client::doc_views(docs@), key@),
{
    let ghost all = client::doc_views(docs@);
    let mut i: usize = 0;
    while i < docs.len()
        invariant
            i <= docs@.len(),
            all == client::doc_views(docs@),
            forall|k: int| 0 <= k < i ==> (#[trigger] all[k]).key != key@,
        decreases docs@.len() - i,
    {
        assert(all[i as int] == docs@[i as int]@);
        if text::same(docs[i].key.as_str(), key) {
            return true;
        }
        i += 1;
    }
    false
}

/// The documents whose descriptions are worth fetching: those with a work id, a
/// title and a cover, each key once.
pub fn candidates(docs: Vec<SearchDoc>) -> (r: Vec<SearchDoc>)
    ensures
        client::doc_views(r@) == candidates_of(client::doc_views(docs@)),
{
    let ghost all = client::doc_views(docs@);
    let mut rest = docs;
    let mut out: Vec<SearchDoc> = Vec::new();
    let mut left: usize = rest.len();
    let ghost mut gone: int = 0;
    assert(all.skip(0) == all);
    assert(client::doc_views(out@) =~= candidates_of(all.take(0)));
    while left > 0
        invariant
            0 <= gone,
            left + gone == all.len(),
            rest@.len() == left,
            client::doc_views(rest@) == all.skip(gone),
            client::doc_views(out@) == candidates_of(all.take(gone)),
        decreases left,
    {
        let doc = rest.remove(0);
        assert(all.skip(gone)[0] == doc@);
        assert(all.take(gone + 1).drop_last() == all.take(gone));
        assert(all.take(gone + 1).last() == doc@);
        assert(all.skip(gone).skip(1) == all.skip(gone + 1));
        assert(client::doc_views(rest@) =~= all.skip(gone + 1));
        let fit = doc.work_id().is_some() && doc.cover_url().is_some() && title_in(&doc).is_some();
        if fit && !keyed(&out, doc.key.as_str()) {
            let ghost before = out@;
            let ghost d = doc@;
            out.push(doc);
            assert(client::doc_views(out@) =~= client::doc_views(before).push(d));
        }
        proof {
            gone = gone + 1;
        }
        left -= 1;
    }
    assert(all.take(all.len() as int) == all);
    out
}

/// What the lookup of a candidate's description came to: the id under which the work
/// is kept, and the description; `None` where there is no such work or the lookup
/// failed.
pub open spec fn lookup_view(
    answer: Result<Option<WorkText>, GatewayError>,
) -> Option<(Seq<char>, Option<Seq<char>>)> {
    match answer {
        Ok(Some(w)) => Some((w.id@, text::text_opt(w.description))),
        _ => None,
    }
}

/// The card of a candidate, after the lookup of its description.
pub open spec fn card_after(
    doc: SearchDocView,
    answer: Option<(Seq<char>, Option<Seq<char>>)>,
    q: GatewayQueryView,
    locator: Option<Seq<char>>,
) -> Option<DiscoveryRecordView> {
    match answer {
        Some((id, Some(description))) => if doc.work_id() == Some(id) {
            card(doc, description, q, locator)
        } else {
            None
        },
        _ => None,
    }
}

/// The card of a candidate, after the lookup of its description. A work that is kept
/// under another id was merged away and is no card, and neither is one whose lookup
/// failed.
pub fn card_for(
    doc: &SearchDoc,
    answer: Result<Option<WorkText>, GatewayError>,
    query: &GatewayQuery,
    locator: Option<String>,
) -> (r: Option<DiscoveryRecord>)
    ensures
        record_opt(r) == card_after(
            doc@,
            lookup_view(answer),
            query@,
            text::text_opt(locator),
        ),
{
    match answer {
        Ok(Some(w)) => {
            let same = match doc.work_id() {
                Some(id) => text::same(w.id.as_str(), id),
                None => false,
            };
            if !same {
                return None;
            }
            match w.description {
                Some(d) => to_record(doc, d.as_str(), query, locator),
                None => None,
            }
        },
        _ => None,
    }
}

/// A candidate, what the lookup of its description came to, and its card locator.
pub ghost struct Looked {
    pub doc: SearchDocView,
    pub answer: Option<(Seq<char>, Option<Seq<char>>)>,
    pub locator: Option<Seq<char>>,
}

/// `cards` with one more, where there is one and fewer than `n` are there.
pub open spec fn with_card(
    cards: Seq<DiscoveryRecordView>,
    n: nat,
    more: Option<DiscoveryRecordView>,
) -> Seq<DiscoveryRecordView> {
    match more {
        Some(c) => if cards.len() < n {
            cards.push(c)
        } else {
            cards
        },
        None => cards,
    }
}

/// The first `n` cards that come of `looked`.
pub open spec fn cards_of(looked: Seq<Looked>, q: GatewayQueryView, n: nat) -> Seq<
    DiscoveryRecordView,
>
    decreases looked.len(),
{
    if looked.len() == 0 {
        Seq::empty()
    } else {
        let l = looked.last();
        with_card(
            cards_of(looked.drop_last(), q, n),
            n,
            card_after(l.doc, l.answer, q, l.locator),
        )
    }
}

/// At most `n` cards, collected from candidates that are offered one by one.
#[derive(Debug)]
pub struct Projection {
    n: usize,
    cards: Vec<DiscoveryRecord>,
}

impl Projection {
    #[verifier::type_invariant]
    spec fn at_most_n(self) -> bool {
        self.cards@.len() <= self.n
    }

    /// How many cards are wanted.
    pub closed spec fn wanted(self) -> nat {
        self.n as nat
    }

    /// The cards so far.
    pub closed spec fn cards(self) -> Seq<DiscoveryRecordView> {
        record_views(self.cards@)
    }

    pub fn new(n: usize) -> (r: Self)
        ensures
            r.wanted() == n,
            r.cards() == Seq::<DiscoveryRecordView>::empty(),
    {
        let cards: Vec<DiscoveryRecord> = Vec::new();
        assert(record_views(cards@) =~= Seq::empty());
        Projection { n, cards }
    }

    /// Whether no further candidate is worth a lookup.
    pub fn is_full(&self) -> (r: bool)
        ensures
            r == (self.cards().len() == self.wanted()),
    {
        proof {
            use_type_invariant(self);
        }
        self.cards.len() == self.n
    }

    /// Takes the card that comes of the next candidate, where one does and fewer than
    /// the wanted number are there.
    pub fn offer(
        self,
        doc: &SearchDoc,
        answer: Result<Option<WorkText>, GatewayError>,
        query: &GatewayQuery,
        locator: Option<String>,
    ) -> (r: Self)
        ensures
            r.wanted() == self.wanted(),
            r.cards() == with_card(
                self.cards(),
                self.wanted(),
                card_after(doc@, lookup_view(answer), query@, text::text_opt(locator)),
            ),
    {
        proof {
            use_type_invariant(&self);
        }
        let n: usize = self.n;
        let mut cards = self.cards;
        let ghost before = cards@;
        if let Some(card) = card_for(doc, answer, query, locator) {
            if cards.len() < n {
                cards.push(card);
                assert(record_views(cards@) =~= record_views(before).push(card@));
            }
        }
        Projection { n, cards }
    }

    /// The cards.
    pub fn finish(self) -> (r: Vec<DiscoveryRecord>)
        ensures
            record_views(r@) == self.cards(),
            r@.len() <= self.wanted(),
    {
        proof {
            use_type_invariant(&self);
        }
        self.cards
    }
}

// ---------------------------------------------------------------------------
// Laws
// ---------------------------------------------------------------------------
/// There is a card exactly where there is a work id, an address, a title, a cover
/// number that is positive, and a description that is not blank.
pub proof fn law_card_needs_cover_and_description(
    doc: SearchDocView,
    description: Seq<char>,
    q: GatewayQueryView,
    locator: Option<Seq<char>>,
)
    ensures
        card(doc, description, q, locator) is Some <==> {
            &&& client::work_of_path(doc.key) is Some
            &&& locator is Some
            &&& doc.title is Some
            &&& !text::is_blank(doc.title->0)
            &&& doc.cover_i is Some
            &&& doc.cover_i->0 > 0
            &&& !text::is_blank(description)
        },
{
}

/// A key that a card with the address `cid` and the authors `authors` may have.
pub open spec fn is_card_key(key: Seq<char>, cid: Seq<char>, authors: Seq<Seq<char>>) -> bool {
    ||| key == "fileType"@
    ||| key == "contentKind"@
    ||| key == "domain"@
    ||| key == "workForm"@
    ||| key == "cids/"@ + cid
    ||| key == "openlibraryid"@
    ||| key == "title"@
    ||| key == "description/eng"@
    ||| is_member("authors/"@, authors, key)
    ||| key == "author"@
    ||| key == "releasedate"@
    ||| key == "poster_url"@
    ||| key == "sourceUrl"@
    ||| key == "source/gateway:openlibrary"@
    ||| key == "popular"@
    ||| key == "fresh"@
    ||| key == "trending"@
}

/// The fields of a card up to its authors.
spec fn card_head(
    id: Seq<char>,
    cid: Seq<char>,
    title: Seq<char>,
    description: Seq<char>,
) -> Map<Seq<char>, Seq<char>> {
    let m = Map::<Seq<char>, Seq<char>>::empty();
    let m = m.insert("fileType"@, "card"@);
    let m = m.insert("contentKind"@, "book"@);
    let m = m.insert("domain"@, "literature"@);
    let m = m.insert("workForm"@, "standalone"@);
    let m = m.insert("cids/"@ + cid, "true"@);
    let m = m.insert("openlibraryid"@, id);
    let m = m.insert("title"@, title);
    m.insert("description/eng"@, description)
}

proof fn lemma_card_key(
    doc: SearchDocView,
    id: Seq<char>,
    cid: Seq<char>,
    title: Seq<char>,
    poster_url: Seq<char>,
    description: Seq<char>,
    q: GatewayQueryView,
    key: Seq<char>,
)
    ensures
        card_fields(doc, id, cid, title, poster_url, description, q).contains_key(key)
            ==> is_card_key(key, cid, distinct_names(doc.author_name)),
{
    lemma_with_members(
        card_head(id, cid, title, description),
        "authors/"@,
        distinct_names(doc.author_name),
        key,
    );
}

/// A card has no keys but those of its contract. So it makes no claim of trust about
/// itself, it borrows no licence from the query, and it carries no `poster`.
pub proof fn law_card_keys(
    doc: SearchDocView,
    description: Seq<char>,
    q: GatewayQueryView,
    locator: Option<Seq<char>>,
    key: Seq<char>,
)
    requires
        card(doc, description, q, locator) is Some,
    ensures
        card(doc, description, q, locator)->0.fields.contains_key(key) ==> is_card_key(
            key,
            locator->0,
            distinct_names(doc.author_name),
        ),
        ({
            let fields = card(doc, description, q, locator)->0.fields;
            &&& !fields.contains_key("anchored"@)
            &&& !fields.contains_key("anchorSource"@)
            &&& !fields.contains_key("anchorMethod"@)
            &&& !fields.contains_key("licence"@)
            &&& !fields.contains_key("poster"@)
        }),
{
    let id = doc.work_id()->0;
    let cid = locator->0;
    let title = title_of(doc)->0;
    let url = doc.cover_url()->0;
    let d = text::trimmed(description);
    lemma_card_key(doc, id, cid, title, url, d, q, key);
    lemma_card_key(doc, id, cid, title, url, d, q, "anchored"@);
    lemma_card_key(doc, id, cid, title, url, d, q, "anchorSource"@);
    lemma_card_key(doc, id, cid, title, url, d, q, "anchorMethod"@);
    lemma_card_key(doc, id, cid, title, url, d, q, "licence"@);
    lemma_card_key(doc, id, cid, title, url, d, q, "poster"@);
    lemma_reveal_card_keys();
    reveal_strlit("anchored");
    reveal_strlit("anchorSource");
    reveal_strlit("anchorMethod");
    reveal_strlit("licence");
    reveal_strlit("poster");
    let authors = distinct_names(doc.author_name);
    lemma_not_member("authors/"@, authors, "anchored"@, 1);
    lemma_not_member("authors/"@, authors, "anchorSource"@, 1);
    lemma_not_member("authors/"@, authors, "anchorMethod"@, 1);
    lemma_not_member("authors/"@, authors, "licence"@, 0);
    lemma_not_member("authors/"@, authors, "poster"@, 0);
    assert(("cids/"@ + cid)[0] == 'c');
}

/// What the keys of a card begin with.
proof fn lemma_reveal_card_keys()
    ensures
        "fileType"@.len() == 8 && "fileType"@[0] == 'f' && "fileType"@[1] == 'i',
        "contentKind"@.len() == 11 && "contentKind"@[0] == 'c' && "contentKind"@[1] == 'o',
        "domain"@.len() == 6 && "domain"@[0] == 'd' && "domain"@[1] == 'o',
        "workForm"@.len() == 8 && "workForm"@[0] == 'w',
        "cids/"@.len() == 5 && "cids/"@[0] == 'c' && "cids/"@[1] == 'i',
        "openlibraryid"@.len() == 13 && "openlibraryid"@[0] == 'o',
        "title"@.len() == 5 && "title"@[0] == 't' && "title"@[1] == 'i',
        "description/eng"@.len() == 15 && "description/eng"@[0] == 'd' && "description/eng"@[1]
            == 'e',
        "authors/"@.len() == 8 && "authors/"@[0] == 'a' && "authors/"@[1] == 'u',
        "author"@.len() == 6 && "author"@[0] == 'a' && "author"@[1] == 'u',
        "releasedate"@.len() == 11 && "releasedate"@[0] == 'r',
        "poster_url"@.len() == 10 && "poster_url"@[0] == 'p' && "poster_url"@[2] == 's',
        "sourceUrl"@.len() == 9 && "sourceUrl"@[0] == 's' && "sourceUrl"@[6] == 'U',
        "source/gateway:openlibrary"@.len() == 26 && "source/gateway:openlibrary"@[0] == 's'
            && "source/gateway:openlibrary"@[6] == '/',
        "popular"@.len() == 7 && "popular"@[0] == 'p' && "popular"@[2] == 'p',
        "fresh"@.len() == 5 && "fresh"@[0] == 'f' && "fresh"@[1] == 'r',
        "trending"@.len() == 8 && "trending"@[0] == 't' && "trending"@[1] == 'r',
{
    reveal_strlit("fileType");
    reveal_strlit("contentKind");
    reveal_strlit("domain");
    reveal_strlit("workForm");
    reveal_strlit("cids/");
    reveal_strlit("openlibraryid");
    reveal_strlit("title");
    reveal_strlit("description/eng");
    reveal_strlit("authors/");
    reveal_strlit("author");
    reveal_strlit("releasedate");
    reveal_strlit("poster_url");
    reveal_strlit("sourceUrl");
    reveal_strlit("source/gateway:openlibrary");
    reveal_strlit("popular");
    reveal_strlit("fresh");
    reveal_strlit("trending");
}

/// A card has exactly one address: one key that begins with `cids/`, which is that of
/// its card locator.
pub proof fn law_card_has_one_address(
    doc: SearchDocView,
    description: Seq<char>,
    q: GatewayQueryView,
    locator: Option<Seq<char>>,
    key: Seq<char>,
)
    requires
        card(doc, description, q, locator) is Some,
        text::has_prefix(key, "cids/"@),
    ensures
        card(doc, description, q, locator)->0.fields.contains_key(key) <==> key == "cids/"@
            + locator->0,
{
    let id = doc.work_id()->0;
    let cid = locator->0;
    let title = title_of(doc)->0;
    let url = doc.cover_url()->0;
    let d = text::trimmed(description);
    let authors = distinct_names(doc.author_name);
    lemma_card_key(doc, id, cid, title, url, d, q, key);
    lemma_reveal_card_keys();
    text::lemma_has_prefix(key, "cids/"@, 0);
    text::lemma_has_prefix(key, "cids/"@, 1);
    lemma_not_member("authors/"@, authors, key, 0);
    lemma_with_members(card_head(id, cid, title, d), "authors/"@, authors, "cids/"@ + cid);
}

/// A card says what it is and what it names: `card`, `book`, `literature`,
/// `standalone`, the bare work id that its address is made of, its title, its
/// description and its cover.
pub proof fn law_card_names_its_work(
    doc: SearchDocView,
    description: Seq<char>,
    q: GatewayQueryView,
    locator: Option<Seq<char>>,
)
    requires
        card(doc, description, q, locator) is Some,
    ensures
        ({
            let r = card(doc, description, q, locator)->0;
            &&& r.upstream_id == "openlibrary"@
            &&& client::names_work(r.record_id)
            &&& doc.key == "/works/"@ + r.record_id
            &&& has_field(r.fields, "openlibraryid"@, r.record_id)
            &&& has_field(r.fields, "fileType"@, "card"@)
            &&& has_field(r.fields, "contentKind"@, "book"@)
            &&& has_field(r.fields, "domain"@, "literature"@)
            &&& has_field(r.fields, "workForm"@, "standalone"@)
            &&& has_field(r.fields, "title"@, text::trimmed(doc.title->0))
            &&& has_field(r.fields, "description/eng"@, text::trimmed(description))
            &&& has_field(r.fields, "poster_url"@, doc.cover_url()->0)
        }),
{
    let id = doc.work_id()->0;
    let cid = locator->0;
    let title = title_of(doc)->0;
    let d = text::trimmed(description);
    let authors = distinct_names(doc.author_name);
    let head = card_head(id, cid, title, d);
    lemma_reveal_card_keys();
    assert(("cids/"@ + cid)[0] == 'c' && ("cids/"@ + cid)[1] == 'i');
    lemma_not_member("authors/"@, authors, "openlibraryid"@, 0);
    lemma_not_member("authors/"@, authors, "fileType"@, 0);
    lemma_not_member("authors/"@, authors, "contentKind"@, 0);
    lemma_not_member("authors/"@, authors, "domain"@, 0);
    lemma_not_member("authors/"@, authors, "workForm"@, 0);
    lemma_not_member("authors/"@, authors, "title"@, 0);
    lemma_not_member("authors/"@, authors, "description/eng"@, 0);
    lemma_with_members(head, "authors/"@, authors, "openlibraryid"@);
    lemma_with_members(head, "authors/"@, authors, "fileType"@);
    lemma_with_members(head, "authors/"@, authors, "contentKind"@);
    lemma_with_members(head, "authors/"@, authors, "domain"@);
    lemma_with_members(head, "authors/"@, authors, "workForm"@);
    lemma_with_members(head, "authors/"@, authors, "title"@);
    lemma_with_members(head, "authors/"@, authors, "description/eng"@);
    assert(doc.key =~= "/works/"@ + id) by {
        assert(doc.key.take("/works/"@.len() as int) == "/works/"@);
    }
}

/// Each author of a card is a member of its author set, and the names of the set are
/// those of the document, trimmed and without blanks; no name occurs twice.
pub proof fn law_card_authors(names: Seq<Seq<char>>)
    ensures
        distinct_names(names).no_duplicates(),
        forall|a: Seq<char>| #[trigger]
            distinct_names(names).contains(a) <==> a.len() > 0 && exists|i: int|
                0 <= i < names.len() && text::trimmed(#[trigger] names[i]) == a,
    decreases names.len(),
{
    if names.len() > 0 {
        let init = names.drop_last();
        law_card_authors(init);
        let before = distinct_names(init);
        let last = names.len() - 1;
        let name = text::trimmed(names[last]);
        let all = distinct_names(names);
        assert forall|a: Seq<char>| #[trigger] all.contains(a) <==> a.len() > 0 && exists|i: int|
            0 <= i < names.len() && text::trimmed(#[trigger] names[i]) == a by {
            if all.contains(a) {
                let j = all.index_of(a);
                if j < before.len() {
                    assert(before[j] == a);
                    assert(before.contains(a));
                    let i = choose|i: int|
                        0 <= i < init.len() && text::trimmed(#[trigger] init[i]) == a;
                    assert(text::trimmed(names[i]) == a);
                } else {
                    assert(text::trimmed(names[last]) == a);
                }
            }
            if a.len() > 0 && exists|i: int|
                0 <= i < names.len() && text::trimmed(#[trigger] names[i]) == a {
                let i = choose|i: int|
                    0 <= i < names.len() && text::trimmed(#[trigger] names[i]) == a;
                if i < last {
                    assert(text::trimmed(init[i]) == a);
                    assert(before.contains(a));
                    let j = before.index_of(a);
                    assert(all[j] == a);
                } else if !before.contains(a) {
                    assert(all.last() == a);
                } else {
                    let j = before.index_of(a);
                    assert(all[j] == a);
                }
            }
        }
    }
}

/// A card depends on the query through the three browse markers only.
pub proof fn law_card_reads_markers_only(
    doc: SearchDocView,
    description: Seq<char>,
    a: GatewayQueryView,
    b: GatewayQueryView,
    locator: Option<Seq<char>>,
)
    requires
        a.is_true("popular"@) == b.is_true("popular"@),
        a.is_true("fresh"@) == b.is_true("fresh"@),
        a.is_true("trending"@) == b.is_true("trending"@),
    ensures
        card(doc, description, a, locator) == card(doc, description, b, locator),
{
}

/// A card of a row carries the row's marker, and a marker that was not asked for is
/// not there.
pub proof fn law_card_echoes_markers(
    doc: SearchDocView,
    description: Seq<char>,
    q: GatewayQueryView,
    locator: Option<Seq<char>>,
)
    requires
        card(doc, description, q, locator) is Some,
    ensures
        ({
            let fields = card(doc, description, q, locator)->0.fields;
            &&& fields.contains_key("popular"@) == q.is_true("popular"@)
            &&& fields.contains_key("fresh"@) == q.is_true("fresh"@)
            &&& fields.contains_key("trending"@) == q.is_true("trending"@)
        }),
{
    let id = doc.work_id()->0;
    let cid = locator->0;
    let title = title_of(doc)->0;
    let d = text::trimmed(description);
    let authors = distinct_names(doc.author_name);
    let head = card_head(id, cid, title, d);
    lemma_reveal_card_keys();
    assert(("cids/"@ + cid)[0] == 'c');
    lemma_not_member("authors/"@, authors, "popular"@, 0);
    lemma_not_member("authors/"@, authors, "fresh"@, 0);
    lemma_not_member("authors/"@, authors, "trending"@, 0);
    lemma_with_members(head, "authors/"@, authors, "popular"@);
    lemma_with_members(head, "authors/"@, authors, "fresh"@);
    lemma_with_members(head, "authors/"@, authors, "trending"@);
}

/// A work that was merged away is not minted under its old id: a card comes only of a
/// work that is kept under the id that the document names, and is that id's record.
pub proof fn law_merged_work_is_no_card(
    doc: SearchDocView,
    answer: Option<(Seq<char>, Option<Seq<char>>)>,
    q: GatewayQueryView,
    locator: Option<Seq<char>>,
)
    ensures
        card_after(doc, answer, q, locator) matches Some(r) ==> answer is Some && (answer->0).0
            == r.record_id && doc.work_id() == Some(r.record_id),
{
}

/// The documents that become cards have different keys, and each of them can become
/// one.
pub proof fn law_candidates(docs: Seq<SearchDocView>)
    ensures
        forall|i: int|
            0 <= i < candidates_of(docs).len() ==> is_candidate(#[trigger] candidates_of(docs)[i]),
        forall|i: int, j: int|
            0 <= i < j < candidates_of(docs).len() ==> (#[trigger] candidates_of(docs)[i]).key != (
            #[trigger] candidates_of(docs)[j]).key,
    decreases docs.len(),
{
    if docs.len() > 0 {
        law_candidates(docs.drop_last());
        let init = candidates_of(docs.drop_last());
        let all = candidates_of(docs);
        assert forall|i: int, j: int| 0 <= i < j < all.len() implies (#[trigger] all[i]).key != (
        #[trigger] all[j]).key by {
            if j == init.len() {
                assert(init[i] == all[i]);
                assert(!has_key(init, docs.last().key));
            } else {
                assert(init[i].key != init[j].key);
            }
        }
    }
}

/// Documents of different keys name different works.
pub proof fn law_keys_tell_works_apart(a: SearchDocView, b: SearchDocView)
    requires
        a.work_id() is Some,
        b.work_id() is Some,
    ensures
        a.work_id() == b.work_id() <==> a.key == b.key,
{
    assert(a.key =~= "/works/"@ + a.work_id()->0) by {
        assert(a.key.take("/works/"@.len() as int) == "/works/"@);
    }
    assert(b.key =~= "/works/"@ + b.work_id()->0) by {
        assert(b.key.take("/works/"@.len() as int) == "/works/"@);
    }
}

/// There are at most `n` cards. Each is the card of one of the candidates, and where
/// the candidates have different keys, no two cards are of one work. Once there are
/// `n`, a further candidate changes nothing.
pub proof fn law_projection(looked: Seq<Looked>, q: GatewayQueryView, n: nat)
    requires
        forall|i: int, j: int|
            0 <= i < j < looked.len() ==> (#[trigger] looked[i]).doc.key != (
            #[trigger] looked[j]).doc.key,
    ensures
        cards_of(looked, q, n).len() <= n,
        forall|c: int|
            0 <= c < cards_of(looked, q, n).len() ==> exists|i: int|
                #![trigger looked[i]]
                0 <= i < looked.len() && card_after(
                    looked[i].doc,
                    looked[i].answer,
                    q,
                    looked[i].locator,
                ) == Some(#[trigger] cards_of(looked, q, n)[c]),
        forall|c: int, d: int|
            0 <= c < d < cards_of(looked, q, n).len() ==> (#[trigger] cards_of(
                looked,
                q,
                n,
            )[c]).record_id != (#[trigger] cards_of(looked, q, n)[d]).record_id,
        forall|l: Looked|
            cards_of(looked, q, n).len() == n ==> #[trigger] cards_of(looked.push(l), q, n)
                == cards_of(looked, q, n),
    decreases looked.len(),
{
    let cards = cards_of(looked, q, n);
    if looked.len() > 0 {
        let init = looked.drop_last();
        let last = looked.len() - 1;
        assert forall|i: int, j: int| 0 <= i < j < init.len() implies (
        #[trigger] init[i]).doc.key != (#[trigger] init[j]).doc.key by {
            assert(looked[i].doc.key != looked[j].doc.key);
        }
        law_projection(init, q, n);
        let before = cards_of(init, q, n);
        let l = looked[last];
        assert forall|c: int| 0 <= c < cards.len() implies exists|i: int|
            #![trigger looked[i]]
            0 <= i < looked.len() && card_after(
                looked[i].doc,
                looked[i].answer,
                q,
                looked[i].locator,
            ) == Some(#[trigger] cards[c]) by {
            if c < before.len() {
                assert(before[c] == cards[c]);
                let i = choose|i: int|
                    #![trigger init[i]]
                    0 <= i < init.len() && card_after(
                        init[i].doc,
                        init[i].answer,
                        q,
                        init[i].locator,
                    ) == Some(before[c]);
                assert(init[i] == looked[i]);
            } else {
                assert(looked[last] == l);
            }
        }
        assert forall|c: int, d: int| 0 <= c < d < cards.len() implies (
        #[trigger] cards[c]).record_id != (#[trigger] cards[d]).record_id by {
            assert(before[c] == cards[c]);
            if d < before.len() {
                assert(before[d] == cards[d]);
            } else {
                let i = choose|i: int|
                    #![trigger init[i]]
                    0 <= i < init.len() && card_after(
                        init[i].doc,
                        init[i].answer,
                        q,
                        init[i].locator,
                    ) == Some(before[c]);
                assert(init[i] == looked[i]);
                assert(looked[i].doc.key != looked[last].doc.key);
                law_keys_tell_works_apart(looked[i].doc, l.doc);
            }
        }
    }
    assert forall|l: Looked| cards.len() == n implies #[trigger] cards_of(looked.push(l), q, n)
        == cards by {
        assert(looked.push(l).drop_last() == looked);
    }
}

/// However often a list names a work, at most one card comes of it: the cards of a
/// list's candidates, looked up in order as far as one likes, are of different works.
pub proof fn law_one_card_per_work(
    docs: Seq<SearchDocView>,
    looked: Seq<Looked>,
    q: GatewayQueryView,
    n: nat,
)
    requires
        looked.len() <= candidates_of(docs).len(),
        forall|i: int|
            0 <= i < looked.len() ==> (#[trigger] looked[i]).doc == candidates_of(docs)[i],
    ensures
        cards_of(looked, q, n).len() <= n,
        forall|c: int, d: int|
            0 <= c < d < cards_of(looked, q, n).len() ==> (#[trigger] cards_of(
                looked,
                q,
                n,
            )[c]).record_id != (#[trigger] cards_of(looked, q, n)[d]).record_id,
{
    law_candidates(docs);
    assert forall|i: int, j: int| 0 <= i < j < looked.len() implies (
    #[trigger] looked[i]).doc.key != (#[trigger] looked[j]).doc.key by {
        assert(candidates_of(docs)[i].key != candidates_of(docs)[j].key);
    }
    law_projection(looked, q, n);
}

/// The documents that can become cards are those of the list with a work's key, a title
/// and a positive cover number: all of them, each key once and by its first such document,
/// in the order of the list. The result says where in the list each of them stands.
#[verifier::rlimit(50)]
pub proof fn law_candidates_are_all_and_in_order(docs: Seq<SearchDocView>) -> (at: Seq<int>)
    ensures
        at.len() == candidates_of(docs).len(),
        forall|k: int|
            0 <= k < at.len() ==> {
                let i = #[trigger] at[k];
                0 <= i < docs.len() && candidates_of(docs)[k] == docs[i]
            },
        forall|j: int, k: int| 0 <= j < k < at.len() ==> #[trigger] at[j] < #[trigger] at[k],
        forall|i: int|
            0 <= i < docs.len() && client::work_of_path((#[trigger] docs[i]).key) is Some
                && docs[i].title is Some && !text::is_blank(docs[i].title->0)
                && docs[i].cover_i is Some && docs[i].cover_i->0 > 0 ==> exists|k: int|
                0 <= k < at.len() && docs[#[trigger] at[k]].key == docs[i].key && at[k] <= i,
    decreases docs.len(),
{
    if docs.len() == 0 {
        Seq::empty()
    } else {
        let init = docs.drop_last();
        let last = docs.len() - 1;
        let before = law_candidates_are_all_and_in_order(init);
        let some = candidates_of(init);
        let all = candidates_of(docs);
        let taken = is_candidate(docs.last()) && !has_key(some, docs.last().key);
        let at = if taken {
            before.push(last)
        } else {
            before
        };
        assert forall|k: int| 0 <= k < at.len() implies {
            let i = #[trigger] at[k];
            0 <= i < docs.len() && all[k] == docs[i]
        } by {
            if k < before.len() {
                assert(before[k] == at[k]);
                assert(init[before[k]] == docs[before[k]]);
            }
        }
        assert forall|j: int, k: int| 0 <= j < k < at.len() implies #[trigger] at[j]
            < #[trigger] at[k] by {
            assert(before[j] == at[j]);
            if k < before.len() {
                assert(before[k] == at[k]);
            }
        }
        assert forall|i: int|
            0 <= i < docs.len() && client::work_of_path((#[trigger] docs[i]).key) is Some
                && docs[i].title is Some && !text::is_blank(docs[i].title->0)
                && docs[i].cover_i is Some && docs[i].cover_i->0 > 0 implies exists|k: int|
            0 <= k < at.len() && docs[#[trigger] at[k]].key == docs[i].key && at[k] <= i by {
            if i < last {
                assert(init[i] == docs[i]);
                let k = choose|k: int|
                    0 <= k < before.len() && init[#[trigger] before[k]].key == init[i].key
                        && before[k] <= i;
                assert(at[k] == before[k]);
                assert(init[before[k]] == docs[before[k]]);
            } else if taken {
                assert(at[at.len() - 1] == last);
            } else {
                let k = choose|k: int|
                    0 <= k < some.len() && (#[trigger] some[k]).key == docs.last().key;
                assert(at[k] == before[k]);
                assert(init[before[k]] == docs[before[k]]);
            }
        }
        at
    }
}

/// Each candidate has a work's key, a title that is not blank and a positive cover number.
pub proof fn law_candidates_can_be_cards(docs: Seq<SearchDocView>, k: int)
    requires
        0 <= k < candidates_of(docs).len(),
    ensures
        ({
            let d = candidates_of(docs)[k];
            &&& client::work_of_path(d.key) is Some
            &&& d.title is Some && !text::is_blank(d.title->0)
            &&& d.cover_i is Some && d.cover_i->0 > 0
        }),
{
    law_candidates(docs);
    assert(is_candidate(candidates_of(docs)[k]));
}

/// Where no two documents have the same key and each can become a card, all of them do,
/// however many there are.
pub proof fn law_all_are_candidates(docs: Seq<SearchDocView>)
    requires
        forall|i: int|
            0 <= i < docs.len() ==> client::work_of_path((#[trigger] docs[i]).key) is Some
                && docs[i].title is Some && !text::is_blank(docs[i].title->0)
                && docs[i].cover_i is Some && docs[i].cover_i->0 > 0,
        forall|i: int, j: int|
            0 <= i < j < docs.len() ==> (#[trigger] docs[i]).key != (#[trigger] docs[j]).key,
    ensures
        candidates_of(docs) == docs,
    decreases docs.len(),
{
    if docs.len() > 0 {
        let init = docs.drop_last();
        assert forall|i: int| 0 <= i < init.len() implies client::work_of_path(
            (#[trigger] init[i]).key,
        ) is Some && init[i].title is Some && !text::is_blank(init[i].title->0)
            && init[i].cover_i is Some && init[i].cover_i->0 > 0 by {
            assert(init[i] == docs[i]);
        }
        assert forall|i: int, j: int| 0 <= i < j < init.len() implies (#[trigger] init[i]).key != (
        #[trigger] init[j]).key by {
            assert(docs[i].key != docs[j].key);
        }
        law_all_are_candidates(init);
        let last = docs.len() - 1;
        assert(is_candidate(docs[last]));
        assert(!has_key(init, docs.last().key)) by {
            if has_key(init, docs.last().key) {
                let i = choose|i: int|
                    0 <= i < init.len() && (#[trigger] init[i]).key == docs.last().key;
                assert(docs[i].key != docs[last].key);
            }
        }
        assert(init.push(docs.last()) =~= docs);
    } else {
        assert(candidates_of(docs) =~= docs);
    }
}

/// A candidate becomes a card exactly where its work is kept under the id that its key
/// names, with a description that is not blank, and it has an address, a title and a
/// cover.
pub proof fn law_card_comes(
    doc: SearchDocView,
    answer: Option<(Seq<char>, Option<Seq<char>>)>,
    q: GatewayQueryView,
    locator: Option<Seq<char>>,
)
    ensures
        card_after(doc, answer, q, locator) is Some <==> {
            &&& answer is Some
            &&& (answer->0).1 is Some
            &&& !text::is_blank((answer->0).1->0)
            &&& client::names_work((answer->0).0)
            &&& doc.key == "/works/"@ + (answer->0).0
            &&& locator is Some
            &&& doc.title is Some
            &&& !text::is_blank(doc.title->0)
            &&& doc.cover_i is Some
            &&& doc.cover_i->0 > 0
        },
        card_after(doc, answer, q, locator) is Some ==> card_after(doc, answer, q, locator) == card(
            doc,
            (answer->0).1->0,
            q,
            locator,
        ),
{
    if answer is Some {
        client::law_work_path(doc.key, (answer->0).0);
    }
}

/// The cards of a list of candidates are those that come of it, in order, up to the wanted
/// number: none that comes is left out unless as many as are wanted came before it. The
/// result says of which candidate each card is.
pub proof fn law_cards_are_the_first_that_come(
    looked: Seq<Looked>,
    q: GatewayQueryView,
    n: nat,
) -> (at: Seq<int>)
    ensures
        at.len() == cards_of(looked, q, n).len(),
        at.len() <= n,
        forall|c: int|
            0 <= c < at.len() ==> {
                let i = #[trigger] at[c];
                0 <= i < looked.len() && card_after(
                    looked[i].doc,
                    looked[i].answer,
                    q,
                    looked[i].locator,
                ) == Some(cards_of(looked, q, n)[c])
            },
        forall|c: int, d: int| 0 <= c < d < at.len() ==> #[trigger] at[c] < #[trigger] at[d],
        forall|i: int|
            #![trigger looked[i]]
            0 <= i < looked.len() && card_after(
                looked[i].doc,
                looked[i].answer,
                q,
                looked[i].locator,
            ) is Some ==> at.contains(i) || (at.len() == n && forall|c: int|
                0 <= c < n ==> #[trigger] at[c] < i),
    decreases looked.len(),
{
    if looked.len() == 0 {
        Seq::empty()
    } else {
        let init = looked.drop_last();
        let last = looked.len() - 1;
        let before = law_cards_are_the_first_that_come(init, q, n);
        let some = cards_of(init, q, n);
        let cards = cards_of(looked, q, n);
        let l = looked[last];
        let more = card_after(l.doc, l.answer, q, l.locator);
        let at = if more is Some && some.len() < n {
            before.push(last)
        } else {
            before
        };
        assert forall|c: int| 0 <= c < at.len() implies {
            let i = #[trigger] at[c];
            0 <= i < looked.len() && card_after(
                looked[i].doc,
                looked[i].answer,
                q,
                looked[i].locator,
            ) == Some(cards[c])
        } by {
            if c < before.len() {
                assert(at[c] == before[c]);
                assert(init[before[c]] == looked[before[c]]);
                assert(some[c] == cards[c]);
            }
        }
        assert forall|c: int, d: int| 0 <= c < d < at.len() implies #[trigger] at[c]
            < #[trigger] at[d] by {
            assert(at[c] == before[c]);
            if d < before.len() {
                assert(at[d] == before[d]);
            }
        }
        assert forall|i: int|
            #![trigger looked[i]]
            0 <= i < looked.len() && card_after(
                looked[i].doc,
                looked[i].answer,
                q,
                looked[i].locator,
            ) is Some implies at.contains(i) || (at.len() == n && forall|c: int|
            0 <= c < n ==> #[trigger] at[c] < i) by {
            if i < last {
                assert(init[i] == looked[i]);
                if before.contains(i) {
                    let c = before.index_of(i);
                    assert(at[c] == i);
                } else {
                    assert(at == before);
                }
            } else if some.len() < n {
                assert(at[at.len() - 1] == last);
            } else {
                assert forall|c: int| 0 <= c < n implies #[trigger] at[c] < i by {
                    assert(at[c] == before[c]);
                }
            }
        }
        at
    }
}

/// Where a card comes of every candidate there are as many cards as candidates, or as many
/// as are wanted where that is fewer.
pub proof fn law_card_count(looked: Seq<Looked>, q: GatewayQueryView, n: nat)
    requires
        forall|i: int|
            #![trigger looked[i]]
            0 <= i < looked.len() ==> card_after(
                looked[i].doc,
                looked[i].answer,
                q,
                looked[i].locator,
            ) is Some,
    ensures
        cards_of(looked, q, n).len() == if looked.len() <= n {
            looked.len()
        } else {
            n
        },
    decreases looked.len(),
{
    if looked.len() > 0 {
        let init = looked.drop_last();
        assert forall|i: int|
            #![trigger init[i]]
            0 <= i < init.len() implies card_after(
            init[i].doc,
            init[i].answer,
            q,
            init[i].locator,
        ) is Some by {
            assert(init[i] == looked[i]);
        }
        law_card_count(init, q, n);
        assert(looked.last() == looked[looked.len() - 1]);
    }
}

/// The cards grow with each candidate that is offered: by its card, where it has one and
/// fewer than the wanted number are there, and never otherwise.
pub proof fn law_offers_add_up(looked: Seq<Looked>, l: Looked, q: GatewayQueryView, n: nat)
    ensures
        ({
            let before = cards_of(looked, q, n);
            let after = with_card(before, n, card_after(l.doc, l.answer, q, l.locator));
            &&& cards_of(looked.push(l), q, n) == after
            &&& before.len() < n && card_after(l.doc, l.answer, q, l.locator) is Some ==> after
                == before.push(card_after(l.doc, l.answer, q, l.locator)->0)
            &&& before.len() >= n || card_after(l.doc, l.answer, q, l.locator) is None ==> after
                == before
            &&& cards_of(Seq::empty(), q, n).len() == 0
        }),
{
    assert(looked.push(l).drop_last() =~= looked);
}

/// The authors that are named first come first: more names behind a list add to its
/// authors and change nothing before.
pub proof fn law_author_order(a: Seq<Seq<char>>, b: Seq<Seq<char>>)
    ensures
        distinct_names(a).len() <= distinct_names(a + b).len(),
        distinct_names(a + b).take(distinct_names(a).len() as int) == distinct_names(a),
    decreases b.len(),
{
    let n = distinct_names(a).len() as int;
    if b.len() == 0 {
        assert(a + b =~= a);
        assert(distinct_names(a).take(n) =~= distinct_names(a));
    } else {
        law_author_order(a, b.drop_last());
        assert((a + b).drop_last() =~= a + b.drop_last());
        let init = distinct_names(a + b.drop_last());
        assert(distinct_names(a + b).take(n) =~= init.take(n));
    }
}

/// The authors as one text: none where there are none, and otherwise each of them, with a
/// comma and a space between each two.
pub proof fn law_byline(authors: Seq<Seq<char>>, name: Seq<char>)
    ensures
        byline(authors) is None <==> authors.len() == 0,
        byline(seq![name]) == Some(name),
        authors.len() > 0 ==> byline(authors.push(name)) == Some(byline(authors)->0 + ", "@ + name),
{
    text::law_joined(authors, seq![name], ", "@, name);
    assert(authors.push(name) =~= authors + seq![name]);
}

/// The year of a card is there exactly where it is positive. It is the number of the year,
/// with at least four digits.
pub proof fn law_release_year(year: Option<i32>)
    ensures
        release_year(year) is Some <==> year is Some && year->0 > 0,
        release_year(year) is Some ==> {
            let t = release_year(year)->0;
            let d = text::decimal(year->0 as nat);
            &&& t.len() >= 4
            &&& d.len() >= 4 ==> t == d
            &&& d.len() < 4 ==> t.len() == 4
            &&& t.skip(t.len() - d.len()) == d
            &&& forall|i: int| 0 <= i < t.len() - d.len() ==> #[trigger] t[i] == '0'
        },
{
    if year is Some && year->0 > 0 {
        text::law_zero_padded(text::decimal(year->0 as nat), 4);
    }
}

/// A card says of its work what the document says: all its authors, as a set and as one
/// text, the year, the cover by its number, and where the work is to be seen.
pub proof fn law_card_says_what_the_document_says(
    doc: SearchDocView,
    description: Seq<char>,
    q: GatewayQueryView,
    locator: Option<Seq<char>>,
    i: int,
)
    requires
        card(doc, description, q, locator) is Some,
    ensures
        ({
            let r = card(doc, description, q, locator)->0;
            let authors = distinct_names(doc.author_name);
            let year = doc.first_publish_year;
            &&& has_field(r.fields, "sourceUrl"@, "https://openlibrary.org/works/"@ + r.record_id)
            &&& has_field(r.fields, "source/gateway:openlibrary"@, "true"@)
            &&& has_field(r.fields, "cids/"@ + locator->0, "true"@)
            &&& has_field(
                r.fields,
                "poster_url"@,
                "https://covers.openlibrary.org/b/id/"@ + text::decimal(doc.cover_i->0 as nat)
                    + "-L.jpg"@,
            )
            &&& r.fields.contains_key("author"@) <==> authors.len() > 0
            &&& authors.len() > 0 ==> r.fields["author"@] == text::joined(authors, ", "@)
            &&& r.fields.contains_key("releasedate"@) <==> year is Some && year->0 > 0
            &&& year is Some && year->0 > 0 ==> r.fields["releasedate"@] == release_year(year)->0
            &&& 0 <= i < doc.author_name.len() && !text::is_blank(doc.author_name[i])
                ==> has_field(r.fields, "authors/"@ + text::trimmed(doc.author_name[i]), "true"@)
            &&& r.fields.contains_key("popular"@) ==> r.fields["popular"@] == "true"@
            &&& r.fields.contains_key("fresh"@) ==> r.fields["fresh"@] == "true"@
            &&& r.fields.contains_key("trending"@) ==> r.fields["trending"@] == "true"@
        }),
{
    let id = doc.work_id()->0;
    let cid = locator->0;
    let title = title_of(doc)->0;
    let d = text::trimmed(description);
    let authors = distinct_names(doc.author_name);
    let head = card_head(id, cid, title, d);
    lemma_reveal_card_keys();
    client::law_cover_url(doc);
    law_card_echoes_markers(doc, description, q, locator);
    let address = "cids/"@ + cid;
    assert(address[0] == 'c' && address[1] == 'i');
    lemma_not_member("authors/"@, authors, address, 0);
    lemma_with_members(head, "authors/"@, authors, address);
    lemma_not_member("authors/"@, authors, "author"@, 6);
    lemma_with_members(head, "authors/"@, authors, "author"@);
    lemma_not_member("authors/"@, authors, "releasedate"@, 0);
    lemma_with_members(head, "authors/"@, authors, "releasedate"@);
    if 0 <= i < doc.author_name.len() && !text::is_blank(doc.author_name[i]) {
        let name = text::trimmed(doc.author_name[i]);
        let key = "authors/"@ + name;
        law_card_authors(doc.author_name);
        assert(authors.contains(name)) by {
            assert(name.len() > 0 && text::trimmed(doc.author_name[i]) == name);
        }
        let n = authors.index_of(name);
        assert(key == "authors/"@ + authors[n]);
        assert(is_member("authors/"@, authors, key));
        lemma_with_members(head, "authors/"@, authors, key);
        assert(key[0] == 'a' && key.len() >= 8);
        assert(key[6] == "authors/"@[6]);
    }
}

/// The address of a card is the locator of its work, and what is no bare work id has none.
pub proof fn law_card_address(id: Seq<char>, locator: Option<Seq<char>>)
    ensures
        client::names_work(id) ==> card_address(id, locator) == locator,
        !client::names_work(id) ==> card_address(id, locator) is None,
{
}

/// A lookup gives the id under which the work is kept and its description as they came. A
/// work that is not there, and a lookup that failed, give nothing.
pub proof fn law_lookup_view(w: WorkText, e: GatewayError)
    ensures
        lookup_view(Ok(Some(w))) is Some,
        (lookup_view(Ok(Some(w)))->0).0 == w.id@,
        (lookup_view(Ok(Some(w)))->0).1 is Some <==> w.description is Some,
        w.description is Some ==> (lookup_view(Ok(Some(w)))->0).1 == Some(w.description->0@),
        lookup_view(Ok(None)) is None,
        lookup_view(Err(e)) is None,
{
}

} // verus!

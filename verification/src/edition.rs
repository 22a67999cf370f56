//! Project Gutenberg editions: what an edition says.
use crate::card::byline;
use crate::language::{iso639_1_to_2, language_codes, three_letter_codes, three_letters};
use crate::rdf::is_rdf_key;
use crate::table::{
    has_field, is_member, lemma_not_member, lemma_with_members, put, put_members, put_opt,
    with_field, with_members, Table,
};
use crate::text;
use crate::types::{
    record_views, DiscoveryRecord, DiscoveryRecordView, GatewayError, GatewayErrorView, HashKind,
    HashOutcome,
};
use vstd::prelude::*;

verus! {

/// The id of the upstream of editions.
pub const UPSTREAM: &'static str = "gutenberg";

/// The format whose bytes an edition is.
pub const EPUB_FORMAT: &'static str = "application/epub+zip";

/// The format of a cover.
pub const COVER_FORMAT: &'static str = "image/jpeg";

/// An author, as Gutendex names one.
#[derive(Debug)]
pub struct GutendexPerson {
    pub name: String,
}

/// A book, as Gutendex describes it.
#[derive(Debug)]
pub struct GutendexBook {
    pub id: u64,
    pub title: String,
    pub authors: Vec<GutendexPerson>,
    pub subjects: Vec<String>,
    pub bookshelves: Vec<String>,
    pub languages: Vec<String>,
    pub copyright: Option<bool>,
    pub media_type: Option<String>,
    /// Where the book is, by format.
    pub formats: Table<String>,
    /// How often the book was fetched. It changes without the book, and is not
    /// published.
    pub download_count: u64,
}

/// What is published of a [`GutendexBook`].
pub ghost struct BookView {
    pub id: u64,
    pub title: Seq<char>,
    pub authors: Seq<Seq<char>>,
    pub subjects: Seq<Seq<char>>,
    pub bookshelves: Seq<Seq<char>>,
    pub languages: Seq<Seq<char>>,
    pub copyright: Option<bool>,
    pub media_type: Option<Seq<char>>,
    pub formats: Map<Seq<char>, Seq<char>>,
}

pub open spec fn person_names(list: Seq<GutendexPerson>) -> Seq<Seq<char>> {
    list.map_values(|p: GutendexPerson| p.name@)
}

impl View for GutendexBook {
    type V = BookView;

    open spec fn view(&self) -> BookView {
        BookView {
            id: self.id,
            title: self.title@,
            authors: person_names(self.authors@),
            subjects: text::texts(self.subjects@),
            bookshelves: text::texts(self.bookshelves@),
            languages: text::texts(self.languages@),
            copyright: self.copyright,
            media_type: text::text_opt(self.media_type),
            formats: self.formats@,
        }
    }
}

// ---------------------------------------------------------------------------
// Names
// ---------------------------------------------------------------------------
/// A name in its natural order: `Austen, Jane` is `Jane Austen`. A name without a
/// comma, with several, or with nothing on one side of it, stays as it is.
pub open spec fn natural_name(name: Seq<char>) -> Seq<char> {
    match text::position(name, ","@) {
        Some(i) => {
            let family = text::trimmed(name.take(i));
            let given = text::trimmed(name.skip(i + 1));
            if text::position_from(name, ","@, i + 1) is None && family.len() > 0 && given.len()
                > 0 {
                given + " "@ + family
            } else {
                text::trimmed(name)
            }
        },
        None => text::trimmed(name),
    }
}

/// The names in their natural order, without the blank ones.
pub open spec fn natural_names(names: Seq<Seq<char>>) -> Seq<Seq<char>>
    decreases names.len(),
{
    if names.len() == 0 {
        Seq::empty()
    } else {
        let init = natural_names(names.drop_last());
        if text::is_blank(names.last()) {
            init
        } else {
            init.push(natural_name(names.last()))
        }
    }
}

/// A name in its natural order.
pub fn name_in_order(name: &str) -> (r: String)
    ensures
        r@ == natural_name(name@),
{
    proof {
        reveal_strlit(",");
        text::lemma_position_from(name@, ","@, 0);
    }
    let v = text::chars_of(name);
    let comma = text::chars_of(",");
    match text::find_from(v.as_slice(), comma.as_slice(), 0) {
        Some(i) => {
            let n: usize = name.unicode_len();
            let before = name.substring_char(0, i);
            let after = name.substring_char(i + 1, n);
            assert(before@ =~= name@.take(i as int));
            assert(after@ =~= name@.skip(i + 1));
            let family = text::trim(before);
            let given = text::trim(after);
            let another = text::find_from(v.as_slice(), comma.as_slice(), i + 1);
            if another.is_none() && !family.is_empty() && !given.is_empty() {
                let mut r = given.to_owned();
                r.append(" ");
                r.append(family);
                r
            } else {
                text::trim(name).to_owned()
            }
        },
        None => text::trim(name).to_owned(),
    }
}

fn names_of(list: &Vec<GutendexPerson>) -> (r: Vec<String>)
    ensures
        text::texts(r@) == person_names(list@),
{
    let mut out: Vec<String> = Vec::new();
    let mut i: usize = 0;
    while i < list.len()
        invariant
            i <= list@.len(),
            out@.len() == i,
            forall|k: int| 0 <= k < i ==> (#[trigger] out@[k])@ == list@[k].name@,
        decreases list@.len() - i,
    {
        out.push(list[i].name.clone());
        i += 1;
    }
    assert(text::texts(out@) =~= person_names(list@));
    out
}

fn names_in_order(names: &Vec<String>) -> (r: Vec<String>)
    ensures
        text::texts(r@) == natural_names(text::texts(names@)),
{
    let ghost all = text::texts(names@);
    let mut out: Vec<String> = Vec::new();
    let mut i: usize = 0;
    assert(text::texts(out@) =~= natural_names(all.take(0)));
    while i < names.len()
        invariant
            i <= names@.len(),
            all == text::texts(names@),
            text::texts(out@) == natural_names(all.take(i as int)),
        decreases names@.len() - i,
    {
        assert(all.take(i + 1).drop_last() == all.take(i as int));
        assert(all.take(i + 1).last() == names@[i as int]@);
        let name = names[i].as_str();
        if !text::trim(name).is_empty() {
            let natural = name_in_order(name);
            let ghost before = out@;
            let ghost n = natural@;
            out.push(natural);
            assert(text::texts(out@) =~= text::texts(before).push(n));
        }
        i += 1;
    }
    assert(all.take(all.len() as int) == all);
    out
}

// ---------------------------------------------------------------------------
// Records
// ---------------------------------------------------------------------------
/// Where a book is in a format.
pub open spec fn format_url(book: BookView, format: Seq<char>) -> Option<Seq<char>> {
    if book.formats.contains_key(format) {
        Some(book.formats[format])
    } else {
        None
    }
}

/// The code of the first language.
pub open spec fn first_language(languages: Seq<Seq<char>>) -> Option<Seq<char>> {
    if languages.len() == 0 {
        None
    } else {
        Some(three_letters(languages[0]))
    }
}

/// `m` with the one address of an edition, where it has one.
pub open spec fn with_address(m: Map<Seq<char>, Seq<char>>, cid: Option<Seq<char>>) -> Map<
    Seq<char>,
    Seq<char>,
> {
    match cid {
        Some(c) => m.insert("cids/"@ + c, "true"@),
        None => m,
    }
}

/// The address of an edition: the locator of its epub, where it has one.
pub open spec fn edition_address(book: BookView, locator: Option<Seq<char>>) -> Option<
    Seq<char>,
> {
    if book.formats.contains_key(EPUB_FORMAT@) {
        locator
    } else {
        None
    }
}

/// `epub`, where there is one.
pub open spec fn edition_format(book: BookView) -> Option<Seq<char>> {
    if book.formats.contains_key(EPUB_FORMAT@) {
        Some("epub"@)
    } else {
        None
    }
}

/// Whether a book is in the public domain, where Gutendex says.
pub open spec fn public_domain(copyright: Option<bool>) -> Option<Seq<char>> {
    match copyright {
        Some(true) => Some("false"@),
        Some(false) => Some("true"@),
        None => None,
    }
}

/// The licence of a book that is in the public domain. Of another book nothing is
/// said.
pub open spec fn licence(copyright: Option<bool>) -> Option<Seq<char>> {
    match copyright {
        Some(false) => Some("PublicDomain"@),
        _ => None,
    }
}

/// `value`, where an edition is linked to a work.
pub open spec fn if_bound(binding: Option<Seq<char>>, value: Seq<char>) -> Option<Seq<char>> {
    match binding {
        Some(_) => Some(value),
        None => None,
    }
}

/// The fields that an edition has of its own. `locator` is the locator of its epub,
/// and `binding` the work that Open Library links to it.
pub open spec fn own_fields(
    book: BookView,
    locator: Option<Seq<char>>,
    binding: Option<Seq<char>>,
) -> Map<Seq<char>, Seq<char>> {
    let id = text::decimal(book.id as nat);
    let m = Map::<Seq<char>, Seq<char>>::empty();
    let m = m.insert("title"@, book.title);
    let m = m.insert("fileType"@, "document"@);
    let m = m.insert("contentKind"@, "book"@);
    let m = m.insert("domain"@, "literature"@);
    let m = m.insert("workForm"@, "standalone"@);
    let m = m.insert("sourceUrl"@, "https://www.gutenberg.org/ebooks/"@ + id);
    let m = m.insert("gutenbergid"@, id);
    let m = with_field(m, "author"@, byline(book.authors));
    let m = with_members(m, "authors/"@, natural_names(book.authors));
    let m = with_field(m, "language"@, first_language(book.languages));
    let m = with_members(m, "languages/"@, three_letter_codes(book.languages));
    let m = with_field(m, "subjects"@, byline(book.subjects));
    let m = with_field(m, "bookshelves"@, byline(book.bookshelves));
    let m = with_field(m, "mediaType"@, book.media_type);
    let m = with_field(m, "poster_url"@, format_url(book, COVER_FORMAT@));
    let m = with_field(m, "format"@, edition_format(book));
    let m = with_address(m, edition_address(book, locator));
    let m = with_field(m, "publicDomain"@, public_domain(book.copyright));
    let m = with_field(m, "licence"@, licence(book.copyright));
    let m = m.insert("fileName"@, "gutenberg-"@ + id + ".epub"@);
    let m = with_field(m, "openlibraryid"@, binding);
    let m = with_field(m, "anchored"@, if_bound(binding, "true"@));
    with_field(m, "anchorSource"@, if_bound(binding, "openlibrary"@))
}

/// The record of an edition: its own fields, and those of `bibrec` at other keys.
pub open spec fn edition(
    book: BookView,
    bibrec: Map<Seq<char>, Seq<char>>,
    locator: Option<Seq<char>>,
    binding: Option<Seq<char>>,
) -> DiscoveryRecordView {
    DiscoveryRecordView {
        upstream_id: UPSTREAM@,
        record_id: text::decimal(book.id as nat),
        fields: bibrec.union_prefer_right(own_fields(book, locator, binding)),
    }
}

fn list_text(list: &Vec<String>) -> (r: Option<String>)
    ensures
        text::text_opt(r) == byline(text::texts(list@)),
{
    if list.len() == 0 {
        None
    } else {
        Some(text::join(list.as_slice(), ", "))
    }
}

/// Where a book is to be had in `format`.
fn url_in(book: &GutendexBook, format: &str) -> (r: Option<String>)
    ensures
        text::text_opt(r) == format_url(book@, format@),
{
    match book.formats.get(format) {
        Some(url) => Some(url.clone()),
        None => None,
    }
}

/// The record of an edition.
///
/// `bibrec` holds the fields of its RDF document, which never take the place of its
/// own. `locator` is the url locator of its epub, which is its one address: a record
/// without an address is not stored. `binding` is the work that Open Library itself
/// links to the etext, and is published as a claim that is anchored there.
///
/// The address `_cover_cid` of its cover is not published. The cover travels as
/// `poster_url`, from which the gateway fetches and hashes it.
pub fn into_discovery_record(
    book: GutendexBook,
    _cover_cid: Option<String>,
    bibrec: Table<String>,
    locator: Option<String>,
    binding: Option<String>,
) -> (r: DiscoveryRecord)
    ensures
        r@ == edition(book@, bibrec@, text::text_opt(locator), text::text_opt(binding)),
{
    let id = text::decimal_of(book.id);
    let mut fields: Table<String> = Table::new();
    put(&mut fields, "title", book.title.as_str());
    put(&mut fields, "fileType", "document");
    put(&mut fields, "contentKind", "book");
    put(&mut fields, "domain", "literature");
    put(&mut fields, "workForm", "standalone");
    let mut source_url = "https://www.gutenberg.org/ebooks/".to_owned();
    source_url.append(id.as_str());
    put(&mut fields, "sourceUrl", source_url.as_str());
    put(&mut fields, "gutenbergid", id.as_str());
    let names = names_of(&book.authors);
    put_opt(&mut fields, "author", list_text(&names));
    let natural = names_in_order(&names);
    put_members(&mut fields, "authors/", &natural);
    if book.languages.len() > 0 {
        put(&mut fields, "language", iso639_1_to_2(book.languages[0].as_str()));
    }
    let codes = language_codes(&book.languages);
    put_members(&mut fields, "languages/", &codes);
    put_opt(&mut fields, "subjects", list_text(&book.subjects));
    put_opt(&mut fields, "bookshelves", list_text(&book.bookshelves));
    let media_type = match &book.media_type {
        Some(t) => Some(t.clone()),
        None => None,
    };
    put_opt(&mut fields, "mediaType", media_type);
    put_opt(&mut fields, "poster_url", url_in(&book, COVER_FORMAT));
    if book.formats.contains_key(EPUB_FORMAT) {
        put(&mut fields, "format", "epub");
        if let Some(cid) = &locator {
            let mut address = "cids/".to_owned();
            address.append(cid.as_str());
            put(&mut fields, address.as_str(), "true");
        }
    }
    if let Some(c) = book.copyright {
        if c {
            put(&mut fields, "publicDomain", "false");
        } else {
            put(&mut fields, "publicDomain", "true");
            put(&mut fields, "licence", "PublicDomain");
        }
    }
    let mut file_name = "gutenberg-".to_owned();
    file_name.append(id.as_str());
    file_name.append(".epub");
    put(&mut fields, "fileName", file_name.as_str());
    if let Some(work) = &binding {
        put(&mut fields, "openlibraryid", work.as_str());
        put(&mut fields, "anchored", "true");
        put(&mut fields, "anchorSource", "openlibrary");
    }
    fields.fill_from(bibrec);
    DiscoveryRecord { upstream_id: UPSTREAM.to_owned(), record_id: id, fields }
}

/// What was found out about an edition.
#[derive(Debug)]
pub struct Found {
    pub book: GutendexBook,
    /// The address of its cover.
    pub cover_cid: Option<String>,
    /// The fields of its RDF document.
    pub bibrec: Table<String>,
    /// The url locator of its epub.
    pub locator: Option<String>,
    /// The work that Open Library links to it.
    pub binding: Option<String>,
}

pub open spec fn least(a: nat, b: nat) -> nat {
    if a <= b {
        a
    } else {
        b
    }
}

/// What was found out about the books of a list: book by book, the first of each list
/// for the first book, and so on, as long as every list has an entry.
pub fn found_of(
    books: Vec<GutendexBook>,
    cover_cids: Vec<Option<String>>,
    bibrecs: Vec<Table<String>>,
    locators: Vec<Option<String>>,
    bindings: Vec<Option<String>>,
) -> (r: Vec<Found>)
    ensures
        r@.len() == least(
            books@.len(),
            least(
                cover_cids@.len(),
                least(bibrecs@.len(), least(locators@.len(), bindings@.len())),
            ),
        ),
        forall|i: int|
            0 <= i < r@.len() ==> #[trigger] r@[i] == (Found {
                book: books@[i],
                cover_cid: cover_cids@[i],
                bibrec: bibrecs@[i],
                locator: locators@[i],
                binding: bindings@[i],
            }),
{
    let mut b = books;
    let mut c = cover_cids;
    let mut f = bibrecs;
    let mut l = locators;
    let mut w = bindings;
    let mut out: Vec<Found> = Vec::new();
    assert(books@.skip(0) == books@);
    assert(cover_cids@.skip(0) == cover_cids@);
    assert(bibrecs@.skip(0) == bibrecs@);
    assert(locators@.skip(0) == locators@);
    assert(bindings@.skip(0) == bindings@);
    while b.len() > 0 && c.len() > 0 && f.len() > 0 && l.len() > 0 && w.len() > 0
        invariant
            out@.len() <= books@.len(),
            out@.len() <= cover_cids@.len(),
            out@.len() <= bibrecs@.len(),
            out@.len() <= locators@.len(),
            out@.len() <= bindings@.len(),
            b@ == books@.skip(out@.len() as int),
            c@ == cover_cids@.skip(out@.len() as int),
            f@ == bibrecs@.skip(out@.len() as int),
            l@ == locators@.skip(out@.len() as int),
            w@ == bindings@.skip(out@.len() as int),
            forall|i: int|
                0 <= i < out@.len() ==> #[trigger] out@[i] == (Found {
                    book: books@[i],
                    cover_cid: cover_cids@[i],
                    bibrec: bibrecs@[i],
                    locator: locators@[i],
                    binding: bindings@[i],
                }),
        decreases b@.len(),
    {
        let ghost n = out@.len() as int;
        out.push(
            Found {
                book: b.remove(0),
                cover_cid: c.remove(0),
                bibrec: f.remove(0),
                locator: l.remove(0),
                binding: w.remove(0),
            },
        );
        assert(b@ =~= books@.skip(n + 1));
        assert(c@ =~= cover_cids@.skip(n + 1));
        assert(f@ =~= bibrecs@.skip(n + 1));
        assert(l@ =~= locators@.skip(n + 1));
        assert(w@ =~= bindings@.skip(n + 1));
    }
    out
}

/// The record of what was found out about an edition.
pub open spec fn found_record(f: Found) -> DiscoveryRecordView {
    edition(f.book@, f.bibrec@, text::text_opt(f.locator), text::text_opt(f.binding))
}

/// The records of editions, one each and in order.
pub fn records_of(found: Vec<Found>) -> (r: Vec<DiscoveryRecord>)
    ensures
        record_views(r@) == found@.map_values(|f: Found| found_record(f)),
{
    let mut rest = found;
    let mut out: Vec<DiscoveryRecord> = Vec::new();
    let mut left: usize = rest.len();
    let ghost mut gone: int = 0;
    assert(found@.skip(0) == found@);
    while left > 0
        invariant
            0 <= gone,
            left + gone == found@.len(),
            rest@.len() == left,
            rest@ == found@.skip(gone),
            out@.len() == gone,
            forall|k: int| 0 <= k < gone ==> (#[trigger] out@[k])@ == found_record(found@[k]),
        decreases left,
    {
        let f = rest.remove(0);
        assert(f == found@[gone]);
        assert(rest@ =~= found@.skip(gone + 1));
        out.push(into_discovery_record(f.book, f.cover_cid, f.bibrec, f.locator, f.binding));
        proof {
            gone = gone + 1;
        }
        left -= 1;
    }
    assert(record_views(out@) =~= found@.map_values(|f: Found| found_record(f)));
    out
}

// ---------------------------------------------------------------------------
// Bytes
// ---------------------------------------------------------------------------
/// What is reported for an edition without an epub.
pub open spec fn no_epub(record_id: Seq<char>) -> GatewayErrorView {
    GatewayErrorView::Permanent(
        "gutenberg record "@ + record_id + " has no "@ + EPUB_FORMAT@ + " format"@,
    )
}

/// Where the epub of the edition `record_id` is.
pub fn epub_url(book: &GutendexBook, record_id: &str) -> (r: Result<String, GatewayError>)
    ensures
        match (format_url(book@, EPUB_FORMAT@), r) {
            (Some(url), Ok(u)) => u@ == url,
            (None, Err(e)) => e@ == no_epub(record_id@),
            _ => false,
        },
{
    match url_in(book, EPUB_FORMAT) {
        Some(url) => Ok(url),
        None => {
            let mut m = "gutenberg record ".to_owned();
            m.append(record_id);
            m.append(" has no ");
            m.append(EPUB_FORMAT);
            m.append(" format");
            Err(GatewayError::Permanent(m))
        },
    }
}

/// The URL whose url locator is the address of an edition's record: that of its epub.
pub fn locator_url(book: &GutendexBook) -> (r: Option<String>)
    ensures
        text::text_opt(r) == format_url(book@, EPUB_FORMAT@),
{
    url_in(book, EPUB_FORMAT)
}

/// The outcome of an edition: the content address `cid` of its epub, with the bytes
/// and the record.
pub fn edition_outcome(cid: String, bytes: Vec<u8>, record: DiscoveryRecord) -> (r: HashOutcome)
    ensures
        r.hash == cid,
        r.hash_kind == HashKind::Sha2_256,
        r.bytes == Some(bytes),
        r.record == Some(record),
        r.file_extension is Some,
        r.file_extension->0@ == "epub"@,
{
    HashOutcome {
        hash: cid,
        hash_kind: HashKind::Sha2_256,
        bytes: Some(bytes),
        record: Some(record),
        file_extension: Some("epub".to_owned()),
    }
}

// ---------------------------------------------------------------------------
// Laws
// ---------------------------------------------------------------------------
/// The fields of an RDF document, or none.
pub open spec fn is_bibrec(m: Map<Seq<char>, Seq<char>>) -> bool {
    forall|key: Seq<char>| #[trigger] m.contains_key(key) ==> is_rdf_key(key)
}

/// The keys of editions and of RDF documents are told apart by their lengths and
/// their first letters.
proof fn lemma_reveal_keys()
    ensures
        "fileType"@[4] == 'T' && "fileName"@[4] == 'N',
        "anchorSource"@[6] == 'S' && "anchorMethod"@[6] == 'M',
        "authorWebpage"@[6] == 'W' && "authors/"@[6] == 's',
        "title"@.len() == 5 && "title"@[0] == 't' && "title"@[1] == 'i' && "title"@[2] == 't',
        "fileType"@.len() == 8 && "fileType"@[0] == 'f' && "fileType"@[1] == 'i' && "fileType"@[2] == 'l',
        "contentKind"@.len() == 11 && "contentKind"@[0] == 'c' && "contentKind"@[1] == 'o' && "contentKind"@[2] == 'n',
        "domain"@.len() == 6 && "domain"@[0] == 'd' && "domain"@[1] == 'o' && "domain"@[2] == 'm',
        "workForm"@.len() == 8 && "workForm"@[0] == 'w' && "workForm"@[1] == 'o' && "workForm"@[2] == 'r',
        "sourceUrl"@.len() == 9 && "sourceUrl"@[0] == 's' && "sourceUrl"@[1] == 'o' && "sourceUrl"@[2] == 'u',
        "gutenbergid"@.len() == 11 && "gutenbergid"@[0] == 'g' && "gutenbergid"@[1] == 'u' && "gutenbergid"@[2] == 't',
        "author"@.len() == 6 && "author"@[0] == 'a' && "author"@[1] == 'u' && "author"@[2] == 't',
        "language"@.len() == 8 && "language"@[0] == 'l' && "language"@[1] == 'a' && "language"@[2] == 'n',
        "subjects"@.len() == 8 && "subjects"@[0] == 's' && "subjects"@[1] == 'u' && "subjects"@[2] == 'b',
        "bookshelves"@.len() == 11 && "bookshelves"@[0] == 'b' && "bookshelves"@[1] == 'o' && "bookshelves"@[2] == 'o',
        "mediaType"@.len() == 9 && "mediaType"@[0] == 'm' && "mediaType"@[1] == 'e' && "mediaType"@[2] == 'd',
        "poster_url"@.len() == 10 && "poster_url"@[0] == 'p' && "poster_url"@[1] == 'o' && "poster_url"@[2] == 's',
        "format"@.len() == 6 && "format"@[0] == 'f' && "format"@[1] == 'o' && "format"@[2] == 'r',
        "publicDomain"@.len() == 12 && "publicDomain"@[0] == 'p' && "publicDomain"@[1] == 'u' && "publicDomain"@[2] == 'b',
        "licence"@.len() == 7 && "licence"@[0] == 'l' && "licence"@[1] == 'i' && "licence"@[2] == 'c',
        "fileName"@.len() == 8 && "fileName"@[0] == 'f' && "fileName"@[1] == 'i' && "fileName"@[2] == 'l',
        "openlibraryid"@.len() == 13 && "openlibraryid"@[0] == 'o' && "openlibraryid"@[1] == 'p' && "openlibraryid"@[2] == 'e',
        "anchored"@.len() == 8 && "anchored"@[0] == 'a' && "anchored"@[1] == 'n' && "anchored"@[2] == 'c',
        "anchorSource"@.len() == 12 && "anchorSource"@[0] == 'a' && "anchorSource"@[1] == 'n' && "anchorSource"@[2] == 'c',
        "releaseDate"@.len() == 11 && "releaseDate"@[0] == 'r' && "releaseDate"@[1] == 'e' && "releaseDate"@[2] == 'l',
        "copyrightStatus"@.len() == 15 && "copyrightStatus"@[0] == 'c' && "copyrightStatus"@[1] == 'o' && "copyrightStatus"@[2] == 'p',
        "alternateTitle"@.len() == 14 && "alternateTitle"@[0] == 'a' && "alternateTitle"@[1] == 'l' && "alternateTitle"@[2] == 't',
        "wikipediaUrl"@.len() == 12 && "wikipediaUrl"@[0] == 'w' && "wikipediaUrl"@[1] == 'i' && "wikipediaUrl"@[2] == 'k',
        "note"@.len() == 4 && "note"@[0] == 'n' && "note"@[1] == 'o' && "note"@[2] == 't',
        "credits"@.len() == 7 && "credits"@[0] == 'c' && "credits"@[1] == 'r' && "credits"@[2] == 'e',
        "summary"@.len() == 7 && "summary"@[0] == 's' && "summary"@[1] == 'u' && "summary"@[2] == 'm',
        "readingLevel"@.len() == 12 && "readingLevel"@[0] == 'r' && "readingLevel"@[1] == 'e' && "readingLevel"@[2] == 'a',
        "authorWebpage"@.len() == 13 && "authorWebpage"@[0] == 'a' && "authorWebpage"@[1] == 'u' && "authorWebpage"@[2] == 't',
        "authors/"@.len() == 8 && "authors/"@[0] == 'a' && "authors/"@[1] == 'u' && "authors/"@[2] == 't',
        "languages/"@.len() == 10 && "languages/"@[0] == 'l' && "languages/"@[1] == 'a' && "languages/"@[2] == 'n',
        "cids/"@.len() == 5 && "cids/"@[0] == 'c' && "cids/"@[1] == 'i' && "cids/"@[2] == 'd',
        "anchorMethod"@.len() == 12 && "anchorMethod"@[0] == 'a' && "anchorMethod"@[1] == 'n' && "anchorMethod"@[2] == 'c',
        "poster"@.len() == 6 && "poster"@[0] == 'p' && "poster"@[1] == 'o' && "poster"@[2] == 's',
{
    reveal_strlit("title");
    reveal_strlit("fileType");
    reveal_strlit("contentKind");
    reveal_strlit("domain");
    reveal_strlit("workForm");
    reveal_strlit("sourceUrl");
    reveal_strlit("gutenbergid");
    reveal_strlit("author");
    reveal_strlit("language");
    reveal_strlit("subjects");
    reveal_strlit("bookshelves");
    reveal_strlit("mediaType");
    reveal_strlit("poster_url");
    reveal_strlit("format");
    reveal_strlit("publicDomain");
    reveal_strlit("licence");
    reveal_strlit("fileName");
    reveal_strlit("openlibraryid");
    reveal_strlit("anchored");
    reveal_strlit("anchorSource");
    reveal_strlit("releaseDate");
    reveal_strlit("copyrightStatus");
    reveal_strlit("alternateTitle");
    reveal_strlit("wikipediaUrl");
    reveal_strlit("note");
    reveal_strlit("credits");
    reveal_strlit("summary");
    reveal_strlit("readingLevel");
    reveal_strlit("authorWebpage");
    reveal_strlit("authors/");
    reveal_strlit("languages/");
    reveal_strlit("cids/");
    reveal_strlit("anchorMethod");
    reveal_strlit("poster");
}

/// The own fields of an edition up to its authors.
spec fn before_authors(book: BookView) -> Map<Seq<char>, Seq<char>> {
    let id = text::decimal(book.id as nat);
    let m = Map::<Seq<char>, Seq<char>>::empty();
    let m = m.insert("title"@, book.title);
    let m = m.insert("fileType"@, "document"@);
    let m = m.insert("contentKind"@, "book"@);
    let m = m.insert("domain"@, "literature"@);
    let m = m.insert("workForm"@, "standalone"@);
    let m = m.insert("sourceUrl"@, "https://www.gutenberg.org/ebooks/"@ + id);
    let m = m.insert("gutenbergid"@, id);
    with_field(m, "author"@, byline(book.authors))
}

/// The own fields of an edition up to its languages.
spec fn before_languages(book: BookView) -> Map<Seq<char>, Seq<char>> {
    let m = with_members(before_authors(book), "authors/"@, natural_names(book.authors));
    with_field(m, "language"@, first_language(book.languages))
}

/// What the two sets of an edition do at `key`.
proof fn lemma_sets(book: BookView, key: Seq<char>)
    ensures
        ({
            let names = natural_names(book.authors);
            let codes = three_letter_codes(book.languages);
            let a = with_members(before_authors(book), "authors/"@, names);
            let l = with_members(before_languages(book), "languages/"@, codes);
            &&& a.contains_key(key) == (before_authors(book).contains_key(key) || is_member(
                "authors/"@,
                names,
                key,
            ))
            &&& !is_member("authors/"@, names, key) ==> a[key] == before_authors(book)[key]
            &&& l.contains_key(key) == (before_languages(book).contains_key(key) || is_member(
                "languages/"@,
                codes,
                key,
            ))
            &&& !is_member("languages/"@, codes, key) ==> l[key] == before_languages(book)[key]
        }),
{
    lemma_with_members(before_authors(book), "authors/"@, natural_names(book.authors), key);
    lemma_with_members(
        before_languages(book),
        "languages/"@,
        three_letter_codes(book.languages),
        key,
    );
}

/// An edition has exactly one address where it has an epub that can be located, and
/// none otherwise: the keys that begin with `cids/`.
pub proof fn law_edition_has_one_address(
    book: BookView,
    bibrec: Map<Seq<char>, Seq<char>>,
    locator: Option<Seq<char>>,
    binding: Option<Seq<char>>,
    key: Seq<char>,
)
    requires
        is_bibrec(bibrec),
        text::has_prefix(key, "cids/"@),
    ensures
        edition(book, bibrec, locator, binding).fields.contains_key(key) <==> match edition_address(
            book,
            locator,
        ) {
            Some(cid) => key == "cids/"@ + cid,
            None => false,
        },
{
    lemma_reveal_keys();
    text::lemma_has_prefix(key, "cids/"@, 0);
    text::lemma_has_prefix(key, "cids/"@, 1);
    lemma_not_member("authors/"@, natural_names(book.authors), key, 0);
    lemma_not_member("languages/"@, three_letter_codes(book.languages), key, 0);
    lemma_sets(book, key);
}

/// What an edition has of its own is never replaced by its RDF document, which adds
/// what is not there.
pub proof fn law_bibrec_never_overrides(
    book: BookView,
    bibrec: Map<Seq<char>, Seq<char>>,
    locator: Option<Seq<char>>,
    binding: Option<Seq<char>>,
    key: Seq<char>,
)
    ensures
        ({
            let own = own_fields(book, locator, binding);
            let fields = edition(book, bibrec, locator, binding).fields;
            &&& fields.contains_key(key) <==> own.contains_key(key) || bibrec.contains_key(key)
            &&& own.contains_key(key) ==> fields[key] == own[key]
            &&& !own.contains_key(key) && bibrec.contains_key(key) ==> fields[key] == bibrec[key]
        }),
{
}

/// The value of an edition at a key that names no member of a set and no address.
proof fn lemma_plain_key(
    book: BookView,
    locator: Option<Seq<char>>,
    key: Seq<char>,
)
    requires
        key.len() > 2,
        key[0] != 'c' || key[1] != 'i',
        key[0] != 'a' || key[1] != 'u',
        key[0] != 'l' || key[1] != 'a',
    ensures
        !is_member("authors/"@, natural_names(book.authors), key),
        !is_member("languages/"@, three_letter_codes(book.languages), key),
        edition_address(book, locator) matches Some(cid) ==> key != "cids/"@ + cid,
{
    lemma_reveal_keys();
    if key[0] != 'a' {
        lemma_not_member("authors/"@, natural_names(book.authors), key, 0);
    } else {
        lemma_not_member("authors/"@, natural_names(book.authors), key, 1);
    }
    if key[0] != 'l' {
        lemma_not_member("languages/"@, three_letter_codes(book.languages), key, 0);
    } else {
        lemma_not_member("languages/"@, three_letter_codes(book.languages), key, 1);
    }
    match edition_address(book, locator) {
        Some(cid) => {
            assert(("cids/"@ + cid)[0] == 'c');
            assert(("cids/"@ + cid)[1] == 'i');
        },
        None => {},
    }
}

/// The licence `PublicDomain` is stated exactly for a book that Gutendex reports to be
/// out of copyright, and of a book of which it reports nothing nothing is stated.
pub proof fn law_licence(
    book: BookView,
    bibrec: Map<Seq<char>, Seq<char>>,
    locator: Option<Seq<char>>,
    binding: Option<Seq<char>>,
)
    requires
        is_bibrec(bibrec),
    ensures
        ({
            let fields = edition(book, bibrec, locator, binding).fields;
            &&& fields.contains_key("licence"@) <==> book.copyright == Some(false)
            &&& book.copyright == Some(false) ==> fields["licence"@] == "PublicDomain"@
            &&& fields.contains_key("publicDomain"@) <==> book.copyright is Some
            &&& book.copyright == Some(false) ==> fields["publicDomain"@] == "true"@
            &&& book.copyright == Some(true) ==> fields["publicDomain"@] == "false"@
        }),
{
    lemma_reveal_keys();
    lemma_plain_key(book, locator, "licence"@);
    lemma_sets(book, "licence"@);
    lemma_plain_key(book, locator, "publicDomain"@);
    lemma_sets(book, "publicDomain"@);
}

/// The claim of an edition to be a work's is made whole or not at all: its
/// `openlibraryid`, `anchored` and `anchorSource` are there exactly where Open Library
/// links the edition to a work. It never says how a match was made, for none was.
pub proof fn law_claim(
    book: BookView,
    bibrec: Map<Seq<char>, Seq<char>>,
    locator: Option<Seq<char>>,
    binding: Option<Seq<char>>,
)
    requires
        is_bibrec(bibrec),
    ensures
        ({
            let fields = edition(book, bibrec, locator, binding).fields;
            &&& fields.contains_key("openlibraryid"@) <==> binding is Some
            &&& fields.contains_key("anchored"@) <==> binding is Some
            &&& fields.contains_key("anchorSource"@) <==> binding is Some
            &&& binding matches Some(work) ==> fields["openlibraryid"@] == work
                && fields["anchored"@] == "true"@ && fields["anchorSource"@] == "openlibrary"@
            &&& !fields.contains_key("anchorMethod"@)
        }),
{
    lemma_reveal_keys();
    lemma_plain_key(book, locator, "openlibraryid"@);
    lemma_sets(book, "openlibraryid"@);
    lemma_plain_key(book, locator, "anchored"@);
    lemma_sets(book, "anchored"@);
    lemma_plain_key(book, locator, "anchorSource"@);
    lemma_sets(book, "anchorSource"@);
    lemma_plain_key(book, locator, "anchorMethod"@);
    lemma_sets(book, "anchorMethod"@);
}

/// An edition says what it is and which it is, and it names its cover by the cover's
/// URL alone: it carries no `poster`.
pub proof fn law_edition_names_itself(
    book: BookView,
    bibrec: Map<Seq<char>, Seq<char>>,
    locator: Option<Seq<char>>,
    binding: Option<Seq<char>>,
)
    requires
        is_bibrec(bibrec),
    ensures
        ({
            let r = edition(book, bibrec, locator, binding);
            &&& r.upstream_id == "gutenberg"@
            &&& r.record_id == text::decimal(book.id as nat)
            &&& has_field(r.fields, "gutenbergid"@, r.record_id)
            &&& has_field(r.fields, "title"@, book.title)
            &&& has_field(r.fields, "fileType"@, "document"@)
            &&& has_field(r.fields, "contentKind"@, "book"@)
            &&& has_field(r.fields, "domain"@, "literature"@)
            &&& has_field(r.fields, "workForm"@, "standalone"@)
            &&& has_field(
                r.fields,
                "sourceUrl"@,
                "https://www.gutenberg.org/ebooks/"@ + r.record_id,
            )
            &&& has_field(r.fields, "fileName"@, "gutenberg-"@ + r.record_id + ".epub"@)
            &&& r.fields.contains_key("poster_url"@) <==> book.formats.contains_key("image/jpeg"@)
            &&& book.formats.contains_key("image/jpeg"@) ==> r.fields["poster_url"@]
                == book.formats["image/jpeg"@]
            &&& !r.fields.contains_key("poster"@)
        }),
{
    lemma_reveal_keys();
    lemma_plain_key(book, locator, "gutenbergid"@);
    lemma_sets(book, "gutenbergid"@);
    lemma_plain_key(book, locator, "title"@);
    lemma_sets(book, "title"@);
    lemma_plain_key(book, locator, "fileType"@);
    lemma_sets(book, "fileType"@);
    lemma_plain_key(book, locator, "contentKind"@);
    lemma_sets(book, "contentKind"@);
    lemma_plain_key(book, locator, "domain"@);
    lemma_sets(book, "domain"@);
    lemma_plain_key(book, locator, "workForm"@);
    lemma_sets(book, "workForm"@);
    lemma_plain_key(book, locator, "poster_url"@);
    lemma_sets(book, "poster_url"@);
    lemma_plain_key(book, locator, "poster"@);
    lemma_sets(book, "poster"@);
    lemma_plain_key(book, locator, "sourceUrl"@);
    lemma_sets(book, "sourceUrl"@);
    lemma_plain_key(book, locator, "fileName"@);
    lemma_sets(book, "fileName"@);
}

/// The fields that an RDF document gives are such as an edition takes over.
pub proof fn law_rdf_fields_are_a_bibrec(xml: Seq<char>)
    ensures
        is_bibrec(crate::rdf::rdf_fields(xml)),
        is_bibrec(Map::<Seq<char>, Seq<char>>::empty()),
{
    assert forall|key: Seq<char>| #[trigger]
        crate::rdf::rdf_fields(xml).contains_key(key) implies is_rdf_key(key) by {
        crate::rdf::law_rdf_keys(xml, key);
    }
}

/// Nothing that an RDF document gives is lost: an edition has no fields of its own at
/// such keys.
pub proof fn law_rdf_fields_are_published(
    book: BookView,
    bibrec: Map<Seq<char>, Seq<char>>,
    locator: Option<Seq<char>>,
    binding: Option<Seq<char>>,
    key: Seq<char>,
)
    requires
        is_rdf_key(key),
    ensures
        ({
            let fields = edition(book, bibrec, locator, binding).fields;
            &&& fields.contains_key(key) <==> bibrec.contains_key(key)
            &&& bibrec.contains_key(key) ==> fields[key] == bibrec[key]
        }),
{
    lemma_reveal_keys();
    let names = natural_names(book.authors);
    if key == "authorWebpage"@ {
        lemma_not_member("authors/"@, names, key, 6);
    } else if key == "alternateTitle"@ {
        lemma_not_member("authors/"@, names, key, 1);
    } else {
        lemma_not_member("authors/"@, names, key, 0);
    }
    lemma_not_member("languages/"@, three_letter_codes(book.languages), key, 0);
    lemma_sets(book, key);
    match edition_address(book, locator) {
        Some(cid) => {
            assert(("cids/"@ + cid)[1] == 'i');
        },
        None => {},
    }
}

/// A card and an edition that Open Library links to its work meet in `openlibraryid`.
pub proof fn law_edition_meets_card(
    book: BookView,
    bibrec: Map<Seq<char>, Seq<char>>,
    locator: Option<Seq<char>>,
    binding: Option<Seq<char>>,
    doc: crate::openlibrary_client::SearchDocView,
    description: Seq<char>,
    q: crate::types::GatewayQueryView,
    card_locator: Option<Seq<char>>,
)
    requires
        is_bibrec(bibrec),
        crate::card::card(doc, description, q, card_locator) is Some,
        binding is Some,
        binding == doc.work_id(),
    ensures
        edition(book, bibrec, locator, binding).fields["openlibraryid"@] == crate::card::card(
            doc,
            description,
            q,
            card_locator,
        )->0.fields["openlibraryid"@],
{
    law_claim(book, bibrec, locator, binding);
    crate::card::law_card_names_its_work(doc, description, q, card_locator);
}

/// Every author of an edition that has a name is a member of its author set, under
/// the name in its natural order, and every language is a member of its language set.
pub proof fn law_edition_sets(
    book: BookView,
    bibrec: Map<Seq<char>, Seq<char>>,
    locator: Option<Seq<char>>,
    binding: Option<Seq<char>>,
    i: int,
)
    ensures
        0 <= i < book.authors.len() && !text::is_blank(book.authors[i]) ==> edition(
            book,
            bibrec,
            locator,
            binding,
        ).fields.contains_key("authors/"@ + natural_name(book.authors[i])),
        0 <= i < book.languages.len() ==> edition(
            book,
            bibrec,
            locator,
            binding,
        ).fields.contains_key("languages/"@ + three_letters(book.languages[i])),
{
    if 0 <= i < book.authors.len() && !text::is_blank(book.authors[i]) {
        let key = "authors/"@ + natural_name(book.authors[i]);
        lemma_natural_names(book.authors, i);
        let names = natural_names(book.authors);
        let n = names.index_of(natural_name(book.authors[i]));
        assert(key == "authors/"@ + names[n]);
        lemma_sets(book, key);
    }
    if 0 <= i < book.languages.len() {
        let key = "languages/"@ + three_letters(book.languages[i]);
        let codes = three_letter_codes(book.languages);
        assert(key == "languages/"@ + codes[i]);
        lemma_sets(book, key);
    }
}

proof fn lemma_natural_names(names: Seq<Seq<char>>, i: int)
    requires
        0 <= i < names.len(),
        !text::is_blank(names[i]),
    ensures
        natural_names(names).contains(natural_name(names[i])),
    decreases names.len(),
{
    let init = natural_names(names.drop_last());
    let all = natural_names(names);
    if i < names.len() - 1 {
        lemma_natural_names(names.drop_last(), i);
        let n = init.index_of(natural_name(names[i]));
        assert(all[n] == init[n]);
    } else {
        assert(all.last() == natural_name(names[i]));
    }
}

/// An edition says of its book what Gutendex says: its authors, subjects and shelves as one
/// text each, the first language, the kind of medium, and `epub` where there is one. What
/// Gutendex does not say is not there.
pub proof fn law_edition_says_what_the_book_says(
    book: BookView,
    bibrec: Map<Seq<char>, Seq<char>>,
    locator: Option<Seq<char>>,
    binding: Option<Seq<char>>,
)
    requires
        is_bibrec(bibrec),
    ensures
        ({
            let fields = edition(book, bibrec, locator, binding).fields;
            &&& fields.contains_key("author"@) <==> book.authors.len() > 0
            &&& book.authors.len() > 0 ==> fields["author"@] == text::joined(book.authors, ", "@)
            &&& fields.contains_key("subjects"@) <==> book.subjects.len() > 0
            &&& book.subjects.len() > 0 ==> fields["subjects"@] == text::joined(
                book.subjects,
                ", "@,
            )
            &&& fields.contains_key("bookshelves"@) <==> book.bookshelves.len() > 0
            &&& book.bookshelves.len() > 0 ==> fields["bookshelves"@] == text::joined(
                book.bookshelves,
                ", "@,
            )
            &&& fields.contains_key("language"@) <==> book.languages.len() > 0
            &&& book.languages.len() > 0 ==> fields["language"@] == three_letters(book.languages[0])
            &&& fields.contains_key("mediaType"@) <==> book.media_type is Some
            &&& book.media_type is Some ==> fields["mediaType"@] == book.media_type->0
            &&& fields.contains_key("format"@) <==> book.formats.contains_key(
                "application/epub+zip"@,
            )
            &&& fields.contains_key("format"@) ==> fields["format"@] == "epub"@
        }),
{
    lemma_reveal_keys();
    let names = natural_names(book.authors);
    let codes = three_letter_codes(book.languages);
    lemma_not_member("authors/"@, names, "author"@, 6);
    lemma_not_member("languages/"@, codes, "author"@, 0);
    lemma_sets(book, "author"@);
    lemma_not_member("authors/"@, names, "language"@, 0);
    lemma_not_member("languages/"@, codes, "language"@, 8);
    lemma_sets(book, "language"@);
    match edition_address(book, locator) {
        Some(cid) => {
            assert(("cids/"@ + cid)[0] == 'c');
        },
        None => {},
    }
    lemma_plain_key(book, locator, "subjects"@);
    lemma_sets(book, "subjects"@);
    lemma_plain_key(book, locator, "bookshelves"@);
    lemma_sets(book, "bookshelves"@);
    lemma_plain_key(book, locator, "mediaType"@);
    lemma_sets(book, "mediaType"@);
    lemma_plain_key(book, locator, "format"@);
    lemma_sets(book, "format"@);
}

/// The one address of an edition is the locator of its epub, where it has one.
pub proof fn law_edition_address(
    book: BookView,
    bibrec: Map<Seq<char>, Seq<char>>,
    locator: Option<Seq<char>>,
    binding: Option<Seq<char>>,
)
    requires
        book.formats.contains_key("application/epub+zip"@),
        locator is Some,
    ensures
        has_field(
            edition(book, bibrec, locator, binding).fields,
            "cids/"@ + locator->0,
            "true"@,
        ),
{
    lemma_reveal_keys();
    let key = "cids/"@ + locator->0;
    assert(key[0] == 'c' && key[1] == 'i');
    lemma_not_member("authors/"@, natural_names(book.authors), key, 0);
    lemma_not_member("languages/"@, three_letter_codes(book.languages), key, 0);
    lemma_sets(book, key);
}

/// A book without an epub, or whose epub has no locator, has no address at all.
pub proof fn law_edition_without_address(
    book: BookView,
    bibrec: Map<Seq<char>, Seq<char>>,
    locator: Option<Seq<char>>,
    binding: Option<Seq<char>>,
    key: Seq<char>,
)
    requires
        is_bibrec(bibrec),
        text::has_prefix(key, "cids/"@),
    ensures
        edition(book, bibrec, locator, binding).fields.contains_key(key)
            ==> book.formats.contains_key("application/epub+zip"@) && locator is Some && key
            == "cids/"@ + locator->0,
{
    law_edition_has_one_address(book, bibrec, locator, binding, key);
}

/// The members of an edition's sets: an author for each name that is not blank, a language
/// for each code, each marked `true`, and no others.
pub proof fn law_edition_set_members(
    book: BookView,
    bibrec: Map<Seq<char>, Seq<char>>,
    locator: Option<Seq<char>>,
    binding: Option<Seq<char>>,
    key: Seq<char>,
)
    requires
        is_bibrec(bibrec),
    ensures
        ({
            let fields = edition(book, bibrec, locator, binding).fields;
            &&& text::has_prefix(key, "authors/"@) ==> {
                &&& fields.contains_key(key) <==> exists|i: int|
                    0 <= i < book.authors.len() && !text::is_blank(#[trigger] book.authors[i])
                        && key == "authors/"@ + natural_name(book.authors[i])
                &&& fields.contains_key(key) ==> fields[key] == "true"@
            }
            &&& text::has_prefix(key, "languages/"@) ==> {
                &&& fields.contains_key(key) <==> exists|i: int|
                    0 <= i < book.languages.len() && key == "languages/"@ + three_letters(
                        #[trigger] book.languages[i],
                    )
                &&& fields.contains_key(key) ==> fields[key] == "true"@
            }
        }),
{
    lemma_reveal_keys();
    let names = natural_names(book.authors);
    let codes = three_letter_codes(book.languages);
    lemma_sets(book, key);
    lemma_with_members(before_authors(book), "authors/"@, names, key);
    lemma_with_members(before_languages(book), "languages/"@, codes, key);
    match edition_address(book, locator) {
        Some(cid) => {
            assert(("cids/"@ + cid)[0] == 'c');
        },
        None => {},
    }
    if text::has_prefix(key, "authors/"@) {
        text::lemma_has_prefix(key, "authors/"@, 0);
        text::lemma_has_prefix(key, "authors/"@, 1);
        text::lemma_has_prefix(key, "authors/"@, 6);
        lemma_not_member("languages/"@, codes, key, 0);
        if is_member("authors/"@, names, key) {
            let n = choose|n: int| 0 <= n < names.len() && key == "authors/"@ + #[trigger] names[n];
            lemma_natural_names_come_from(book.authors, n);
        }
        if exists|i: int|
            0 <= i < book.authors.len() && !text::is_blank(#[trigger] book.authors[i]) && key
                == "authors/"@ + natural_name(book.authors[i]) {
            let i = choose|i: int|
                0 <= i < book.authors.len() && !text::is_blank(#[trigger] book.authors[i]) && key
                    == "authors/"@ + natural_name(book.authors[i]);
            law_edition_sets(book, bibrec, locator, binding, i);
        }
    }
    if text::has_prefix(key, "languages/"@) {
        text::lemma_has_prefix(key, "languages/"@, 0);
        text::lemma_has_prefix(key, "languages/"@, 1);
        text::lemma_has_prefix(key, "languages/"@, 8);
        lemma_not_member("authors/"@, names, key, 0);
        if is_member("languages/"@, codes, key) {
            let n = choose|n: int|
                0 <= n < codes.len() && key == "languages/"@ + #[trigger] codes[n];
            assert(codes[n] == three_letters(book.languages[n]));
        }
        if exists|i: int|
            0 <= i < book.languages.len() && key == "languages/"@ + three_letters(
                #[trigger] book.languages[i],
            ) {
            let i = choose|i: int|
                0 <= i < book.languages.len() && key == "languages/"@ + three_letters(
                    #[trigger] book.languages[i],
                );
            law_edition_sets(book, bibrec, locator, binding, i);
        }
    }
}

/// Each name in its natural order is that of a name that is not blank.
proof fn lemma_natural_names_come_from(names: Seq<Seq<char>>, n: int)
    requires
        0 <= n < natural_names(names).len(),
    ensures
        exists|i: int|
            0 <= i < names.len() && !text::is_blank(#[trigger] names[i]) && natural_names(names)[n]
                == natural_name(names[i]),
    decreases names.len(),
{
    let init = names.drop_last();
    let some = natural_names(init);
    if n < some.len() {
        lemma_natural_names_come_from(init, n);
        let i = choose|i: int|
            0 <= i < init.len() && !text::is_blank(#[trigger] init[i]) && some[n] == natural_name(
                init[i],
            );
        assert(names[i] == init[i]);
    } else {
        assert(names[names.len() - 1] == names.last());
    }
}

/// A family name and a given name with a comma between them change places. A name without
/// a comma stays as it is, and so does one with two, or with nothing on one side, but for
/// the white space around it.
pub proof fn law_natural_name(family: Seq<char>, given: Seq<char>, more: Seq<char>)
    requires
        !family.contains(','),
        !given.contains(','),
    ensures
        natural_name(family) == text::trimmed(family),
        !text::is_blank(family) && !text::is_blank(given) ==> natural_name(
            family + ","@ + given,
        ) == text::trimmed(given) + " "@ + text::trimmed(family),
        text::is_blank(family) || text::is_blank(given) ==> natural_name(family + ","@ + given)
            == text::trimmed(family + ","@ + given),
        natural_name(family + ","@ + given + ","@ + more) == text::trimmed(
            family + ","@ + given + ","@ + more,
        ),
{
    reveal_strlit(",");
    let comma = ","@;
    assert(comma =~= seq![',']);
    lemma_no_comma(family, 0);
    let f = family.len() as int;
    let two = family + comma + given;
    lemma_first_comma(family, given);
    lemma_no_comma(two, f + 1);
    assert(two.take(family.len() as int) =~= family);
    assert(two.skip(f + 1) =~= given);
    let rest = given + comma + more;
    let three = family + comma + given + comma + more;
    assert(three =~= family + comma + rest);
    lemma_first_comma(family, rest);
    let j = f + 1 + given.len();
    assert(three.subrange(j, j + 1) =~= comma);
    assert(text::occurs_at(three, comma, j));
    text::lemma_position_from(three, comma, f + 1);
}

/// Without a comma from `from` on there is none to be found.
proof fn lemma_no_comma(s: Seq<char>, from: int)
    requires
        0 <= from,
        forall|i: int| from <= i < s.len() ==> #[trigger] s[i] != ',',
    ensures
        text::position_from(s, ","@, from) is None,
{
    reveal_strlit(",");
    text::lemma_position_from(s, ","@, from);
    if text::position_from(s, ","@, from) is Some {
        let i = text::position_from(s, ","@, from)->0;
        assert(s.subrange(i, i + 1)[0] == s[i]);
    }
}

/// The first comma stands behind what has none.
proof fn lemma_first_comma(a: Seq<char>, b: Seq<char>)
    requires
        !a.contains(','),
    ensures
        text::position(a + ","@ + b, ","@) == Some(a.len() as int),
{
    reveal_strlit(",");
    let s = a + ","@ + b;
    let n = a.len() as int;
    assert(s.subrange(n, n + 1) =~= ","@);
    assert(text::occurs_at(s, ","@, n));
    text::lemma_position_from(s, ","@, 0);
    let i = text::position(s, ","@)->0;
    if i < a.len() {
        assert(s.subrange(i, i + 1)[0] == s[i]);
        assert(a[i] == ',');
    }
}

/// Names are put in their natural order one by one: those of two lists are those of the
/// one and then those of the other, and only blank names are left out.
pub proof fn law_natural_names(a: Seq<Seq<char>>, b: Seq<Seq<char>>, name: Seq<char>)
    ensures
        natural_names(a + b) == natural_names(a) + natural_names(b),
        natural_names(seq![name]) == if text::is_blank(name) {
            Seq::<Seq<char>>::empty()
        } else {
            seq![natural_name(name)]
        },
    decreases b.len(),
{
    let one = seq![name];
    assert(one.drop_last() =~= Seq::<Seq<char>>::empty());
    assert(natural_names(one.drop_last()) =~= Seq::<Seq<char>>::empty());
    if !text::is_blank(name) {
        assert(natural_names(one) =~= seq![natural_name(name)]);
    }
    if b.len() == 0 {
        assert(a + b =~= a);
        assert(natural_names(a) + natural_names(b) =~= natural_names(a));
    } else {
        law_natural_names(a, b.drop_last(), name);
        assert((a + b).drop_last() =~= a + b.drop_last());
        assert((a + b).last() == b.last());
        assert(natural_names(a + b) =~= natural_names(a) + natural_names(b));
    }
}

/// The record of each edition is made of what was found out about it and of nothing else,
/// its cover's address not being published.
pub proof fn law_records_are_of_their_editions(f: Found, other: Option<String>)
    ensures
        found_record(f).record_id == text::decimal(f.book.id as nat),
        found_record(Found { cover_cid: other, ..f }) == found_record(f),
        found_record(f) == edition(
            f.book@,
            f.bibrec@,
            text::text_opt(f.locator),
            text::text_opt(f.binding),
        ),
{
}

/// Where an edition is without an epub, the failure names the record and the format.
pub proof fn law_no_epub(record_id: Seq<char>)
    ensures
        no_epub(record_id) == GatewayErrorView::Permanent(
            "gutenberg record "@ + record_id + " has no application/epub+zip format"@,
        ),
{
    reveal_strlit(" has no application/epub+zip format");
    reveal_strlit(" has no ");
    reveal_strlit("application/epub+zip");
    reveal_strlit(" format");
    assert("gutenberg record "@ + record_id + " has no "@ + EPUB_FORMAT@ + " format"@
        =~= "gutenberg record "@ + record_id + " has no application/epub+zip format"@);
}

/// An edition has no keys but those of its contract, those of its RDF document, the members
/// of its two sets and its address.
pub proof fn law_edition_keys(
    book: BookView,
    bibrec: Map<Seq<char>, Seq<char>>,
    locator: Option<Seq<char>>,
    binding: Option<Seq<char>>,
    key: Seq<char>,
)
    requires
        edition(book, bibrec, locator, binding).fields.contains_key(key),
    ensures
        ({
            ||| bibrec.contains_key(key)
            ||| text::has_prefix(key, "authors/"@)
            ||| text::has_prefix(key, "languages/"@)
            ||| text::has_prefix(key, "cids/"@)
            ||| key == "title"@ || key == "fileType"@ || key == "contentKind"@ || key == "domain"@
            ||| key == "workForm"@ || key == "sourceUrl"@ || key == "gutenbergid"@
            ||| key == "author"@ || key == "language"@ || key == "subjects"@
            ||| key == "bookshelves"@ || key == "mediaType"@ || key == "poster_url"@
            ||| key == "format"@ || key == "publicDomain"@ || key == "licence"@
            ||| key == "fileName"@ || key == "openlibraryid"@ || key == "anchored"@
            ||| key == "anchorSource"@
        }),
{
    let names = natural_names(book.authors);
    let codes = three_letter_codes(book.languages);
    lemma_sets(book, key);
    if is_member("authors/"@, names, key) {
        let n = choose|n: int| 0 <= n < names.len() && key == "authors/"@ + #[trigger] names[n];
        text::law_prefix(key, "authors/"@, names[n]);
    }
    if is_member("languages/"@, codes, key) {
        let n = choose|n: int| 0 <= n < codes.len() && key == "languages/"@ + #[trigger] codes[n];
        text::law_prefix(key, "languages/"@, codes[n]);
    }
    match edition_address(book, locator) {
        Some(cid) => {
            text::law_prefix("cids/"@ + cid, "cids/"@, cid);
        },
        None => {},
    }
}

/// A book is to be had in a format exactly where Gutendex lists it, and there.
pub proof fn law_formats(book: BookView, format: Seq<char>)
    ensures
        book.formats.contains_key(format) ==> format_url(book, format) == Some(
            book.formats[format],
        ),
        !book.formats.contains_key(format) ==> format_url(book, format) is None,
        EPUB_FORMAT@ == "application/epub+zip"@,
        COVER_FORMAT@ == "image/jpeg"@,
{
}

/// What is published of a book is all that Gutendex says of it but how often it was
/// fetched.
pub proof fn law_book_view(book: GutendexBook, i: int)
    ensures
        book@.id == book.id,
        book@.title == book.title@,
        book@.copyright == book.copyright,
        book@.formats == book.formats@,
        book@.authors.len() == book.authors@.len(),
        0 <= i < book.authors@.len() ==> book@.authors[i] == book.authors@[i].name@,
        book@.languages.len() == book.languages@.len(),
        0 <= i < book.languages@.len() ==> book@.languages[i] == book.languages@[i]@,
        book@.subjects.len() == book.subjects@.len(),
        0 <= i < book.subjects@.len() ==> book@.subjects[i] == book.subjects@[i]@,
        book@.bookshelves.len() == book.bookshelves@.len(),
        0 <= i < book.bookshelves@.len() ==> book@.bookshelves[i] == book.bookshelves@[i]@,
        book.media_type is Some ==> book@.media_type == Some(book.media_type->0@),
        book.media_type is None ==> book@.media_type is None,
{
}

} // verus!

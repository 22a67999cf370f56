use std::collections::BTreeMap;

use book_feeder::contact::BudgetSize;
use book_feeder::edition::{
    edition_outcome, epub_url, found_of, into_discovery_record, locator_url, name_in_order,
    records_of, Found, GutendexBook, GutendexPerson,
};
use book_feeder::gutenberg::{
    address_to_keep, bad_book, bad_search, bibrec_of, bibrecs_of, binding_of, body_of, cover_cid,
    cover_cids, cover_step, cover_to_keep, first_results, BibrecLookup, BibrecStep, ComputeStep,
    Cover, CoverLookup, CoverStep, Fetched, GutenbergPlugin, SEARCH_ATTEMPTS, USER_AGENT,
};
use book_feeder::json;
use book_feeder::lookup::binding_answer;
use book_feeder::openlibrary::{to_record, Env, OpenLibraryPlugin};
use book_feeder::openlibrary_client::SearchDoc;
use book_feeder::rdf::{extract_first_tag_text, extract_resource_attr, parse_pgterms_rdf};
use book_feeder::send::{SendEvent, SendStep, Sending, Target};
use book_feeder::table::{put, Table};
use book_feeder::types::{DiscoveryRecord, GatewayError, GatewayQuery, HashKind, PluginHealth};

fn table(list: &[(&str, &str)]) -> Table<String> {
    let mut t = Table::new();
    for (k, v) in list {
        put(&mut t, k, v);
    }
    t
}

fn map_of(fields: &Table<String>) -> BTreeMap<String, String> {
    (0..fields.len())
        .map(|i| {
            let (k, v) = fields.entry(i);
            (k.to_string(), v.clone())
        })
        .collect()
}

fn get<'a>(t: &'a Table<String>, key: &str) -> Option<&'a str> {
    t.get(key).map(String::as_str)
}

fn book(id: u64, title: &str, author: &str, formats: &[(&str, &str)]) -> GutendexBook {
    GutendexBook {
        id,
        title: title.to_string(),
        authors: vec![GutendexPerson { name: author.to_string() }],
        subjects: vec![],
        bookshelves: vec![],
        languages: vec!["en".to_string()],
        copyright: Some(false),
        media_type: None,
        formats: table(formats),
        download_count: 7,
    }
}

fn books() -> Vec<GutendexBook> {
    vec![
        book(
            1342,
            "Pride and Prejudice",
            "Austen, Jane",
            &[
                ("application/epub+zip", "EPUB_URL_PLACEHOLDER"),
                ("text/plain; charset=utf-8", "https://www.gutenberg.org/files/1342/1342-0.txt"),
            ],
        ),
        book(
            84,
            "Frankenstein; Or, The Modern Prometheus",
            "Shelley, Mary Wollstonecraft",
            &[
                ("application/epub+zip", "EPUB_URL_PLACEHOLDER"),
                ("text/plain; charset=utf-8", "https://www.gutenberg.org/files/84/84-0.txt"),
            ],
        ),
    ]
}

fn found(book: GutendexBook) -> Found {
    Found {
        book,
        cover_cid: None,
        bibrec: Table::new(),
        locator: Some("bafyURL".to_string()),
        binding: None,
    }
}

fn record(book: GutendexBook) -> DiscoveryRecord {
    into_discovery_record(book, None, Table::new(), Some("bafyURL".to_string()), None)
}

// -- RDF ----------------------------------------------------------------------

#[test]
fn extracts_release_date_and_copyright() {
    let xml = r#"<rdf:RDF>
            <pgterms:ebook rdf:about="ebooks/11">
              <dcterms:issued rdf:datatype="...">2008-06-27</dcterms:issued>
              <dcterms:rights>Public domain in the USA.</dcterms:rights>
            </pgterms:ebook>
          </rdf:RDF>"#;
    let f = parse_pgterms_rdf(xml);
    assert_eq!(f.get("releaseDate").map(String::as_str), Some("2008-06-27"));
    assert_eq!(
        f.get("copyrightStatus").map(String::as_str),
        Some("Public domain in the USA.")
    );
}

#[test]
fn extracts_credits_summary_reading_level() {
    let xml = r#"<rdf:RDF>
            <pgterms:marc508>Arthur DiBianca and David Widger</pgterms:marc508>
            <pgterms:marc520>"Alice's..." short summary.</pgterms:marc520>
            <pgterms:marc908>Reading ease score: 87.5 (6th grade). Easy to read.</pgterms:marc908>
          </rdf:RDF>"#;
    let f = parse_pgterms_rdf(xml);
    assert_eq!(
        f.get("credits").map(String::as_str),
        Some("Arthur DiBianca and David Widger")
    );
    assert!(f.get("summary").unwrap().contains("short summary"));
    assert!(f.get("readingLevel").unwrap().contains("87.5"));
}

#[test]
fn pulls_wikipedia_url_out_of_description() {
    let xml = r#"<rdf:RDF>
            <dcterms:description>Wikipedia page about this book: https://en.wikipedia.org/wiki/Alice%27s_Adventures_in_Wonderland</dcterms:description>
          </rdf:RDF>"#;
    let f = parse_pgterms_rdf(xml);
    assert_eq!(
        f.get("wikipediaUrl").map(String::as_str),
        Some("https://en.wikipedia.org/wiki/Alice%27s_Adventures_in_Wonderland")
    );
    assert!(f.get("note").unwrap().contains("Wikipedia"));
}

#[test]
fn empty_when_not_an_rdf_doc() {
    let f = parse_pgterms_rdf("<html><body>not rdf</body></html>");
    assert_eq!(f.len(), 0);
}

#[test]
fn an_element_is_read_to_its_end() {
    assert_eq!(extract_first_tag_text("<a>x</a><a>y</a>", "a").as_deref(), Some("x"));
    assert_eq!(extract_first_tag_text("<a b='c'> x &lt; y </a>", "a").as_deref(), Some("x < y"));
    assert_eq!(extract_first_tag_text("<a>&amp;lt;&quot;&apos;&gt;</a>", "a").as_deref(), Some("<\"'>"));
    assert_eq!(extract_first_tag_text("<a> \n </a>", "a"), None);
    assert_eq!(extract_first_tag_text("<a>x", "a"), None);
    assert_eq!(extract_first_tag_text("<a", "a"), None);
    assert_eq!(extract_first_tag_text("", "a"), None);
    // An element of a longer name is another element.
    assert_eq!(extract_first_tag_text("<ab>x</ab><a>y</a>", "a").as_deref(), Some("y"));
    assert_eq!(extract_first_tag_text("<ab>x</ab>", "a"), None);
    assert_eq!(extract_first_tag_text("<a-b>x</a-b><a\n c=\"d\">y</a>", "a").as_deref(), Some("y"));
    assert_eq!(extract_first_tag_text("<<a>y</a>", "a").as_deref(), Some("y"));
    let f = parse_pgterms_rdf(
        "<dcterms:rightsHolder>h</dcterms:rightsHolder><dcterms:rights>r</dcterms:rights>",
    );
    assert_eq!(get(&f, "copyrightStatus"), Some("r"));
}

#[test]
fn a_resource_is_read_from_its_attribute() {
    let xml = r#"<x/><pgterms:webpage  about="q" rdf:resource="http://w/1"/>"#;
    assert_eq!(extract_resource_attr(xml, "pgterms:webpage").as_deref(), Some("http://w/1"));
    let f = parse_pgterms_rdf(xml);
    assert_eq!(get(&f, "authorWebpage"), Some("http://w/1"));
    assert_eq!(f.len(), 1);
    assert_eq!(extract_resource_attr("<w rdf:resource=\"\">", "w").as_deref(), Some(""));
    assert_eq!(extract_resource_attr("<w rdf:resource=\"u>\"", "w"), None);
    assert_eq!(extract_resource_attr("<w/>", "w"), None);
    assert_eq!(extract_resource_attr("<w rdf:resource=\"u\"", "w"), None);
}

#[test]
fn a_description_without_a_link_is_still_a_note() {
    let f = parse_pgterms_rdf("<dcterms:description>see wikipedia.org</dcterms:description>");
    assert_eq!(get(&f, "note"), Some("see wikipedia.org"));
    assert_eq!(get(&f, "wikipediaUrl"), None);
    let f = parse_pgterms_rdf("<dcterms:alternative> Or  so </dcterms:alternative>");
    assert_eq!(get(&f, "alternateTitle"), Some("Or  so"));
}

// -- Requests -----------------------------------------------------------------

#[test]
fn search_requests_the_canonical_slashed_path() {
    let plugin = GutenbergPlugin::with_base_url("http://127.0.0.1:9".to_string());
    let s = plugin
        .handle_query(&GatewayQuery::from_free_text("alice"), true)
        .expect("a search");
    assert_eq!(s.url, "http://127.0.0.1:9/books/");
    assert_eq!(s.params, vec![("search".to_string(), "alice".to_string())]);
    let slashed = GutenbergPlugin::with_base_url("http://127.0.0.1:9/".to_string());
    let s = slashed.handle_query(&GatewayQuery::from_free_text(" a b "), true).expect("a search");
    assert_eq!(s.url, "http://127.0.0.1:9/books/");
    assert_eq!(s.params, vec![("search".to_string(), "a b".to_string())]);
}

/// Gutendex matches an asterisk literally, so a browse sends no search at all.
#[test]
fn a_filters_only_query_browses_the_catalogue_instead_of_searching_for_a_star() {
    let plugin = GutenbergPlugin::new();
    let mut browse = GatewayQuery::from_free_text("");
    browse.filters.insert("contentKind".to_string(), vec!["book".to_string()]);
    let s = plugin.handle_query(&browse, true).expect("a browse");
    assert_eq!(s.url, "https://gutendex.com/books/");
    assert!(s.params.is_empty());
}

/// Free text of white space only is a browse, not a search for spaces.
#[test]
fn blank_free_text_is_treated_as_a_browse() {
    let mut q = GatewayQuery::from_free_text("   ");
    q.filters.insert("contentKind".to_string(), vec!["book".to_string()]);
    let s = GutenbergPlugin::new().handle_query(&q, true).expect("a browse");
    assert!(s.params.is_empty());
}

#[test]
fn a_query_for_other_axes_is_not_searched() {
    let q = GatewayQuery::from_free_text("alice");
    assert!(GutenbergPlugin::new().handle_query(&q, false).is_none());
}

/// One dropped connection must not empty a browse row.
#[test]
fn a_transport_failure_is_retried_rather_than_emptying_the_row() {
    let dead = Target::Gutendex { url: "http://127.0.0.1:1/books/".to_string() };
    let mut sends = 1;
    let mut sending = Sending::first(SEARCH_ATTEMPTS);
    let err = loop {
        match sending.step(&dead, SendEvent::NoResponse("error sending request".to_string())) {
            SendStep::Again(next) => {
                sending = next;
                sends += 1;
            }
            SendStep::Failed(e) => break e,
            SendStep::Receive => panic!("a dead port cannot succeed"),
        }
    };
    assert_eq!(sends, SEARCH_ATTEMPTS);
    assert_eq!(sends, 3);
    match err {
        GatewayError::Transient(m) => {
            assert!(m.contains(&format!("after {SEARCH_ATTEMPTS} attempts")), "got: {m}")
        }
        other => panic!("expected Transient, got {other:?}"),
    }
    // And a server that can be reached answers on the first attempt.
    let live = Target::Gutendex { url: "http://127.0.0.1:9/books/".to_string() };
    assert!(matches!(
        Sending::first(SEARCH_ATTEMPTS).step(&live, SendEvent::Response(Ok(()))),
        SendStep::Receive
    ));
}

/// A response that arrives is final: a 404 is not asked for three times.
#[test]
fn a_status_response_is_not_retried() {
    let plugin = GutenbergPlugin::new();
    let target = Target::Gutendex { url: plugin.book_url("404404") };
    match Sending::first(SEARCH_ATTEMPTS).step(&target, SendEvent::Response(Err(GatewayError::NotFound))) {
        SendStep::Failed(err) => assert!(matches!(err, GatewayError::NotFound), "got {err:?}"),
        other => panic!("expected the failure, got {other:?}"),
    }
}

#[test]
fn urls_name_one_book() {
    let plugin = GutenbergPlugin::with_base_url("http://g/".to_string())
        .with_rdf_base_url("http://r//".to_string());
    assert_eq!(plugin.book_url("1342"), "http://g/books/1342");
    assert_eq!(plugin.rdf_url(1342), "http://r/cache/epub/1342/pg1342.rdf");
    assert_eq!(
        GutenbergPlugin::new().rdf_url(11),
        "https://www.gutenberg.org/cache/epub/11/pg11.rdf"
    );
    assert_eq!(USER_AGENT, "meta-share/0.1.0 (gateway:gutenberg)");
    match (bad_book("11", "odd"), bad_search("odd")) {
        (GatewayError::Permanent(b), GatewayError::Permanent(s)) => {
            assert_eq!(b, "decode gutendex book 11: odd");
            assert_eq!(s, "decode gutendex search response: odd");
        }
        other => panic!("expected permanent errors, got {other:?}"),
    }
}

// -- Records ------------------------------------------------------------------

#[test]
fn handle_query_maps_results_to_discovery_records() {
    let records = records_of(first_results(books(), 50).into_iter().map(found).collect());
    assert_eq!(records.len(), 2);

    let r0 = &records[0];
    assert_eq!(r0.upstream_id, "gutenberg");
    assert_eq!(r0.record_id, "1342");
    assert_eq!(get(&r0.fields, "title"), Some("Pride and Prejudice"));
    assert_eq!(get(&r0.fields, "fileType"), Some("document"));
    assert_eq!(get(&r0.fields, "contentKind"), Some("book"));
    assert_eq!(get(&r0.fields, "gutenbergid"), Some("1342"));
    assert_eq!(get(&r0.fields, "sourceUrl"), Some("https://www.gutenberg.org/ebooks/1342"));
    assert_eq!(get(&r0.fields, "author"), Some("Austen, Jane"));
    assert_eq!(get(&r0.fields, "language"), Some("eng"));
    assert_eq!(get(&r0.fields, "format"), Some("epub"));
    assert_eq!(get(&r0.fields, "fileName"), Some("gutenberg-1342.epub"));
    assert_eq!(records[1].record_id, "84");
}

#[test]
fn handle_query_truncates_to_max_results() {
    assert_eq!(first_results(books(), 1).len(), 1);
    assert_eq!(first_results(books(), 1)[0].id, 1342);
    assert_eq!(first_results(books(), 0).len(), 0);
    assert_eq!(first_results(books(), 2).len(), 2);
    assert_eq!(first_results(books(), 3).len(), 2);
}

/// Every public-domain record must carry `licence`.
#[test]
fn a_public_domain_book_carries_the_licence_field() {
    let records = records_of(books().into_iter().map(found).collect());
    let f = &records[0].fields;
    assert_eq!(f.get("licence").map(String::as_str), Some("PublicDomain"));
    assert_eq!(f.get("publicDomain").map(String::as_str), Some("true"));
}

#[test]
fn a_book_in_copyright_states_no_licence() {
    let mut b = books().remove(0);
    b.copyright = Some(true);
    let r = record(b);
    assert_eq!(get(&r.fields, "licence"), None);
    assert_eq!(get(&r.fields, "publicDomain"), Some("false"));
    let mut b = books().remove(0);
    b.copyright = None;
    let r = record(b);
    assert_eq!(get(&r.fields, "licence"), None);
    assert_eq!(get(&r.fields, "publicDomain"), None);
}

#[test]
fn an_edition_carries_exactly_its_fields() {
    let mut b = book(
        11,
        "Alice",
        "Carroll, Lewis",
        &[("application/epub+zip", "http://e"), ("image/jpeg", "http://c")],
    );
    b.authors.push(GutendexPerson { name: " ".to_string() });
    b.authors.push(GutendexPerson { name: "Anonymous".to_string() });
    b.subjects = vec!["Fantasy".to_string(), "Girls".to_string()];
    b.bookshelves = vec!["Children".to_string()];
    b.languages = vec!["en".to_string(), "tl".to_string()];
    b.media_type = Some("Text".to_string());
    let bibrec = table(&[("title", "late"), ("note", "n"), ("releaseDate", "2008-06-27")]);
    let r = into_discovery_record(
        b,
        Some("bafyCOVER".to_string()),
        bibrec,
        Some("bafyURL".to_string()),
        Some("OL138052W".to_string()),
    );
    let expected: BTreeMap<String, String> = [
        ("title", "Alice"),
        ("fileType", "document"),
        ("contentKind", "book"),
        ("domain", "literature"),
        ("workForm", "standalone"),
        ("sourceUrl", "https://www.gutenberg.org/ebooks/11"),
        ("gutenbergid", "11"),
        ("author", "Carroll, Lewis,  , Anonymous"),
        ("authors/Lewis Carroll", "true"),
        ("authors/Anonymous", "true"),
        ("language", "eng"),
        ("languages/eng", "true"),
        ("languages/tl", "true"),
        ("subjects", "Fantasy, Girls"),
        ("bookshelves", "Children"),
        ("mediaType", "Text"),
        ("poster_url", "http://c"),
        ("format", "epub"),
        ("cids/bafyURL", "true"),
        ("publicDomain", "true"),
        ("licence", "PublicDomain"),
        ("fileName", "gutenberg-11.epub"),
        ("openlibraryid", "OL138052W"),
        ("anchored", "true"),
        ("anchorSource", "openlibrary"),
        ("note", "n"),
        ("releaseDate", "2008-06-27"),
    ]
    .into_iter()
    .map(|(k, v)| (k.to_string(), v.to_string()))
    .collect();
    assert_eq!(map_of(&r.fields), expected);
    assert_eq!(r.record_id, "11");
    assert_eq!(r.upstream_id, "gutenberg");
}

#[test]
fn an_edition_without_an_epub_has_no_address() {
    let b = book(11, "Alice", "Carroll, Lewis", &[("text/plain", "http://t")]);
    let r = record(b);
    assert_eq!(get(&r.fields, "format"), None);
    assert!(!map_of(&r.fields).keys().any(|k| k.starts_with("cids/")));
    let b = book(11, "Alice", "Carroll, Lewis", &[("application/epub+zip", "odd")]);
    let r = into_discovery_record(b, None, Table::new(), None, None);
    assert_eq!(get(&r.fields, "format"), Some("epub"));
    assert!(!map_of(&r.fields).keys().any(|k| k.starts_with("cids/")));
    let mut b = book(11, "Alice", "x", &[]);
    b.authors.clear();
    b.languages.clear();
    let keys: Vec<String> = map_of(&record(b).fields).into_keys().collect();
    assert!(!keys.iter().any(|k| k.starts_with("author") || k.starts_with("language")));
}

#[test]
fn names_are_put_in_their_natural_order() {
    assert_eq!(name_in_order("Austen, Jane"), "Jane Austen");
    assert_eq!(name_in_order("Shelley, Mary Wollstonecraft"), "Mary Wollstonecraft Shelley");
    assert_eq!(name_in_order(" Homer "), "Homer");
    assert_eq!(name_in_order("Dumas, Alexandre, p\u{e8}re"), "Dumas, Alexandre, p\u{e8}re");
    assert_eq!(name_in_order("Plato,"), "Plato,");
    assert_eq!(name_in_order(", Jane"), ", Jane");
    assert_eq!(name_in_order(""), "");
}

/// The claim that joins an edition to its work, as the gateway transcribes it.
#[test]
fn query_returns_gutenberg_records_with_their_open_library_claim() {
    let body = json::parse(
        br#"{ "numFound": 1,
              "docs": [{ "key": "/works/OL66554W", "id_project_gutenberg": ["1342", "42671"] }] }"#,
    )
    .expect("JSON");
    let b = book(
        1342,
        "Pride and Prejudice",
        "Austen, Jane",
        &[("application/epub+zip", "EPUB_PLACEHOLDER")],
    );
    let binding = binding_of(binding_answer(Ok(body), b.id));
    let records = records_of(vec![Found { binding, ..found(b) }]);
    assert_eq!(records.len(), 1);
    let r = &records[0];
    let f = |k: &str| r.fields.get(k).map(String::as_str);
    assert_eq!(r.upstream_id, "gutenberg");
    assert_eq!(f("gutenbergid"), Some("1342"));
    assert_eq!(f("contentKind"), Some("book"));
    assert_eq!(f("authors/Jane Austen"), Some("true"));
    assert_eq!(f("languages/eng"), Some("true"));
    assert_eq!(f("openlibraryid"), Some("OL66554W"));
    assert_eq!(f("anchored"), Some("true"));
    assert_eq!(f("anchorSource"), Some("openlibrary"));
    assert_eq!(f("anchorMethod"), None, "an identifier link is not a title match");
}

#[test]
fn an_edition_whose_lookup_fails_makes_no_claim() {
    assert_eq!(binding_of(Err(GatewayError::Transient("busy".to_string()))), None);
    assert_eq!(binding_of(Ok(None)), None);
    let r = record(books().remove(0));
    for key in ["openlibraryid", "anchored", "anchorSource", "anchorMethod", "poster"] {
        assert_eq!(get(&r.fields, key), None, "{key}");
    }
}

// -- Downloads ----------------------------------------------------------------

#[test]
fn only_a_success_has_a_body() {
    for status in [200, 204, 299] {
        assert_eq!(body_of(Fetched::Response { status, body: Some(7) }), Some(7));
    }
    for status in [0, 199, 300, 301, 404, 500] {
        assert_eq!(body_of(Fetched::Response { status, body: Some(7) }), None);
    }
    assert_eq!(body_of::<u8>(Fetched::Response { status: 200, body: None }), None);
    assert_eq!(body_of::<u8>(Fetched::NoResponse), None);
}

#[test]
fn a_cover_is_fetched_once() {
    let b = book(11, "Alice", "x", &[("image/jpeg", "http://c")]);
    assert!(matches!(cover_step(None, &b), CoverStep::Fetch(url) if url == "http://c"));
    let cached = Some("bafyCOVER".to_string());
    assert!(matches!(cover_step(cached, &b), CoverStep::Known(cid) if cid == "bafyCOVER"));
    let bare = book(11, "Alice", "x", &[]);
    assert!(matches!(cover_step(None, &bare), CoverStep::Absent));
}

fn cover(cid: &str) -> Cover {
    Cover { cid: cid.to_string(), bytes: format!("bytes of {cid}").into_bytes() }
}

#[test]
fn covers_are_aligned_with_their_books() {
    let jpeg = &[("image/jpeg", "http://c")];
    let books = vec![
        book(1, "a", "x", jpeg),
        book(2, "b", "x", &[]),
        book(3, "c", "x", jpeg),
        book(4, "d", "x", jpeg),
        book(5, "e", "x", &[]),
        book(6, "f", "x", jpeg),
    ];
    let lookup = |cached: Option<&str>, status: u16, cid: Option<&str>| CoverLookup {
        cached: cached.map(str::to_string),
        fetched: Fetched::Response { status, body: cid.map(cover) },
    };
    let lookups = vec![
        lookup(None, 200, Some("cid1")),
        lookup(None, 200, Some("cid2")),
        lookup(Some("kept3"), 200, Some("cid3")),
        lookup(None, 404, Some("cid4")),
        lookup(Some("kept5"), 404, None),
    ];
    let cids = cover_cids(&books, lookups);
    let expected = [Some("cid1"), None, Some("kept3"), None, Some("kept5"), None];
    assert_eq!(cids.iter().map(Option::as_deref).collect::<Vec<_>>(), expected);
    assert_eq!(cover_cid(&books[0], lookup(None, 200, Some("cid1"))).as_deref(), Some("cid1"));
}

#[test]
fn a_cover_is_kept_exactly_where_it_was_downloaded() {
    let pictured = book(11, "Alice", "x", &[("image/jpeg", "http://c")]);
    let bare = book(12, "Bare", "x", &[]);
    let lookup = |cached: Option<&str>, fetched| CoverLookup {
        cached: cached.map(str::to_string),
        fetched,
    };
    let response = |status: u16, body| Fetched::Response { status, body };

    let fetched = lookup(None, response(200, Some(cover("cid"))));
    let kept = cover_to_keep(&pictured, &fetched).expect("a cover");
    assert_eq!((kept.cid.as_str(), kept.bytes.as_slice()), ("cid", b"bytes of cid".as_slice()));
    let kept = kept.cid.clone();
    assert_eq!(cover_cid(&pictured, fetched).as_deref(), Some("cid"));
    // From then on it is known.
    let again = lookup(Some(&kept), Fetched::NoResponse);
    assert!(cover_to_keep(&pictured, &again).is_none());
    assert_eq!(cover_cid(&pictured, again).as_deref(), Some("cid"));

    let range = [(199, false), (200, true), (299, true), (300, false), (404, false)];
    for (status, keeps) in range {
        let l = lookup(None, response(status, Some(cover("cid"))));
        assert_eq!(cover_to_keep(&pictured, &l).is_some(), keeps, "{status}");
    }
    assert!(cover_to_keep(&pictured, &lookup(None, response(200, None))).is_none());
    assert!(cover_to_keep(&pictured, &lookup(None, Fetched::NoResponse)).is_none());
    let bare_lookup = lookup(None, response(200, Some(cover("cid"))));
    assert!(cover_to_keep(&bare, &bare_lookup).is_none());
}

#[test]
fn rdf_fields_are_aligned_with_their_books() {
    let books: Vec<GutendexBook> = (1..=5).map(|i| book(i, "t", "x", &[])).collect();
    let rights = |r: &str| Some(format!("<dcterms:rights>{r}</dcterms:rights>"));
    let lookups = vec![
        BibrecLookup {
            cached: None,
            fetched: Fetched::Response { status: 200, body: rights("r0") },
        },
        BibrecLookup {
            cached: Some(table(&[("copyrightStatus", "kept1")])),
            fetched: Fetched::Response { status: 200, body: rights("r1") },
        },
        BibrecLookup {
            cached: None,
            fetched: Fetched::Response { status: 404, body: rights("r2") },
        },
        BibrecLookup {
            cached: None,
            fetched: Fetched::Response { status: 200, body: rights("r3") },
        },
    ];
    let all = bibrecs_of(&books, lookups);
    let read: Vec<_> = all.iter().map(|f| get(f, "copyrightStatus")).collect();
    assert_eq!(read, [Some("r0"), Some("kept1"), None, Some("r3"), None]);
}

#[test]
fn what_is_found_out_belongs_to_its_own_book() {
    let text = |s: &str| Some(s.to_string());
    let found = found_of(
        books(),
        vec![text("cover0"), None],
        vec![table(&[("note", "n0")]), table(&[("note", "n1")])],
        vec![None, text("locator1")],
        vec![text("OL1W"), None],
    );
    assert_eq!(found.len(), 2);
    assert_eq!(found[0].book.id, 1342);
    assert_eq!(found[0].cover_cid.as_deref(), Some("cover0"));
    assert_eq!(get(&found[0].bibrec, "note"), Some("n0"));
    assert_eq!(found[0].locator, None);
    assert_eq!(found[0].binding.as_deref(), Some("OL1W"));
    assert_eq!(found[1].book.id, 84);
    assert_eq!(found[1].cover_cid, None);
    assert_eq!(get(&found[1].bibrec, "note"), Some("n1"));
    assert_eq!(found[1].locator.as_deref(), Some("locator1"));
    assert_eq!(found[1].binding, None);
    let short = found_of(books(), vec![None, None], vec![Table::new()], vec![None, None], vec![None, None]);
    assert_eq!(short.len(), 1);
}

#[test]
fn an_outcome_that_is_kept_sends_nothing() {
    let plugin = GutenbergPlugin::with_base_url("http://g".to_string());
    assert!(matches!(plugin.compute_step(Some("bafyCACHED"), "1342"), ComputeStep::Known("bafyCACHED")));
    assert!(matches!(
        plugin.compute_step(None::<&str>, "1342"),
        ComputeStep::Fetch(url) if url == "http://g/books/1342"
    ));
}

#[test]
fn rdf_fields_are_kept_where_there_are_any() {
    let plugin = GutenbergPlugin::new();
    match plugin.bibrec_step(None, 11) {
        BibrecStep::Fetch(url) => {
            assert_eq!(url, "https://www.gutenberg.org/cache/epub/11/pg11.rdf")
        }
        other => panic!("expected a download, got {other:?}"),
    }
    match plugin.bibrec_step(Some(table(&[("note", "n")])), 11) {
        BibrecStep::Known(fields) => assert_eq!(get(&fields, "note"), Some("n")),
        other => panic!("expected what is kept, got {other:?}"),
    }
    let rdf = "<dcterms:rights>Public domain in the USA.</dcterms:rights>".to_string();
    let b = bibrec_of(&Fetched::Response { status: 200, body: Some(rdf.clone()) });
    assert!(b.keep);
    assert_eq!(b.fields.len(), 1);
    let b = bibrec_of(&Fetched::Response { status: 404, body: Some(rdf) });
    assert!(!b.keep);
    assert_eq!(b.fields.len(), 0);
    let b = bibrec_of(&Fetched::Response { status: 200, body: Some("<html>".to_string()) });
    assert!(!b.keep);
    assert!(!bibrec_of(&Fetched::NoResponse).keep);
}

// -- Outcomes -----------------------------------------------------------------

#[test]
fn compute_outcomes_fetches_epub_and_caches() {
    let b = book(
        1342,
        "Pride and Prejudice",
        "Austen, Jane",
        &[("application/epub+zip", "http://x/ebooks/1342.epub.images")],
    );
    assert_eq!(epub_url(&b, "1342").unwrap(), "http://x/ebooks/1342.epub.images");
    assert_eq!(locator_url(&b).as_deref(), Some("http://x/ebooks/1342.epub.images"));
    let epub_bytes: Vec<u8> = b"<<fake epub bytes for test>>".to_vec();
    let o = edition_outcome("bafyCID".to_string(), epub_bytes.clone(), record(b));
    assert_eq!(o.hash, "bafyCID");
    assert_eq!(o.hash_kind, HashKind::Sha2_256);
    assert_eq!(o.bytes, Some(epub_bytes));
    assert_eq!(o.file_extension.as_deref(), Some("epub"));
    let kept = address_to_keep("1342", &o);
    assert_eq!((kept.record_id.as_str(), kept.cid.as_str()), ("1342", "bafyCID"));
    let again = GutenbergPlugin::new().compute_step(Some(kept.cid), "1342");
    assert!(matches!(again, ComputeStep::Known(cid) if cid == "bafyCID"));
    assert_eq!(o.record.map(|r| r.record_id).as_deref(), Some("1342"));
}

#[test]
fn compute_outcomes_missing_epub_returns_permanent() {
    let b = book(
        99999,
        "Audio-only Record",
        "x",
        &[("text/plain; charset=utf-8", "http://x/files/99999/99999-0.txt")],
    );
    match epub_url(&b, "99999") {
        Err(GatewayError::Permanent(msg)) => {
            assert!(msg.contains("epub"), "msg: {msg}");
            assert!(msg.contains("99999"), "msg: {msg}");
            assert_eq!(msg, "gutenberg record 99999 has no application/epub+zip format");
        }
        other => panic!("wrong variant: {other:?}"),
    }
}

// -- The upstream ---------------------------------------------------------------

#[test]
fn health_reflects_configure_state() {
    let plugin = GutenbergPlugin::new();
    match plugin.health() {
        PluginHealth::Degraded { reason } => assert!(reason.contains("configure")),
        PluginHealth::Healthy => panic!("unconfigured plugin should not be Ok"),
    }

    let mut plugin = GutenbergPlugin::new();
    plugin.configure(&Vec::new(), None);
    match plugin.health() {
        PluginHealth::Healthy => {}
        PluginHealth::Degraded { reason } => {
            panic!("configured plugin should be Ok, got Degraded: {reason}")
        }
    }
}

#[test]
fn manifest_lists_both_upstreams() {
    let gutenberg = GutenbergPlugin::default();
    assert_eq!(gutenberg.upstream_id(), "gutenberg");
    assert_eq!(gutenberg.served_file_types(), vec!["document"]);
    assert_eq!(gutenberg.served_content_kinds(), vec!["book"]);
    let env = Env { top_n: None, discovery_n: None, contact: None };
    let openlibrary = OpenLibraryPlugin::new(&env);
    assert_eq!(openlibrary.upstream_id(), "openlibrary");
    assert_eq!(openlibrary.served_file_types(), vec!["card"]);
    assert_eq!(openlibrary.served_content_kinds(), vec!["book"]);
}

#[test]
fn editions_share_the_contact_and_the_budget() {
    let shared = BudgetSize { per_second: 1, burst: 3 };
    let files = vec![None, Some(br#"{"contact":"ops@example.org"}"#.to_vec())];
    let mut plugin = GutenbergPlugin::with_base_url("http://g".to_string())
        .with_openlibrary_base_url("http://o".to_string())
        .with_openlibrary_budget(shared);
    assert_eq!(plugin.configure(&files, Some("env")), shared);
    let client = plugin.openlibrary.as_ref().expect("a client");
    assert_eq!(client.api_base, "http://o");
    assert!(client.user_agent.ends_with("; ops@example.org)"));
    assert_eq!(plugin.config_schema()[0].key, "contact");
    assert_eq!(json::text_member(&plugin.config_values(), "contact"), Some("ops@example.org"));

    let mut alone = GutenbergPlugin::new();
    assert_eq!(alone.configure(&Vec::new(), Some("env")), BudgetSize { per_second: 3, burst: 6 });
    assert_eq!(alone.openlibrary.as_ref().map(|c| c.api_base.as_str()), Some("https://openlibrary.org"));
}

#[test]
fn an_edition_and_its_work_meet_in_one_id() {
    let doc = SearchDoc {
        key: "/works/OL66554W".to_string(),
        title: Some("Pride and Prejudice".to_string()),
        cover_i: Some(1),
        ..Default::default()
    };
    let query = GatewayQuery::from_free_text("");
    let card = to_record(&doc, "A novel.", &query, Some("bagdCARD".to_string())).expect("a card");
    let body = br#"{ "docs": [{ "key": "/works/OL66554W", "id_project_gutenberg": ["1342"] }] }"#;
    let binding = binding_of(binding_answer(Ok(json::parse(body).expect("JSON")), 1342));
    let edition = into_discovery_record(books().remove(0), None, Table::new(), None, binding);
    assert_eq!(get(&card.fields, "openlibraryid"), Some("OL66554W"));
    assert_eq!(get(&edition.fields, "openlibraryid"), get(&card.fields, "openlibraryid"));
}

#[test]
fn nothing_of_an_rdf_document_is_lost() {
    let xml = "<dcterms:issued>d</dcterms:issued><dcterms:rights>r</dcterms:rights>\
               <dcterms:alternative>a</dcterms:alternative>\
               <dcterms:description>n http://wikipedia.org/x</dcterms:description>\
               <pgterms:marc508>c</pgterms:marc508><pgterms:marc520>s</pgterms:marc520>\
               <pgterms:marc908>l</pgterms:marc908><pgterms:webpage rdf:resource=\"w\"/>";
    let bibrec = parse_pgterms_rdf(xml);
    let given = map_of(&bibrec);
    assert_eq!(given.len(), 9);
    let r = into_discovery_record(books().remove(0), None, bibrec, None, None);
    for (key, value) in given {
        assert_eq!(get(&r.fields, &key), Some(value.as_str()));
    }
}

use std::collections::BTreeMap;

use book_feeder::card::{candidates, card_for, Projection};
use book_feeder::contact::BudgetSize;
use book_feeder::json::{self, Json};
use book_feeder::lookup::{work_text_of, DocLookup, DocStep, OpenLibraryClient, WorkLookup, WorkStep};
use book_feeder::openlibrary::{
    card_cid, card_outcome, env_usize, outcome_documents, to_record, work_of_record, Env,
    OpenLibraryPlugin, QueryPlan,
};
use book_feeder::openlibrary_client::{SearchDoc, WorkText};
use book_feeder::query::{
    browse_kind, filter_is_true, first_filter, foreign_identity_filter, Browse,
};
use book_feeder::table::Table;
use book_feeder::types::{DiscoveryRecord, GatewayError, GatewayQuery, HashKind, PluginHealth};

const PRIDE: &str = "bagdsaaaubnxxazlonruwe4tboj4u6tbwgy2tkncx";
const FOX: &str = "bagdsaaaubnxxazlonruwe4tboj4u6tbugu4dancx";

fn q(free: &str, filters: &[(&str, &str)]) -> GatewayQuery {
    let mut q = GatewayQuery::from_free_text(free);
    for (k, v) in filters {
        q.filters.insert((*k).into(), vec![(*v).into()]);
    }
    q
}

fn pride() -> SearchDoc {
    SearchDoc {
        key: "/works/OL66554W".into(),
        title: Some("Pride and Prejudice".into()),
        author_name: vec!["Jane Austen".into()],
        cover_i: Some(14348537),
        first_publish_year: Some(1813),
        id_project_gutenberg: vec![],
    }
}

fn doc_json(id: &str, title: &str, cover: &str) -> String {
    format!(
        r#"{{ "key": "/works/{id}", "title": "{title}", "author_name": ["Jane Austen"],
              "cover_i": {cover}, "first_publish_year": 1813, "language": ["eng"] }}"#
    )
}

fn parse(s: &str) -> Json {
    json::parse(s.as_bytes()).expect("test JSON")
}

fn locator() -> Option<String> {
    Some(PRIDE.to_string())
}

fn map_of(fields: &Table<String>) -> BTreeMap<String, String> {
    (0..fields.len())
        .map(|i| {
            let (k, v) = fields.entry(i);
            (k.to_string(), v.clone())
        })
        .collect()
}

fn field<'a>(r: &'a DiscoveryRecord, key: &str) -> Option<&'a str> {
    r.fields.get(key).map(String::as_str)
}

fn no_env() -> Env {
    Env { top_n: None, discovery_n: None, contact: None }
}

fn configured() -> OpenLibraryPlugin {
    let mut p = OpenLibraryPlugin::new(&no_env());
    p.configure(&Vec::new(), &no_env());
    p
}

fn text(id: &str, description: Option<&str>) -> Result<Option<WorkText>, GatewayError> {
    Ok(Some(WorkText { id: id.to_string(), description: description.map(str::to_string) }))
}

// -- Cards ------------------------------------------------------------------

/// The addresses that readers of cards route to, and nothing for what is no work id.
#[test]
fn golden_vectors_match_meta_read() {
    assert_eq!(
        card_cid("OL45804W", Some("bagdsaaaubnxxazlonruwe4tboj4u6tbugu4dancx".to_string())).as_deref(),
        Some("bagdsaaaubnxxazlonruwe4tboj4u6tbugu4dancx")
    );
    assert_eq!(
        card_cid("OL66554W", Some("bagdsaaaubnxxazlonruwe4tboj4u6tbwgy2tkncx".to_string())).as_deref(),
        Some("bagdsaaaubnxxazlonruwe4tboj4u6tbwgy2tkncx")
    );
    // The locator of the bare id, and nothing that is not a work id.
    assert_eq!(card_cid("OL66554W", locator()), locator());
    assert_eq!(card_cid("OL12710531M", locator()), None);
    assert_eq!(card_cid("work:OL66554W", locator()), None);
    assert_eq!(card_cid("OL66554W", None), None);
}

#[test]
fn a_card_carries_exactly_the_contract_fields() {
    let r = to_record(&pride(), "A novel of manners.", &q("pride", &[]), locator()).unwrap();
    assert_eq!(r.upstream_id, "openlibrary");
    assert_eq!(r.record_id, "OL66554W");
    let expected: BTreeMap<String, String> = [
        ("fileType", "card"),
        ("contentKind", "book"),
        ("domain", "literature"),
        ("workForm", "standalone"),
        ("cids/bagdsaaaubnxxazlonruwe4tboj4u6tbwgy2tkncx", "true"),
        ("openlibraryid", "OL66554W"),
        ("title", "Pride and Prejudice"),
        ("authors/Jane Austen", "true"),
        ("author", "Jane Austen"),
        ("description/eng", "A novel of manners."),
        ("poster_url", "https://covers.openlibrary.org/b/id/14348537-L.jpg"),
        ("releasedate", "1813"),
        ("sourceUrl", "https://openlibrary.org/works/OL66554W"),
        ("source/gateway:openlibrary", "true"),
    ]
    .into_iter()
    .map(|(k, v)| (k.to_string(), v.to_string()))
    .collect();
    // Exact equality: this is also the assertion that a card carries no trust claim
    // (`anchored`, `anchorSource`), for the card is the anchor, and no counts.
    assert_eq!(map_of(&r.fields), expected);
}

#[test]
fn several_authors_are_a_key_set_and_a_joined_scalar() {
    let mut d = pride();
    d.author_name = vec!["A. Writer".into(), "B. Writer".into(), "A. Writer".into()];
    let r = to_record(&d, "x", &q("", &[]), locator()).unwrap();
    assert_eq!(field(&r, "authors/A. Writer"), Some("true"));
    assert_eq!(field(&r, "authors/B. Writer"), Some("true"));
    assert_eq!(field(&r, "author"), Some("A. Writer, B. Writer"));
}

#[test]
fn a_card_trims_what_it_says() {
    let mut d = pride();
    d.title = Some("  Emma\n".into());
    d.author_name = vec![" ".into(), " J. A. ".into(), "J. A.".into()];
    d.first_publish_year = Some(7);
    let r = to_record(&d, " \n A novel. ", &q("", &[]), locator()).unwrap();
    assert_eq!(field(&r, "title"), Some("Emma"));
    assert_eq!(field(&r, "description/eng"), Some("A novel."));
    assert_eq!(field(&r, "author"), Some("J. A."));
    assert_eq!(field(&r, "authors/J. A."), Some("true"));
    assert_eq!(field(&r, "releasedate"), Some("0007"));

    d.author_name = vec!["  ".into()];
    for year in [None, Some(0), Some(-50)] {
        d.first_publish_year = year;
        let r = to_record(&d, "x", &q("", &[]), locator()).unwrap();
        assert_eq!(field(&r, "releasedate"), None);
        assert_eq!(field(&r, "author"), None);
    }
}

#[test]
fn no_card_without_a_cover_or_a_description() {
    let mut coverless = pride();
    coverless.cover_i = None;
    assert!(to_record(&coverless, "A novel.", &q("", &[]), locator()).is_none());
    assert!(to_record(&pride(), "   ", &q("", &[]), locator()).is_none());
    let mut edition = pride();
    edition.key = "/works/OL12710531M".into();
    assert!(to_record(&edition, "A novel.", &q("", &[]), locator()).is_none());
}

#[test]
fn no_card_without_a_title_or_an_address() {
    let mut untitled = pride();
    untitled.title = Some(" ".into());
    assert!(to_record(&untitled, "A novel.", &q("", &[]), locator()).is_none());
    untitled.title = None;
    assert!(to_record(&untitled, "A novel.", &q("", &[]), locator()).is_none());
    assert!(to_record(&pride(), "A novel.", &q("", &[]), None).is_none());
}

#[test]
fn echoes_browse_markers_but_no_other_filter() {
    let r = to_record(
        &pride(),
        "A novel.",
        &q("", &[("popular", "true"), ("licence", "pd"), ("contentKind", "book")]),
        locator(),
    )
    .unwrap();
    assert_eq!(field(&r, "popular"), Some("true"));
    assert!(!r.fields.contains_key("licence"), "a card must not borrow a query's licence");
    assert!(!r.fields.contains_key("fresh"));
    assert!(!r.fields.contains_key("trending"));
}

#[test]
fn a_card_has_one_address_and_reads_the_query_for_markers_only() {
    let markers = q("x", &[("fresh", "TRUE"), ("trending", "true"), ("popular", "no")]);
    let r = to_record(&pride(), "A novel.", &markers, locator()).unwrap();
    let keys = map_of(&r.fields);
    let addresses: Vec<&String> = keys.keys().filter(|k| k.starts_with("cids/")).collect();
    assert_eq!(addresses.len(), 1);
    let other = q("y", &[("fresh", "true"), ("trending", "True"), ("isbn", "1")]);
    let s = to_record(&pride(), "A novel.", &other, locator()).unwrap();
    assert_eq!(keys, map_of(&s.fields));
}

// -- Reading a query ----------------------------------------------------------

#[test]
fn browse_markers_map_to_rows() {
    assert_eq!(browse_kind(&q("", &[("popular", "true")])), Some(Browse::Popular));
    assert_eq!(browse_kind(&q("", &[("trending", "true")])), Some(Browse::Popular));
    assert_eq!(browse_kind(&q("", &[("fresh", "true")])), Some(Browse::Fresh));
    assert_eq!(browse_kind(&q("austen", &[("popular", "true")])), None);
    assert_eq!(browse_kind(&q("", &[])), None);
}

#[test]
fn a_filter_is_read_by_its_values() {
    let mut query = q(" ", &[("fresh", "true"), ("popular", "true"), ("x", "false")]);
    assert_eq!(browse_kind(&query), Some(Browse::Fresh), "fresh goes first");
    assert!(!filter_is_true(&query, "x"));
    assert!(!filter_is_true(&query, "absent"));
    query.filters.insert("x".into(), vec!["no".into(), "True".into()]);
    assert!(filter_is_true(&query, "x"));
    query.filters.insert("x".into(), vec![" true".into()]);
    assert!(!filter_is_true(&query, "x"));
    query.filters.insert("id".into(), vec![" ".into(), " OL1W ".into(), "OL2W".into()]);
    assert_eq!(first_filter(&query, "id").as_deref(), Some("OL1W"));
    query.filters.insert("id".into(), vec!["".into()]);
    assert_eq!(first_filter(&query, "id"), None);
    assert_eq!(first_filter(&query, "absent"), None);
}

#[test]
fn musicbrainz_ids_are_foreign_by_their_prefix() {
    for key in ["mbX", "mbReleaseGroupId"] {
        assert_eq!(foreign_identity_filter(&q("", &[("title", "x"), (key, "1")])), Some(key));
    }
    for key in ["mb", "mbx", "MbX", "mb1", "isbn13", "openlibraryid", "licence"] {
        assert_eq!(foreign_identity_filter(&q("", &[(key, "1")])), None, "{key}");
    }
}

// -- The upstream ---------------------------------------------------------------

#[test]
fn serves_the_card_tier_only() {
    let p = OpenLibraryPlugin::new(&no_env());
    assert_eq!(p.served_file_types(), &["card"]);
    assert_eq!(p.served_content_kinds(), &["book"]);
    assert_eq!(p.upstream_id(), "openlibrary");
}

#[test]
fn sizes_come_from_the_environment() {
    assert_eq!(env_usize(None, 12), 12);
    assert_eq!(env_usize(Some("7"), 12), 7);
    assert_eq!(env_usize(Some("0"), 12), 12);
    assert_eq!(env_usize(Some("-1"), 12), 12);
    assert_eq!(env_usize(Some(" 7"), 12), 12);
    let env = Env {
        top_n: Some("3".into()),
        discovery_n: Some("x".into()),
        contact: Some(" a@b.c ".into()),
    };
    let p = OpenLibraryPlugin::new(&env);
    assert_eq!((p.top_n, p.discovery_n), (3, 20));
    assert_eq!(p.contact.as_deref(), Some("a@b.c"));
    let p = OpenLibraryPlugin::new(&no_env());
    assert_eq!((p.top_n, p.discovery_n), (12, 20));
    assert_eq!(p.contact, None);
}

#[test]
fn configuring_makes_the_upstream_ready() {
    let mut p = OpenLibraryPlugin::with_api_base("http://x".to_string(), &no_env());
    match p.health() {
        PluginHealth::Degraded { reason } => assert_eq!(reason, "not configured"),
        PluginHealth::Healthy => panic!("an upstream that is not configured is not healthy"),
    }
    let files = vec![Some(br#"{"contact":"ops@example.org"}"#.to_vec())];
    let size = p.configure(&files, &no_env());
    assert!(matches!(p.health(), PluginHealth::Healthy));
    assert_eq!((size.per_second, size.burst), (3, 6));
    assert_eq!(p.contact.as_deref(), Some("ops@example.org"));
    let client = p.client.as_ref().expect("a client");
    assert_eq!(client.api_base, "http://x");
    assert!(client.user_agent.ends_with("; ops@example.org)"));
    assert_eq!(json::text_member(&p.config_values(), "contact"), Some("ops@example.org"));
    assert_eq!(p.config_schema().len(), 1);
    assert_eq!(p.config_schema()[0].key, "contact");

    let mut anonymous = OpenLibraryPlugin::new(&no_env());
    assert_eq!(anonymous.configure(&Vec::new(), &no_env()), BudgetSize { per_second: 1, burst: 3 });
    assert_eq!(json::text_member(&anonymous.config_values(), "contact"), Some(""));
    let shared = BudgetSize { per_second: 100, burst: 100 };
    let mut sharing = OpenLibraryPlugin::new(&no_env()).with_budget(shared);
    assert_eq!(sharing.configure(&files, &no_env()), shared);
}

#[test]
fn unconfigured_answers_nothing_rather_than_erroring() {
    let p = OpenLibraryPlugin::new(&no_env());
    let plan = p.handle_query(&q("austen", &[("fileType", "card")]), true, 5);
    assert!(matches!(plan, QueryPlan::Nothing));
    assert_eq!(plan.card_limit(), 0);
}

#[test]
fn a_query_for_other_axes_is_declined_before_any_request() {
    let p = configured();
    for filters in [
        vec![("fileType", "document"), ("contentKind", "book")],
        vec![("fileType", "card"), ("contentKind", "comic")],
    ] {
        let plan = p.handle_query(&q("pride", &filters), false, 5);
        assert!(matches!(plan, QueryPlan::Nothing), "{filters:?}");
    }
}

#[test]
fn every_foreign_identity_anchor_is_declined_before_any_request() {
    let p = configured();
    let keys = [
        "anilistid",
        "workcid",
        "chapterNumber",
        "volumeNumber",
        "chapterStart",
        "chapterEnd",
        "tmdbid",
        "imdbid",
        "tvdbid",
        "gutenbergid",
        "isbn",
        "olEditionId",
        "isrc",
        "doi",
        "mbReleaseGroupId",
        "mbArtistId",
        "mbRecordingId",
    ];
    for key in keys {
        let query = q("Pride and Prejudice", &[("contentKind", "book"), (key, "1342")]);
        let plan = p.handle_query(&query, true, 5);
        assert!(
            matches!(plan, QueryPlan::Nothing),
            "{key} must not degrade to a free-text search"
        );
        let anchored = q("x", &[("openlibraryid", "OL1W"), (key, "1342")]);
        assert!(matches!(p.handle_query(&anchored, true, 5), QueryPlan::Nothing));
    }
}

#[test]
fn a_malformed_openlibraryid_answers_nothing_rather_than_searching() {
    let p = configured();
    let query = q("Pride and Prejudice", &[("openlibraryid", "OL66554M")]);
    assert!(matches!(p.handle_query(&query, true, 5), QueryPlan::Nothing));
}

#[test]
fn a_filters_only_query_without_a_browse_marker_answers_nothing() {
    let p = configured();
    let query = q("", &[("domain", "literature"), ("contentKind", "book"), ("licence", "pd")]);
    assert!(matches!(p.handle_query(&query, true, 5), QueryPlan::Nothing));
}

#[test]
fn an_openlibraryid_is_looked_up_and_never_searched() {
    let p = configured();
    for raw in ["OL66554W", " /works/OL66554W "] {
        let query = q("Pride and Prejudice", &[("openlibraryid", raw), ("popular", "true")]);
        match p.handle_query(&query, true, 10) {
            QueryPlan::Work { id } => assert_eq!(id, "OL66554W"),
            other => panic!("expected a work, got {other:?}"),
        }
    }
}

#[test]
fn limits_follow_the_number_of_cards() {
    let p = configured();
    let search = |max: usize| match p.handle_query(&q(" austen ", &[]), true, max) {
        QueryPlan::Search { text, limit, n } => (text, limit, n),
        other => panic!("expected a search, got {other:?}"),
    };
    assert_eq!(search(5), ("austen".to_string(), 10, 5));
    assert_eq!(search(0), ("austen".to_string(), 2, 1));
    assert_eq!(search(100), ("austen".to_string(), 24, 12));
    let row = |key: &str, max: usize| match p.handle_query(&q("", &[(key, "true")]), true, max) {
        QueryPlan::Row { kind, limit, n } => (kind, limit, n),
        other => panic!("expected a row, got {other:?}"),
    };
    assert_eq!(row("popular", 20), (Browse::Popular, 40, 20));
    assert_eq!(row("fresh", 20), (Browse::Fresh, 80, 20));
    assert_eq!(row("fresh", 3), (Browse::Fresh, 12, 3));
    let env = Env { top_n: Some(usize::MAX.to_string()), discovery_n: Some("70".into()), contact: None };
    let mut big = OpenLibraryPlugin::new(&env);
    big.configure(&Vec::new(), &env);
    match big.handle_query(&q("x", &[]), true, usize::MAX) {
        QueryPlan::Search { limit, n, .. } => assert_eq!((limit, n), (100, usize::MAX)),
        other => panic!("expected a search, got {other:?}"),
    }
    match big.handle_query(&q("", &[("fresh", "true")]), true, 70) {
        QueryPlan::Row { limit, n, .. } => assert_eq!((limit, n), (100, 70)),
        other => panic!("expected a row, got {other:?}"),
    }
}

// -- From documents to cards ------------------------------------------------------

fn cards(docs: Vec<SearchDoc>, query: &GatewayQuery, n: usize, works: &[(&str, &str)]) -> (Vec<DiscoveryRecord>, Vec<String>) {
    let client = OpenLibraryClient::new(None, None);
    let mut projection = Projection::new(n);
    let mut asked = Vec::new();
    for doc in candidates(docs) {
        if projection.is_full() {
            break;
        }
        let id = doc.work_id().expect("a candidate has a work id").to_string();
        let mut lookup: WorkLookup = client.work_text(&id);
        let answer = loop {
            let request = lookup.request();
            asked.push(request.request.path.clone());
            let reply = works
                .iter()
                .find(|(path, _)| *path == request.request.path)
                .map(|(_, body)| parse(body))
                .ok_or(GatewayError::NotFound);
            match lookup.step(reply) {
                WorkStep::Fetch(next) => lookup = next,
                WorkStep::Found { id, work } => break Ok(Some(work_text_of(id, &work))),
                WorkStep::Missing => break Ok(None),
                WorkStep::Failed(e) => break Err(e),
            }
        };
        let locator = match id.as_str() {
            "OL66554W" => Some(PRIDE.to_string()),
            "OL45804W" => Some(FOX.to_string()),
            _ => Some(format!("locator-of-{id}")),
        };
        projection = projection.offer(&doc, answer, query, locator);
    }
    (projection.finish(), asked)
}

#[test]
fn a_search_mints_one_card_per_work_with_a_cover_and_a_description() {
    let p = configured();
    let query = q("pride and prejudice", &[("fileType", "card")]);
    let plan = p.handle_query(&query, true, 10);
    let request = plan.request(p.client.as_ref().unwrap(), 0).expect("a search");
    assert_eq!(request.request.path, "/search.json");
    assert!(request.request.params.contains(&("q".to_string(), "pride and prejudice".to_string())));
    assert!(request.request.params.contains(&(
        "fields".to_string(),
        "key,title,author_name,cover_i,first_publish_year,language".to_string()
    )));
    let body = format!(
        r#"{{ "numFound": 4, "docs": [ {}, {}, {}, {} ] }}"#,
        doc_json("OL66554W", "Pride and Prejudice", "14348537"),
        // No cover: no card, and no work JSON is fetched for it.
        doc_json("OL15165350W", "Pride and Prejudice", "null"),
        // A work with no description: no card.
        doc_json("OL1W", "Stub", "5"),
        // An edition key under /works/: never a card.
        r#"{ "key": "/works/OL12710531M", "title": "Stub", "cover_i": 7 }"#
    );
    let docs = plan.documents(Ok(parse(&body))).expect("documents");
    assert_eq!(docs.len(), 4);
    let works = [
        (
            "/works/OL66554W.json",
            r#"{ "key": "/works/OL66554W", "description":
                 "Pride and Prejudice is an 1813 novel.\r\n\r\n----------\r\nAlso contained in: …" }"#,
        ),
        ("/works/OL1W.json", r#"{ "key": "/works/OL1W", "title": "Stub" }"#),
    ];
    let (out, asked) = cards(docs, &query, plan.card_limit(), &works);
    assert_eq!(asked, vec!["/works/OL66554W.json", "/works/OL1W.json"]);
    assert_eq!(out.len(), 1);
    assert_eq!(field(&out[0], "openlibraryid"), Some("OL66554W"));
    assert_eq!(field(&out[0], "description/eng"), Some("Pride and Prejudice is an 1813 novel."));
    assert_eq!(field(&out[0], "cids/bagdsaaaubnxxazlonruwe4tboj4u6tbwgy2tkncx"), Some("true"));
}

#[test]
fn a_merged_work_is_not_minted_under_its_old_id() {
    let query = q("mr fox", &[]);
    let p = configured();
    let plan = p.handle_query(&query, true, 10);
    let body = format!(
        r#"{{ "numFound": 2, "docs": [ {}, {} ] }}"#,
        doc_json("OL45883W", "Fantastic Mr Fox", "1"),
        doc_json("OL45804W", "Fantastic Mr Fox", "6498519")
    );
    let docs = plan.documents(Ok(parse(&body))).expect("documents");
    let works = [
        (
            "/works/OL45883W.json",
            r#"{ "key": "/works/OL45883W", "type": { "key": "/type/redirect" }, "location": "/works/OL45804W" }"#,
        ),
        ("/works/OL45804W.json", r#"{ "key": "/works/OL45804W", "description": "A clever fox." }"#),
    ];
    let (out, _) = cards(docs, &query, plan.card_limit(), &works);
    let ids: Vec<&str> = out.iter().map(|r| r.record_id.as_str()).collect();
    assert_eq!(ids, vec!["OL45804W"]);
}

#[test]
fn the_popular_row_reads_trending_and_echoes_its_marker() {
    let p = configured();
    let row = q("", &[("domain", "literature"), ("contentKind", "book"), ("popular", "true")]);
    let plan = p.handle_query(&row, true, 20);
    let request = plan.request(p.client.as_ref().unwrap(), 0).expect("a row");
    assert_eq!(request.request.path, "/trending/daily.json");
    assert_eq!(request.key, "openlibrary:trending:daily:40");
    assert_eq!(plan.deadline_secs(), 5);
    let body = format!(
        r#"{{ "query": "/trending/daily", "works": [ {} ] }}"#,
        doc_json("OL66554W", "Pride and Prejudice", "14348537")
    );
    let docs = plan.documents(Ok(parse(&body))).expect("documents");
    let works = [("/works/OL66554W.json", r#"{ "key": "/works/OL66554W", "description": "A novel." }"#)];
    let (out, _) = cards(docs, &row, plan.card_limit(), &works);
    assert_eq!(out.len(), 1);
    assert_eq!(field(&out[0], "popular"), Some("true"));
}

#[test]
fn the_fresh_row_sorts_search_by_new() {
    let p = configured();
    let row = q("", &[("fresh", "true")]);
    let plan = p.handle_query(&row, true, 20);
    let request = plan.request(p.client.as_ref().unwrap(), 1_790_000_000).expect("a row");
    assert_eq!(request.request.path, "/search.json");
    assert!(request.request.params.contains(&("sort".to_string(), "new".to_string())));
    assert!(request
        .request
        .params
        .contains(&("q".to_string(), "first_publish_year:[2025 TO 2026]".to_string())));
    assert_eq!(request.key, "openlibrary:fresh:2026:80");
    let body = format!(
        r#"{{ "numFound": 1, "docs": [ {} ] }}"#,
        doc_json("OL66554W", "Pride and Prejudice", "14348537")
    );
    let docs = plan.documents(Ok(parse(&body))).expect("documents");
    let works = [("/works/OL66554W.json", r#"{ "key": "/works/OL66554W", "description": "A novel." }"#)];
    let (out, _) = cards(docs, &row, plan.card_limit(), &works);
    assert_eq!(out.len(), 1);
    assert_eq!(field(&out[0], "fresh"), Some("true"));
}

#[test]
fn a_rate_limited_search_surfaces_as_rate_limited() {
    let p = configured();
    let plan = p.handle_query(&q("austen", &[]), true, 5);
    let err = plan
        .documents(Err(GatewayError::RateLimited { retry_after_s: 30 }))
        .expect_err("429");
    assert!(matches!(err, GatewayError::RateLimited { retry_after_s: 30 }), "got {err:?}");
}

fn resolve(id: &str, answers: &[(&str, &str)]) -> (Result<Option<SearchDoc>, GatewayError>, Vec<String>) {
    let client = OpenLibraryClient::new(None, None);
    let mut lookup: DocLookup = client.doc_by_work_id(id);
    let mut asked = Vec::new();
    loop {
        let request = lookup.request().request;
        let line = match request.params.first() {
            Some((_, q)) => format!("{}?q={q}", request.path),
            None => request.path.clone(),
        };
        asked.push(line.clone());
        let reply = answers
            .iter()
            .find(|(path, _)| *path == line)
            .map(|(_, body)| parse(body))
            .ok_or(GatewayError::NotFound);
        match lookup.step(reply) {
            DocStep::Fetch(next) => lookup = next,
            DocStep::Done(doc) => return (Ok(doc), asked),
            DocStep::Failed(e) => return (Err(e), asked),
        }
    }
}

#[test]
fn an_openlibraryid_resolves_exactly_one_card_and_reads_a_typed_description() {
    let p = configured();
    let query = q("Pride and Prejudice", &[("openlibraryid", "OL66554W"), ("contentKind", "book")]);
    let plan = p.handle_query(&query, true, 10);
    let id = match &plan {
        QueryPlan::Work { id } => id.clone(),
        other => panic!("expected a work, got {other:?}"),
    };
    // The free text must not be searched when the anchor is present.
    assert!(plan.request(p.client.as_ref().unwrap(), 0).is_none());
    let index = format!(
        r#"{{ "numFound": 1, "docs": [ {} ] }}"#,
        doc_json("OL66554W", "Pride and Prejudice", "14348537")
    );
    let (doc, asked) = resolve(&id, &[("/search.json?q=key:/works/OL66554W", &index)]);
    assert_eq!(asked.len(), 1);
    let doc = doc.expect("no failure").expect("a document");
    let works = [(
        "/works/OL66554W.json",
        r#"{ "key": "/works/OL66554W", "description": { "type": "/type/text", "value": "A novel of manners." } }"#,
    )];
    let (out, _) = cards(vec![doc], &query, plan.card_limit(), &works);
    assert_eq!(out.len(), 1);
    assert_eq!(field(&out[0], "description/eng"), Some("A novel of manners."));
    assert_eq!(field(&out[0], "releasedate"), Some("1813"));
}

/// A work the search index does not hold still resolves, from the work JSON and its
/// author records, with no year rather than an edition's.
#[test]
fn an_unindexed_work_falls_back_to_the_work_json_and_its_authors() {
    let work = r#"{
        "key": "/works/OL45804W",
        "title": "Fantastic Mr Fox",
        "covers": [-1, 6498519],
        "authors": [{ "author": { "key": "/authors/OL34184A" }, "type": { "key": "/type/author_role" } }],
        "first_publish_date": "1988",
        "description": "A clever fox outwits three farmers."
    }"#;
    let (doc, asked) = resolve(
        "OL45804W",
        &[
            ("/search.json?q=key:/works/OL45804W", r#"{ "numFound": 0, "docs": [] }"#),
            ("/works/OL45804W.json", work),
            ("/authors/OL34184A.json", r#"{ "name": "Roald Dahl" }"#),
        ],
    );
    assert_eq!(
        asked,
        vec![
            "/search.json?q=key:/works/OL45804W",
            "/works/OL45804W.json",
            "/authors/OL34184A.json"
        ]
    );
    let doc = doc.expect("no failure").expect("a document");
    let (out, _) = cards(
        vec![doc],
        &q("", &[("openlibraryid", "OL45804W")]),
        1,
        &[("/works/OL45804W.json", work)],
    );
    assert_eq!(out.len(), 1);
    let f = &out[0];
    assert_eq!(field(f, "title"), Some("Fantastic Mr Fox"));
    assert_eq!(field(f, "author"), Some("Roald Dahl"));
    assert_eq!(
        field(f, "poster_url"),
        Some("https://covers.openlibrary.org/b/id/6498519-L.jpg")
    );
    assert_eq!(field(f, "cids/bagdsaaaubnxxazlonruwe4tboj4u6tbugu4dancx"), Some("true"));
    assert_eq!(field(f, "releasedate"), None, "an edition's date is not the work's");
}

#[test]
fn a_row_takes_no_more_cards_than_it_wants_and_each_work_once() {
    let doc = |id: &str| SearchDoc { key: format!("/works/{id}"), ..pride() };
    let docs = vec![doc("OL1W"), doc("OL2W"), doc("OL1W"), doc("OL3W"), doc("OL4W")];
    let described = r#"{ "description": "x" }"#;
    let works = [
        ("/works/OL1W.json", described),
        ("/works/OL3W.json", described),
        ("/works/OL4W.json", described),
    ];
    let (out, asked) = cards(docs, &q("", &[]), 2, &works);
    let ids: Vec<&str> = out.iter().map(|r| r.record_id.as_str()).collect();
    assert_eq!(ids, vec!["OL1W", "OL3W"], "in the order of the documents");
    assert_eq!(asked.len(), 3, "once there are enough cards, nothing more is asked");
}

/// The whole answer: no more cards than the caller takes, each work once, and each card
/// with its work, its poster, its description and its own address.
#[test]
fn an_answer_holds_distinct_full_cards_up_to_its_limit() {
    let doc = |id: &str| SearchDoc { key: format!("/works/{id}"), ..pride() };
    let described = r#"{ "description": "x" }"#;
    let works = [
        ("/works/OL1W.json", described),
        ("/works/OL2W.json", described),
        ("/works/OL3W.json", described),
    ];
    let query = q("pride", &[("fileType", "card")]);
    for (max_results, expected) in [(0, 1), (1, 1), (2, 2), (10, 3)] {
        let plan = configured().handle_query(&query, true, max_results);
        let docs = vec![doc("OL1W"), doc("OL1W"), doc("OL2W"), doc("OL3W"), doc("OL4W")];
        let (out, _) = cards(docs, &query, plan.card_limit(), &works);
        let ids: Vec<&str> = out.iter().map(|r| r.record_id.as_str()).collect();
        assert_eq!(ids, ["OL1W", "OL2W", "OL3W"][..expected]);
        for record in &out {
            let id = record.record_id.as_str();
            assert_eq!(field(record, "openlibraryid"), Some(id));
            assert!(field(record, "poster_url").is_some_and(|url| !url.is_empty()));
            assert_eq!(field(record, "description/eng"), Some("x"));
            assert_eq!(field(record, &format!("cids/locator-of-{id}")), Some("true"));
        }
    }
}

#[test]
fn a_failed_or_missing_work_is_no_card() {
    let query = q("", &[]);
    let failed = Err(GatewayError::Transient("x".into()));
    assert!(card_for(&pride(), failed, &query, locator()).is_none());
    assert!(card_for(&pride(), Ok(None), &query, locator()).is_none());
    assert!(card_for(&pride(), text("OL66554W", None), &query, locator()).is_none());
    assert!(card_for(&pride(), text("OL1W", Some("x")), &query, locator()).is_none());
    assert!(card_for(&pride(), text("OL66554W", Some("x")), &query, locator()).is_some());
    let full = Projection::new(0);
    assert!(full.is_full());
    let full = full.offer(&pride(), text("OL66554W", Some("x")), &query, locator());
    assert!(full.finish().is_empty());
}

// -- Outcomes -------------------------------------------------------------------

#[test]
fn compute_outcomes_is_a_byteless_card_locator() {
    let out = card_outcome("OL66554W", locator(), None).unwrap();
    assert!(out.bytes.is_none(), "a card has no bytes");
    assert!(out.file_extension.is_none(), "must be None when bytes is None");
    assert_eq!(out.hash_kind, HashKind::CardLocator);
    assert_eq!(out.hash, "bagdsaaaubnxxazlonruwe4tboj4u6tbwgy2tkncx");
    assert!(out.record.is_none());
}

#[test]
fn an_outcome_without_its_document_has_no_card_and_is_no_error() {
    let query = GatewayQuery::from_free_text("");
    let works = [("/works/OL66554W.json", r#"{ "description": "x" }"#)];
    for found in [Err(GatewayError::Transient("x".into())), Ok(None)] {
        let docs = outcome_documents(found);
        assert!(docs.is_empty());
        let (mut out, asked) = cards(docs, &query, 1, &works);
        assert!(asked.is_empty());
        let o = card_outcome("OL66554W", locator(), out.pop()).expect("no error");
        assert!(o.record.is_none());
    }
    let docs = outcome_documents(Ok(Some(pride())));
    assert_eq!(docs.len(), 1);
    let (mut out, _) = cards(docs, &query, 1, &works);
    let o = card_outcome("OL66554W", locator(), out.pop()).expect("no error");
    assert_eq!(o.record.map(|r| r.record_id).as_deref(), Some("OL66554W"));
}

#[test]
fn compute_outcomes_rejects_a_non_work_id() {
    for id in ["OL12710531M", "1342"] {
        match work_of_record(id) {
            Err(GatewayError::Permanent(m)) => {
                assert_eq!(m, format!("openlibrary: bad work id {id}"))
            }
            other => panic!("expected a permanent error, got {other:?}"),
        }
        match card_outcome(id, locator(), None) {
            Err(GatewayError::Permanent(m)) => {
                assert_eq!(m, format!("openlibrary: bad work id {id}"))
            }
            other => panic!("expected a permanent error, got {other:?}"),
        }
    }
    assert_eq!(work_of_record(" OL66554W ").unwrap(), "OL66554W");
    assert!(card_outcome("OL66554W", None, None).is_err());
}

#[test]
fn compute_for_an_open_library_card_is_a_byteless_card_locator() {
    let (doc, _) = resolve(
        "OL45804W",
        &[(
            "/search.json?q=key:/works/OL45804W",
            r#"{ "numFound": 1, "docs": [{
                "key": "/works/OL45804W", "title": "Fantastic Mr Fox", "author_name": ["Roald Dahl"],
                "cover_i": 6498519, "first_publish_year": 1970 }] }"#,
        )],
    );
    let doc = doc.expect("no failure").expect("a document");
    let works = [(
        "/works/OL45804W.json",
        r#"{ "key": "/works/OL45804W", "description": "A clever fox outwits three farmers." }"#,
    )];
    let (mut out, _) = cards(vec![doc], &GatewayQuery::from_free_text(""), 1, &works);
    let o = card_outcome("OL45804W", Some(FOX.to_string()), out.pop()).unwrap();
    assert_eq!(o.hash, "bagdsaaaubnxxazlonruwe4tboj4u6tbugu4dancx");
    assert_eq!(o.hash_kind, HashKind::CardLocator);
    assert!(o.bytes.is_none());
    assert!(o.file_extension.is_none());
    let record = o.record.as_ref().expect("the card record rides the outcome");
    assert_eq!(field(record, "title"), Some("Fantastic Mr Fox"));

    // A record of another work does not ride along.
    let other = to_record(&pride(), "x", &q("", &[]), locator());
    let o = card_outcome("OL45804W", Some(FOX.to_string()), other).unwrap();
    assert!(o.record.is_none());
}

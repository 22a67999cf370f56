use book_feeder::cache::{
    binding_body, binding_to_keep, cached_binding, is_fresh, serve_cached, to_keep, Cached,
};
use book_feeder::calendar::calendar_year;
use book_feeder::json::{self, Json};
use book_feeder::lookup::{
    author_name, binding_answer, binding_key, work_text_of, DocLookup, DocStep, OpenLibraryClient,
    WorkStep,
};
use book_feeder::send::{
    freeze_secs, read_reply, reply_of, SendEvent, SendStep, Sending, Target,
};
use book_feeder::types::GatewayError;

const DAY: u64 = 86_400;

fn parse(s: &str) -> Json {
    json::parse(s.as_bytes()).expect("test JSON")
}

fn client() -> OpenLibraryClient {
    OpenLibraryClient::new(None, None)
}

fn pairs(list: &[(&str, &str)]) -> Vec<(String, String)> {
    list.iter().map(|(k, v)| (k.to_string(), v.to_string())).collect()
}

const FIELDS: &str = "key,title,author_name,cover_i,first_publish_year,language";

#[test]
fn a_search_is_kept_under_its_words() {
    let c = client();
    let r = c.search("  Pride\tAND\n prejudice ", 24);
    assert_eq!(r.key, "openlibrary:search:24:pride and prejudice");
    assert_eq!(r.ttl_secs, DAY);
    assert_eq!(r.request.path, "/search.json");
    assert_eq!(
        r.request.params,
        pairs(&[("q", "Pride\tAND\n prejudice"), ("fields", FIELDS), ("limit", "24")])
    );
    assert_eq!(c.search("pride and prejudice", 24).key, r.key);
    assert_eq!(c.search("\u{c9}MILE", 1).key, "openlibrary:search:1:\u{e9}mile");
    assert_eq!(c.search_under("x", 1, "y").key, "openlibrary:search:1:y");
}

#[test]
fn the_popular_row_is_asked_for_by_the_day() {
    let r = client().trending(40);
    assert_eq!(r.key, "openlibrary:trending:daily:40");
    assert_eq!(r.ttl_secs, 6 * 3600);
    assert_eq!(r.request.path, "/trending/daily.json");
    assert_eq!(r.request.params, pairs(&[("fields", FIELDS), ("limit", "40")]));
}

#[test]
fn the_fresh_row_spans_two_years() {
    let c = client();
    let r = c.fresh(0, 8);
    assert_eq!(r.key, "openlibrary:fresh:1970:8");
    assert_eq!(r.ttl_secs, 6 * 3600);
    assert_eq!(
        r.request.params,
        pairs(&[
            ("q", "first_publish_year:[1969 TO 1970]"),
            ("sort", "new"),
            ("fields", FIELDS),
            ("limit", "8")
        ])
    );
    assert_eq!(c.fresh(31_535_999, 8).key, "openlibrary:fresh:1970:8");
    assert_eq!(c.fresh(31_536_000, 8).key, "openlibrary:fresh:1971:8");
}

/// At 2024-12-31T23:59:59Z it is still 2024, and a second later it is not.
#[test]
fn the_fresh_row_follows_the_calendar() {
    let query = |now: u64| {
        let r = client().fresh(now, 80);
        assert_eq!(r.request.path, "/search.json");
        assert_eq!(r.request.params[1], ("sort".to_string(), "new".to_string()));
        assert_eq!(r.request.params[3], ("limit".to_string(), "80".to_string()));
        r.request.params[0].1.clone()
    };
    assert_eq!(query(1_735_689_599), "first_publish_year:[2023 TO 2024]");
    assert_eq!(query(1_735_689_600), "first_publish_year:[2024 TO 2025]");
}

#[test]
fn years_begin_at_new_year() {
    // The first second of each year, as the calendar has it.
    let begins = [
        (1970, 0),
        (1972, 63_072_000),
        (1973, 94_694_400),
        (2000, 946_684_800),
        (2001, 978_307_200),
        (2025, 1_735_689_600),
        (2100, 4_102_444_800),
        (2101, 4_133_980_800),
        (2370, 12_622_780_800),
        (2400, 13_569_465_600),
        (2401, 13_601_088_000),
    ];
    for (year, second) in begins {
        assert_eq!(calendar_year(second), year);
        if second > 0 {
            assert_eq!(calendar_year(second - 1), year - 1);
        }
    }
    assert_eq!(calendar_year(u64::MAX), 584_554_051_223);
}

#[test]
fn the_work_of_an_etext_is_asked_for_twice_over() {
    let r = client().gutenberg_work(1342);
    assert_eq!(r.path, "/search.json");
    assert_eq!(
        r.params,
        pairs(&[
            ("q", "id_project_gutenberg:1342"),
            ("fields", "key,id_project_gutenberg"),
            ("limit", "2")
        ])
    );
    assert_eq!(binding_key(1342), "openlibrary:gutenberg:1342");
}

#[test]
fn a_work_lookup_follows_one_redirect() {
    let first = client().work_text("OL45883W");
    let r = first.request();
    assert_eq!(r.key, "openlibrary:work:OL45883W");
    assert_eq!(r.ttl_secs, 30 * DAY);
    assert_eq!(r.request.path, "/works/OL45883W.json");
    assert!(r.request.params.is_empty());
    let merged = r#"{ "type": { "key": "/type/redirect" }, "location": "/works/OL45804W" }"#;
    let second = match first.step(Ok(parse(merged))) {
        WorkStep::Fetch(next) => next,
        other => panic!("expected another request, got {other:?}"),
    };
    assert_eq!(second.request().request.path, "/works/OL45804W.json");
    // A second redirect is not followed.
    assert!(matches!(second.step(Ok(parse(merged))), WorkStep::Missing));

    let nowhere = r#"{ "type": { "key": "/type/redirect" }, "location": "/works/OL1M" }"#;
    assert!(matches!(client().work_text("OL1W").step(Ok(parse(nowhere))), WorkStep::Missing));
    let placeless = r#"{ "type": { "key": "/type/redirect" } }"#;
    assert!(matches!(client().work_text("OL1W").step(Ok(parse(placeless))), WorkStep::Missing));
}

#[test]
fn a_work_lookup_tells_missing_from_failed() {
    assert!(matches!(
        client().work_text("OL1W").step(Err(GatewayError::NotFound)),
        WorkStep::Missing
    ));
    match client().work_text("OL1W").step(Err(GatewayError::RateLimited { retry_after_s: 9 })) {
        WorkStep::Failed(GatewayError::RateLimited { retry_after_s }) => assert_eq!(retry_after_s, 9),
        other => panic!("expected the failure, got {other:?}"),
    }
    let work = r#"{ "type": { "key": "/type/work" }, "description": " A novel. " }"#;
    match client().work_text("OL1W").step(Ok(parse(work))) {
        WorkStep::Found { id, work } => {
            assert_eq!(id, "OL1W");
            let text = work_text_of(id, &work);
            assert_eq!(text.id, "OL1W");
            assert_eq!(text.description.as_deref(), Some("A novel."));
        }
        other => panic!("expected the work, got {other:?}"),
    }
    assert_eq!(work_text_of("OL1W".to_string(), &parse("{}")).description, None);
}

#[test]
fn a_document_lookup_reports_a_failed_index() {
    let first = client().doc_by_work_id("OL1W");
    let r = first.request();
    assert_eq!(r.key, "openlibrary:key:OL1W");
    assert_eq!(r.ttl_secs, 30 * DAY);
    assert_eq!(r.request.params, pairs(&[("q", "key:/works/OL1W"), ("fields", FIELDS), ("limit", "1")]));
    assert!(matches!(first.step(Err(GatewayError::NotFound)), DocStep::Failed(GatewayError::NotFound)));
}

#[test]
fn a_document_of_another_work_is_not_taken() {
    let other = parse(r#"{ "docs": [{ "key": "/works/OL2W" }, { "key": "/works/OL1M" }] }"#);
    match client().doc_by_work_id("OL1W").step(Ok(other)) {
        DocStep::Fetch(next) => assert_eq!(next.request().request.path, "/works/OL1W.json"),
        other => panic!("expected the work, got {other:?}"),
    }
    let own = parse(r#"{ "docs": [{ "key": "/works/OL2W" }, { "key": "/works/OL1W", "title": "x" }] }"#);
    match client().doc_by_work_id("OL1W").step(Ok(own)) {
        DocStep::Done(Some(doc)) => assert_eq!(doc.title.as_deref(), Some("x")),
        other => panic!("expected the document, got {other:?}"),
    }
}

#[test]
fn at_most_four_authors_are_asked_for_and_failures_leave_one_out() {
    let empty = || Ok(parse(r#"{ "docs": [] }"#));
    let work = parse(
        r#"{ "title": "T", "covers": ["x", 0, -1, 7, 8], "authors": [
            { "author": { "key": "/authors/OL1A" } },
            { "author": { "key": "OL2A" } },
            { "author": 3 },
            7,
            { "author": { "key": "/authors/OL3A" } },
            { "author": { "key": "/authors/OL4A" } },
            { "author": { "key": "/authors/OL5A" } },
            { "author": { "key": "/authors/OL6A" } }
        ] }"#,
    );
    let mut lookup: DocLookup = match client().doc_by_work_id("OL1W").step(empty()) {
        DocStep::Fetch(next) => next,
        other => panic!("expected the work, got {other:?}"),
    };
    lookup = match lookup.step(Ok(work)) {
        DocStep::Fetch(next) => next,
        other => panic!("expected an author, got {other:?}"),
    };
    let mut asked = Vec::new();
    let mut replies = vec![
        Ok(parse(r#"{ "name": "  First " }"#)),
        Err(GatewayError::NotFound),
        Err(GatewayError::Transient("x".to_string())),
        Ok(parse(r#"{ "name": " " }"#)),
    ]
    .into_iter();
    let doc = loop {
        let r = lookup.request();
        asked.push(r.request.path.clone());
        assert_eq!(r.ttl_secs, 30 * DAY);
        match lookup.step(replies.next().expect("no more than four")) {
            DocStep::Fetch(next) => lookup = next,
            DocStep::Done(doc) => break doc.expect("a document"),
            DocStep::Failed(e) => panic!("an author must not fail the lookup: {e:?}"),
        }
    };
    assert_eq!(
        asked,
        vec!["/authors/OL1A.json", "/authors/OL3A.json", "/authors/OL4A.json", "/authors/OL5A.json"]
    );
    assert_eq!(doc.key, "/works/OL1W");
    assert_eq!(doc.title.as_deref(), Some("T"));
    assert_eq!(doc.author_name, vec!["First"]);
    assert_eq!(doc.cover_i, Some(7));
    assert_eq!(doc.first_publish_year, None);
    assert!(doc.id_project_gutenberg.is_empty());
    assert_eq!(author_name(&parse(r#"{ "name": 3 }"#)), None);
}

#[test]
fn a_document_lookup_ends_where_there_is_no_work() {
    let empty = || Ok(parse(r#"{ "docs": [] }"#));
    let second = || match client().doc_by_work_id("OL1W").step(empty()) {
        DocStep::Fetch(next) => next,
        other => panic!("expected the work, got {other:?}"),
    };
    assert!(matches!(second().step(Err(GatewayError::NotFound)), DocStep::Done(None)));
    assert!(matches!(
        second().step(Err(GatewayError::Transient("x".to_string()))),
        DocStep::Failed(GatewayError::Transient(_))
    ));
    // A merged work is a document of the id that it is kept under.
    let merged = r#"{ "type": { "key": "/type/redirect" }, "location": "/works/OL2W" }"#;
    let third = match second().step(Ok(parse(merged))) {
        DocStep::Fetch(next) => next,
        other => panic!("expected the new place, got {other:?}"),
    };
    match third.step(Ok(parse(r#"{ "title": "T" }"#))) {
        DocStep::Done(Some(doc)) => assert_eq!(doc.work_id(), Some("OL2W")),
        other => panic!("expected the document, got {other:?}"),
    }
}

// -- Kept answers ------------------------------------------------------------------

#[test]
fn an_answer_serves_until_it_is_too_old() {
    assert!(is_fresh(100, 100, 0));
    assert!(is_fresh(100, 90, 10));
    assert!(!is_fresh(101, 90, 10));
    assert!(is_fresh(5, 90, 0), "an answer from the future is good");
    assert!(!is_fresh(u64::MAX, 0, u64::MAX - 1));
    let kept = |at: u64| Some(Cached { at, body: parse(r#"{ "x": 1 }"#) });
    assert!(serve_cached(None, 0, 10).is_none());
    assert!(serve_cached(kept(0), 11, 10).is_none());
    let body = serve_cached(kept(0), 10, 10).expect("still good");
    assert_eq!(body.get("x").and_then(Json::as_u64), Some(1));
}

/// A cached miss is not asked again inside its window, and a failure is never kept.
#[test]
fn binding_lookups_cache_answers_but_never_failures() {
    let none = binding_answer(Ok(parse(r#"{ "numFound": 0, "docs": [] }"#)), 84);
    assert!(matches!(none, Ok(None)));
    let kept = Cached { at: 0, body: binding_to_keep(&none).expect("an answer is kept") };
    assert_eq!(cached_binding(Some(&kept), 7 * DAY), Some(None));
    assert_eq!(cached_binding(Some(&kept), 7 * DAY + 1), None);

    let failure = Err(GatewayError::Transient("503".to_string()));
    assert!(to_keep(&failure).is_none());
    let failed = binding_answer(failure, 11);
    assert!(failed.is_err());
    assert!(binding_to_keep(&failed).is_none(), "so it is asked again");
    assert!(to_keep(&Ok(parse("{}"))).is_some());
}

#[test]
fn a_kept_link_reads_back() {
    let body = r#"{ "numFound": 1, "docs": [{ "key": "/works/OL1W", "id_project_gutenberg": ["11"] }] }"#;
    let work = binding_answer(Ok(parse(body)), 11).unwrap();
    assert_eq!(work.as_deref(), Some("OL1W"));
    let kept = Cached { at: 50, body: binding_body(work.as_deref()) };
    let found = binding_to_keep(&Ok(work)).expect("a link is kept");
    assert_eq!(found.get("work").and_then(Json::as_str), Some("OL1W"));
    assert_eq!(cached_binding(Some(&kept), 50 + 30 * DAY), Some(Some("OL1W".to_string())));
    assert_eq!(cached_binding(Some(&kept), 51 + 30 * DAY), None);
    assert_eq!(cached_binding(None, 0), None);
}

// -- Sending -----------------------------------------------------------------------

fn path() -> Target {
    Target::OpenLibrary { path: "/search.json".to_string() }
}

fn sends(attempts: usize, answered_at: usize) -> usize {
    let mut sending = Sending::first(attempts);
    loop {
        let n = sending.number();
        let event = if n == answered_at {
            SendEvent::Response(Ok(()))
        } else {
            SendEvent::NoResponse("reset".to_string())
        };
        match sending.step(&path(), event) {
            SendStep::Again(next) => sending = next,
            SendStep::Receive => {
                assert_eq!(n, answered_at);
                return n;
            }
            SendStep::Failed(_) => {
                assert!(answered_at > attempts);
                return n;
            }
        }
    }
}

#[test]
fn a_request_is_sent_until_it_is_answered() {
    assert_eq!(sends(3, 1), 1);
    assert_eq!(sends(3, 2), 2);
    assert_eq!(sends(3, 9), 3);
    assert_eq!(sends(1, 9), 1);
}

#[test]
fn failures_say_what_was_asked() {
    let message = |e: GatewayError| match e {
        GatewayError::Transient(m) => m,
        other => panic!("expected a transient error, got {other:?}"),
    };
    assert_eq!(
        message(Sending::to_openlibrary(false).unwrap_err()),
        "openlibrary: rate budget deadline exceeded"
    );
    let last = |target: Target, attempts: usize| {
        let mut sending = Sending::first(attempts);
        loop {
            match sending.step(&target, SendEvent::NoResponse("reset".to_string())) {
                SendStep::Again(next) => sending = next,
                SendStep::Failed(e) => return e,
                SendStep::Receive => panic!("there is nothing to receive"),
            }
        }
    };
    assert_eq!(message(last(path(), 2)), "openlibrary: GET /search.json: reset");
    assert_eq!(
        message(last(Target::Gutendex { url: "http://x/".to_string() }, 3)),
        "GET http://x/: reset (after 3 attempts)"
    );
    assert_eq!(
        message(reply_of("/p", None).unwrap_err()),
        "openlibrary: bad json from /p: error decoding response body"
    );
    assert_eq!(
        message(read_reply("/p", b"<html>").unwrap_err()),
        "openlibrary: bad json from /p: error decoding response body"
    );
    assert_eq!(read_reply("/p", b"[7]").unwrap().as_array().map(|a| a.len()), Some(1));
}

#[test]
fn a_call_of_open_library_is_sent_twice_at_most() {
    let first = Sending::to_openlibrary(true).expect("a lease");
    assert_eq!(first.number(), 1);
    let second = match first.step(&path(), SendEvent::NoResponse("reset".to_string())) {
        SendStep::Again(next) => next,
        other => panic!("expected another send, got {other:?}"),
    };
    assert_eq!(second.number(), 2);
    assert!(matches!(
        second.step(&path(), SendEvent::NoResponse("reset".to_string())),
        SendStep::Failed(GatewayError::Transient(_))
    ));
}

#[test]
fn a_response_is_final_whatever_its_status() {
    let refused = |e: GatewayError| {
        match Sending::first(3).step(&path(), SendEvent::Response(Err(e))) {
            SendStep::Failed(e) => e,
            other => panic!("expected the failure, got {other:?}"),
        }
    };
    assert!(matches!(refused(GatewayError::NotFound), GatewayError::NotFound));
    assert!(matches!(
        refused(GatewayError::RateLimited { retry_after_s: 90 }),
        GatewayError::RateLimited { retry_after_s: 90 }
    ));
}

#[test]
fn only_a_rate_limit_freezes_the_budget() {
    assert_eq!(freeze_secs(&GatewayError::RateLimited { retry_after_s: 30 }), Some(30));
    assert_eq!(freeze_secs(&GatewayError::NotFound), None);
    assert_eq!(freeze_secs(&GatewayError::Transient("x".to_string())), None);
    assert_eq!(freeze_secs(&GatewayError::Permanent("x".to_string())), None);
}

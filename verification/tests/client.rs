use book_feeder::contact::{config_json, contact_in_config};
use book_feeder::json::{self, Json};
use book_feeder::openlibrary_client::{
    budget, clean_description, contact_dirs, contact_field, env_contact, is_work_id, load_contact, parse_docs,
    sanitize_contact, single_gutenberg_work, text_value, user_agent, work_in_path,
    ContactDir, OpenLibraryClient, SearchDoc, CONTACT_ENV, CONTACT_KEY, DEFAULT_API_BASE,
};

fn parse(s: &str) -> Json {
    json::parse(s.as_bytes()).expect("test JSON")
}

#[test]
fn work_ids_are_works_only() {
    assert!(is_work_id("OL66554W"));
    assert!(!is_work_id("OL12710531M"), "an edition key is not a work");
    assert!(!is_work_id("OL21594A"), "an author key is not a work");
    assert!(!is_work_id("OLW"));
    assert!(!is_work_id("/works/OL66554W"));
}

#[test]
fn work_ids_have_digits_between_their_letters() {
    assert!(is_work_id("OL1W"));
    assert!(!is_work_id(""));
    assert!(!is_work_id("OL"));
    assert!(!is_work_id("OL1"));
    assert!(!is_work_id("OL1w"));
    assert!(!is_work_id("ol1W"));
    assert!(!is_work_id("OL1x2W"));
    assert!(!is_work_id("OL1\u{662}W"), "only ASCII digits count");
    assert!(!is_work_id(" OL1W"));
    assert_eq!(work_in_path("/works/OL1W"), Some("OL1W"));
    assert_eq!(work_in_path("/works/OL1M"), None);
    assert_eq!(work_in_path("OL1W"), None);
}

#[test]
fn description_reads_both_live_shapes() {
    let plain = parse(r#"{ "description": "A novel." }"#);
    let typed = parse(r#"{ "description": { "type": "/type/text", "value": "A novel." } }"#);
    assert_eq!(text_value(plain.get("description")).as_deref(), Some("A novel."));
    assert_eq!(text_value(typed.get("description")).as_deref(), Some("A novel."));
    assert_eq!(text_value(parse(r#"{ "description": 3 }"#).get("description")), None);
}

#[test]
fn a_description_of_another_shape_is_none() {
    assert_eq!(text_value(None), None);
    let odd = parse(r#"{ "description": { "value": 7 }, "list": ["x"], "nothing": null }"#);
    assert_eq!(text_value(odd.get("description")), None);
    assert_eq!(text_value(odd.get("list")), None);
    assert_eq!(text_value(odd.get("nothing")), None);
    assert_eq!(text_value(odd.get("absent")), None);
}

#[test]
fn description_drops_the_link_list_after_the_rule() {
    let raw = "First para.\r\n\r\nSecond para.\r\n\r\n----------\r\nAlso contained in:\r\n[x](/works/OL1W)";
    assert_eq!(
        clean_description(raw).as_deref(),
        Some("First para.\n\nSecond para.")
    );
    assert_eq!(clean_description("  \r\n "), None);
}

#[test]
fn a_synopsis_has_unix_lines_and_no_rule() {
    assert_eq!(clean_description("a\rb\r\nc\n"), Some("a\nb\nc".to_string()));
    assert_eq!(clean_description("\r\n----\r\nx"), None);
    assert_eq!(clean_description("----\nx"), Some("----\nx".to_string()));
    assert_eq!(clean_description("a ---- b"), Some("a ---- b".to_string()));
    assert_eq!(clean_description("a\n---\nb"), Some("a\n---\nb".to_string()));
    assert_eq!(clean_description("\r\r\n\n x \r"), Some("x".to_string()));
}

#[test]
fn cover_minus_one_is_no_cover() {
    let mut d = SearchDoc {
        key: "/works/OL66554W".into(),
        cover_i: Some(-1),
        ..Default::default()
    };
    assert_eq!(d.cover_url(), None);
    d.cover_i = Some(14348537);
    assert_eq!(
        d.cover_url().as_deref(),
        Some("https://covers.openlibrary.org/b/id/14348537-L.jpg")
    );
    d.cover_i = Some(0);
    assert_eq!(d.cover_url(), None);
    d.cover_i = None;
    assert_eq!(d.cover_url(), None);
    d.cover_i = Some(i64::MAX);
    assert_eq!(
        d.cover_url().as_deref(),
        Some("https://covers.openlibrary.org/b/id/9223372036854775807-L.jpg")
    );
}

#[test]
fn a_binding_needs_exactly_one_work_that_lists_the_etext() {
    let one = parse(
        r#"{ "numFound": 1, "docs": [
            { "key": "/works/OL66554W", "id_project_gutenberg": ["1342", "42671"] }
        ]}"#,
    );
    assert_eq!(single_gutenberg_work(&one, 1342).as_deref(), Some("OL66554W"));

    let none = parse(r#"{ "numFound": 0, "docs": [] }"#);
    assert_eq!(single_gutenberg_work(&none, 84), None);

    // `limit=2` returned two docs: an unmerged duplicate, not a binding.
    let two = parse(
        r#"{ "numFound": 2, "docs": [
            { "key": "/works/OL1W", "id_project_gutenberg": ["11"] },
            { "key": "/works/OL2W", "id_project_gutenberg": ["11"] }
        ]}"#,
    );
    assert_eq!(single_gutenberg_work(&two, 11), None);

    // More found than returned also counts as ambiguous.
    let more = parse(
        r#"{ "numFound": 3, "docs": [
            { "key": "/works/OL1W", "id_project_gutenberg": ["11"] }
        ]}"#,
    );
    assert_eq!(single_gutenberg_work(&more, 11), None);

    // A doc that does not list the etext itself proves nothing.
    let unlisted = parse(
        r#"{ "numFound": 1, "docs": [
            { "key": "/works/OL1W", "id_project_gutenberg": ["999"] }
        ]}"#,
    );
    assert_eq!(single_gutenberg_work(&unlisted, 11), None);

    // An edition key is never bound as a work.
    let edition = parse(
        r#"{ "numFound": 1, "docs": [
            { "key": "/works/OL12710531M", "id_project_gutenberg": ["11"] }
        ]}"#,
    );
    assert_eq!(single_gutenberg_work(&edition, 11), None);
}

#[test]
fn a_binding_counts_works_as_the_answer_does() {
    // Without a count, the listed works are counted.
    let uncounted = parse(r#"{ "docs": [{ "key": "/works/OL1W", "id_project_gutenberg": [" 11 "] }]}"#);
    assert_eq!(single_gutenberg_work(&uncounted, 11).as_deref(), Some("OL1W"));
    let older = parse(
        r#"{ "num_found": 2, "docs": [{ "key": "/works/OL1W", "id_project_gutenberg": ["11"] }]}"#,
    );
    assert_eq!(single_gutenberg_work(&older, 11), None);
    // `numFound` goes before `num_found`, also where it is no number.
    let both = parse(
        r#"{ "numFound": null, "num_found": 2,
             "docs": [{ "key": "/works/OL1W", "id_project_gutenberg": ["11"] }]}"#,
    );
    assert_eq!(single_gutenberg_work(&both, 11).as_deref(), Some("OL1W"));
    let nothing = parse("[]");
    assert_eq!(single_gutenberg_work(&nothing, 11), None);
}

#[test]
fn documents_are_read_field_by_field() {
    let body = parse(
        r#"{ "docs": [
            { "key": "/works/OL1W", "title": "A", "author_name": ["X", "Y"], "cover_i": 5,
              "first_publish_year": 1813, "id_project_gutenberg": ["7"], "language": ["eng"] },
            {},
            { "title": null, "cover_i": null, "first_publish_year": null },
            { "title": 3 },
            { "key": null },
            { "author_name": null },
            { "author_name": ["X", 1] },
            { "first_publish_year": 2147483648 },
            { "first_publish_year": -2147483648 },
            { "cover_i": 1.5 },
            { "cover_i": 9223372036854775808 },
            "text",
            7,
            ["/works/OL2W", "B"],
            ["/works/OL2W", "B", [], 1, 2, [], 3]
        ]}"#,
    );
    let docs = parse_docs(body.get("docs"));
    assert_eq!(docs.len(), 5);
    assert_eq!(docs[0].key, "/works/OL1W");
    assert_eq!(docs[0].title.as_deref(), Some("A"));
    assert_eq!(docs[0].author_name, vec!["X", "Y"]);
    assert_eq!(docs[0].cover_i, Some(5));
    assert_eq!(docs[0].first_publish_year, Some(1813));
    assert_eq!(docs[0].id_project_gutenberg, vec!["7"]);
    assert_eq!(docs[0].work_id(), Some("OL1W"));
    for d in &docs[1..3] {
        assert_eq!(d.key, "");
        assert_eq!(d.title, None);
        assert!(d.author_name.is_empty());
        assert_eq!(d.cover_i, None);
        assert_eq!(d.first_publish_year, None);
        assert!(d.id_project_gutenberg.is_empty());
        assert_eq!(d.work_id(), None);
    }
    assert_eq!(docs[3].first_publish_year, Some(i32::MIN));
    assert_eq!(docs[4].key, "/works/OL2W");
    assert_eq!(docs[4].title.as_deref(), Some("B"));

    assert!(parse_docs(None).is_empty());
    assert!(parse_docs(Some(&parse("{}"))).is_empty());
}

#[test]
fn contact_is_made_header_safe() {
    assert_eq!(
        sanitize_contact(" ops@example.org\r\n(x) ").as_deref(),
        Some("ops@example.orgx")
    );
    assert_eq!(sanitize_contact("\n"), None);
    assert!(user_agent(Some("ops@example.org")).ends_with("; ops@example.org)"));
    let c = OpenLibraryClient::new(None, Some("a@b.c"));
    assert!(c.user_agent.ends_with("; a@b.c)"));
}

#[test]
fn a_contact_is_short_and_is_sent_again_as_it_is() {
    let long = "x".repeat(300);
    let sent = sanitize_contact(&long).expect("a contact");
    assert_eq!(sent.len(), 128);
    // The characters are counted before the ends are trimmed.
    let padded = format!("{}{}", " ".repeat(100), "y".repeat(100));
    assert_eq!(sanitize_contact(&padded), Some("y".repeat(28)));
    for raw in ["a b", "caf\u{e9}\t@x", "((()))", "~!", "\u{7f}"] {
        if let Some(c) = sanitize_contact(raw) {
            assert_eq!(sanitize_contact(&c), Some(c.clone()));
            assert!(c.chars().all(|c| (c.is_ascii_graphic() || c == ' ') && c != '(' && c != ')'));
        }
    }
    assert_eq!(sanitize_contact("caf\u{e9}\t@x").as_deref(), Some("caf@x"));
    assert_eq!(sanitize_contact("((()))"), None);
    assert_eq!(sanitize_contact("\u{7f}"), None);
}

#[test]
fn the_user_agent_closes_its_comment_once() {
    let anonymous = user_agent(None);
    assert_eq!(
        anonymous,
        "meta-feeder-book/0.1.0 (gateway:openlibrary; +https://github.com/worph/meta-feeder-book)"
    );
    let c = sanitize_contact("ops (at) example.org").expect("a contact");
    let named = user_agent(Some(&c));
    assert_eq!(
        named,
        "meta-feeder-book/0.1.0 (gateway:openlibrary; +https://github.com/worph/meta-feeder-book; ops at example.org)"
    );
    assert_eq!(named.matches('(').count(), 1);
    assert_eq!(named.matches(')').count(), 1);
}

/// What is saved on the configuration page of one upstream is read by both.
#[test]
fn a_dashboard_saved_contact_is_found_from_either_plugin_dir() {
    let saved = Some(br#"{"contact":"ops@example.org"}"#.to_vec());
    let read = |own: &str| -> Vec<Option<Vec<u8>>> {
        contact_dirs(true)
            .into_iter()
            .map(|dir| match dir {
                ContactDir::Own => own,
                ContactDir::Beside { id } => id,
            })
            .map(|dir| if dir == "gutenberg" { saved.clone() } else { None })
            .collect()
    };
    assert_eq!(load_contact(&read("openlibrary"), None).as_deref(), Some("ops@example.org"));
    assert_eq!(load_contact(&read("gutenberg"), None).as_deref(), Some("ops@example.org"));
}

#[test]
fn a_contact_is_looked_for_in_order() {
    let names = |has_parent: bool| -> Vec<&'static str> {
        contact_dirs(has_parent)
            .into_iter()
            .map(|dir| match dir {
                ContactDir::Own => "own",
                ContactDir::Beside { id } => id,
            })
            .collect()
    };
    assert_eq!(names(true), vec!["own", "gutenberg", "openlibrary"]);
    assert_eq!(names(false), vec!["own"]);
}

#[test]
fn a_saved_contact_wins_over_the_environment() {
    let files = vec![
        None,
        Some(b"no json".to_vec()),
        Some(br#"{"contact":7}"#.to_vec()),
        Some(br#"{"contact":" \n "}"#.to_vec()),
        Some(br#"["contact"]"#.to_vec()),
        Some(br#"{"contact":"first"}"#.to_vec()),
        Some(br#"{"contact":"second"}"#.to_vec()),
    ];
    assert_eq!(load_contact(&files, Some("env")).as_deref(), Some("first"));
    assert_eq!(load_contact(&files[..5].to_vec(), Some("env")).as_deref(), Some("env"));
    assert_eq!(load_contact(&Vec::new(), Some("(\n)")), None);
    assert_eq!(load_contact(&Vec::new(), None), None);
    assert_eq!(env_contact(Some(" a ")).as_deref(), Some("a"));
    assert_eq!(env_contact(None), None);
    assert_eq!(CONTACT_ENV, "OPENLIBRARY_CONTACT");
}

#[test]
fn a_contact_is_saved_as_it_is_read() {
    let saved = config_json(Some("ops@example.org"));
    assert_eq!(contact_in_config(&saved).as_deref(), Some("ops@example.org"));
    assert_eq!(contact_in_config(&config_json(None)), None);
}

#[test]
fn the_contact_is_a_configuration_field() {
    let f = contact_field();
    assert_eq!(f.key, CONTACT_KEY);
    assert_eq!(f.key, "contact");
    assert_eq!(f.label, "Open Library contact");
    assert_eq!(
        f.help,
        "An e-mail address or URL sent in the User-Agent of every Open Library request \
         (the openlibrary cards and the gutenberg → Open Library binding). Open Library \
         asks API clients to identify themselves; an identified client gets a larger \
         request budget."
    );
}

#[test]
fn an_identified_client_gets_a_larger_budget() {
    let anonymous = budget(false);
    let identified = budget(true);
    assert_eq!((anonymous.per_second, anonymous.burst), (1, 3));
    assert_eq!((identified.per_second, identified.burst), (3, 6));
}

#[test]
fn the_client_asks_the_public_api_unless_told_otherwise() {
    let public = OpenLibraryClient::new(None, None);
    assert_eq!(public.api_base, DEFAULT_API_BASE);
    assert_eq!(public.url("/search.json"), "https://openlibrary.org/search.json");
    let other = OpenLibraryClient::new(Some("http://127.0.0.1:9//".to_string()), None);
    assert_eq!(other.url("/search.json"), "http://127.0.0.1:9/search.json");
}

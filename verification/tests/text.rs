use book_feeder::json::{self, Json};
use book_feeder::language::{iso639_1_to_2, language_codes};
use book_feeder::table::{put, put_members, Table};
use book_feeder::text;

#[test]
fn white_space_is_that_of_the_standard_library() {
    for n in 0..=0x10FFFF_u32 {
        if let Some(c) = char::from_u32(n) {
            assert_eq!(text::is_whitespace(c), c.is_whitespace(), "{n:x}");
        }
    }
}

#[test]
fn trimming_takes_the_ends_only() {
    for s in ["", " ", "a", " a b ", "\u{3000}x\u{85}", "\t\r\n", "x\u{200b}"] {
        assert_eq!(text::trim(s), s.trim());
        assert_eq!(text::trim(text::trim(s)), text::trim(s));
    }
    assert_eq!(text::trim_end_matches("a//b//", '/'), "a//b");
    assert_eq!(text::trim_end_matches("///", '/'), "");
    assert_eq!(text::trim_end_matches("", '/'), "");
}

#[test]
fn words_are_split_and_joined() {
    for s in ["", "  ", "a", " a  b\u{a0}c ", "x\ny"] {
        let expected: Vec<&str> = s.split_whitespace().collect();
        assert_eq!(text::split_words(s), expected);
        let spaced = text::join(&text::split_words(s), " ");
        assert_eq!(spaced, expected.join(" "));
        assert_eq!(text::split_words(&spaced), expected);
    }
    assert_eq!(text::join(&["a".to_string(), "".to_string()], ", "), "a, ");
}

#[test]
fn searching_and_replacing_agree_with_the_standard_library() {
    let cases = [("aaa", "aa"), ("", "x"), ("abcabc", "c"), ("&amp;lt;", "&amp;"), ("ab", "abc")];
    for (s, part) in cases {
        assert_eq!(text::contains(s, part), s.contains(part));
        assert_eq!(text::starts_with(s, part), s.starts_with(part));
        assert_eq!(text::strip_prefix(s, part), s.strip_prefix(part));
        let from: Vec<char> = part.chars().collect();
        let to: Vec<char> = "-+".chars().collect();
        let chars: Vec<char> = s.chars().collect();
        let replaced: String = text::replace(&chars, &from, &to).into_iter().collect();
        assert_eq!(replaced, s.replace(part, "-+"));
    }
    assert!(text::contains("x", ""));
    assert!(text::starts_with("x", ""));
}

#[test]
fn numbers_are_written_and_read() {
    for n in [0, 9, 10, 1342, u64::MAX] {
        assert_eq!(text::decimal_of(n), n.to_string());
    }
    assert_eq!(text::zero_pad("7".to_string(), 4), "0007");
    assert_eq!(text::zero_pad("12345".to_string(), 4), "12345");
    for s in ["", "+", "0", "007", "+12", "-1", "1 ", "1_000", "\u{661}", "18446744073709551615",
        "18446744073709551616", "99999999999999999999999"] {
        assert_eq!(text::parse_usize(s), s.parse::<usize>().ok(), "{s}");
    }
}

#[test]
fn case_is_ignored_for_ascii_letters_only() {
    for (a, b) in [("true", "TRUE"), ("tRue", "true"), ("\u{c9}", "\u{e9}"), ("a", "ab"), ("", ""),
        ("[", "{"), ("@", "`")] {
        assert_eq!(text::eq_ignore_ascii_case(a, b), a.eq_ignore_ascii_case(b), "{a} {b}");
    }
}

#[test]
fn a_table_has_one_value_per_key() {
    let mut t: Table<String> = Table::new();
    assert_eq!(t.len(), 0);
    put(&mut t, "a", "1");
    put(&mut t, "b", "2");
    put(&mut t, "a", "3");
    assert_eq!(t.len(), 2);
    assert_eq!(t.get("a").map(String::as_str), Some("3"));
    assert_eq!(t.get("b").map(String::as_str), Some("2"));
    assert_eq!(t.get("c"), None);
    assert!(t.contains_key("a"));
    assert_eq!(t.entry(0).0, "a");
    put_members(&mut t, "set/", &vec!["x".to_string(), "y".to_string(), "x".to_string()]);
    assert_eq!(t.len(), 4);
    assert_eq!(t.get("set/x").map(String::as_str), Some("true"));

    let mut other: Table<String> = Table::new();
    put(&mut other, "a", "late");
    put(&mut other, "z", "new");
    t.fill_from(other);
    assert_eq!(t.len(), 5);
    assert_eq!(t.get("a").map(String::as_str), Some("3"), "what is there stays");
    assert_eq!(t.get("z").map(String::as_str), Some("new"));
}

#[test]
fn json_is_read_as_it_is_written() {
    let v = json::parse(br#"{"a":[null,true,-3,18446744073709551615,1.5,"x\n"],"b":{"c":"d"}}"#)
        .expect("JSON");
    let items = v.get("a").and_then(Json::as_array).expect("an array");
    assert!(matches!(items[0], Json::Null));
    assert!(matches!(items[1], Json::Bool(true)));
    assert_eq!((items[2].as_i64(), items[2].as_u64()), (Some(-3), None));
    assert_eq!((items[3].as_i64(), items[3].as_u64()), (None, Some(u64::MAX)));
    assert_eq!((items[4].as_i64(), items[4].as_u64()), (None, None));
    assert_eq!(items[5].as_str(), Some("x\n"));
    assert_eq!(v.get("b").and_then(|b| json::text_member(b, "c")), Some("d"));
    assert!(v.get("c").is_none());
    assert!(items[5].get("a").is_none());
    assert!(items[5].as_array().is_none());

    let err = json::parse(b"{").expect_err("no JSON");
    let expected = serde_json::from_slice::<serde_json::Value>(b"{").expect_err("no JSON");
    assert_eq!(err, expected.to_string());

    let value = serde_json::from_slice::<serde_json::Value>(b"[1]").expect("JSON");
    let list = json::of_value(value);
    assert_eq!(list.as_array().map(|a| a.len()), Some(1));
}

#[test]
fn languages_have_three_letters() {
    let pairs = [
        ("en", "eng"), ("fr", "fra"), ("de", "deu"), ("es", "spa"), ("it", "ita"), ("pt", "por"),
        ("nl", "nld"), ("la", "lat"), ("el", "ell"), ("ru", "rus"), ("fi", "fin"), ("sv", "swe"),
        ("da", "dan"), ("no", "nor"), ("pl", "pol"), ("cs", "ces"), ("hu", "hun"), ("ja", "jpn"),
        ("zh", "zho"), ("ar", "ara"), ("ko", "kor"), ("tr", "tur"), ("ro", "ron"), ("ca", "cat"),
        ("is", "isl"),
    ];
    for (two, three) in pairs {
        assert_eq!(iso639_1_to_2(two), three);
        assert_eq!(iso639_1_to_2(three), three);
    }
    for other in ["", "tl", "eo", "EN", "eng"] {
        assert_eq!(iso639_1_to_2(other), other);
    }
    let codes = vec!["en".to_string(), "tl".to_string()];
    assert_eq!(language_codes(&codes), vec!["eng", "tl"]);
}

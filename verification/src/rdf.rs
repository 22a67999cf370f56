//! Project Gutenberg's `pg{id}.rdf` documents: the per-edition metadata that the
//! Gutendex API does not carry.
use crate::table::{put_opt, Table};
use crate::text;
use vstd::prelude::*;

verus! {

// ---------------------------------------------------------------------------
// Model
// ---------------------------------------------------------------------------
/// `s` with the five XML entities read, `&amp;` first.
pub open spec fn unescaped(s: Seq<char>) -> Seq<char> {
    let s = text::replaced(s, "&amp;"@, "&"@);
    let s = text::replaced(s, "&lt;"@, "<"@);
    let s = text::replaced(s, "&gt;"@, ">"@);
    let s = text::replaced(s, "&quot;"@, "\""@);
    text::replaced(s, "&apos;"@, "'"@)
}

/// An element `tag` opens in `xml` at index `i`: `<tag` stands there, and the name ends
/// with it.
pub open spec fn opens_at(xml: Seq<char>, tag: Seq<char>, i: int) -> bool {
    let end = i + 1 + tag.len();
    text::occurs_at(xml, "<"@ + tag, i) && end < xml.len() && (xml[end] == '>' || xml[end] == '/'
        || text::is_space(xml[end]))
}

/// The first index, from `from` on, at which an element `tag` opens in `xml`.
pub open spec fn opening_from(xml: Seq<char>, tag: Seq<char>, from: int) -> Option<int>
    decreases xml.len() - from,
{
    if from < 0 || from >= xml.len() {
        None
    } else if opens_at(xml, tag, from) {
        Some(from)
    } else {
        opening_from(xml, tag, from + 1)
    }
}

/// Where the body of the first element `tag` begins and ends in `xml`: after the
/// first `>` behind the element's name, up to the next `</tag>`.
pub open spec fn body_range(xml: Seq<char>, tag: Seq<char>) -> Option<(int, int)> {
    let close = "</"@ + tag + ">"@;
    match opening_from(xml, tag, 0) {
        None => None,
        Some(o) => match text::position_from(xml, ">"@, o + 1 + tag.len()) {
            None => None,
            Some(g) => match text::position_from(xml, close, g + 1) {
                None => None,
                Some(c) => Some((g + 1, c)),
            },
        },
    }
}

/// The text of the first element `tag`: unescaped, trimmed, and not empty.
pub open spec fn tag_text(xml: Seq<char>, tag: Seq<char>) -> Option<Seq<char>> {
    match body_range(xml, tag) {
        None => None,
        Some((b, e)) => {
            let t = text::trimmed(unescaped(xml.subrange(b, e)));
            if t.len() == 0 {
                None
            } else {
                Some(t)
            }
        },
    }
}

/// Where the attributes of the first `<tag ` begin and end in `xml`.
pub open spec fn attribute_range(xml: Seq<char>, tag: Seq<char>) -> Option<(int, int)> {
    let open = "<"@ + tag + " "@;
    match text::position(xml, open) {
        None => None,
        Some(o) => match text::position_from(xml, ">"@, o + open.len()) {
            None => None,
            Some(g) => Some((o + open.len(), g)),
        },
    }
}

/// The value that the first `rdf:resource="..."` in `attributes` names.
pub open spec fn resource_in(attributes: Seq<char>) -> Option<Seq<char>> {
    let needle = "rdf:resource=\""@;
    match text::position(attributes, needle) {
        None => None,
        Some(a) => match text::position_from(attributes, "\""@, a + needle.len()) {
            None => None,
            Some(q) => Some(attributes.subrange(a + needle.len(), q)),
        },
    }
}

/// The resource that the first `<tag ` names.
pub open spec fn resource(xml: Seq<char>, tag: Seq<char>) -> Option<Seq<char>> {
    match attribute_range(xml, tag) {
        None => None,
        Some((b, e)) => resource_in(xml.subrange(b, e)),
    }
}

/// Whether `word` is a link into Wikipedia.
pub open spec fn is_wikipedia_link(word: Seq<char>) -> bool {
    text::has_part(word, "wikipedia.org"@) && text::has_prefix(word, "http"@)
}

/// The first of `words` that is a link into Wikipedia.
pub open spec fn first_link(words: Seq<Seq<char>>) -> Option<Seq<char>>
    decreases words.len(),
{
    if words.len() == 0 {
        None
    } else if is_wikipedia_link(words[0]) {
        Some(words[0])
    } else {
        first_link(words.skip(1))
    }
}

/// The link into Wikipedia in a description.
pub open spec fn description_link(description: Option<Seq<char>>) -> Option<Seq<char>> {
    match description {
        Some(d) => first_link(text::words(d)),
        None => None,
    }
}

/// The fields that an RDF document gives.
pub open spec fn rdf_fields(xml: Seq<char>) -> Map<Seq<char>, Seq<char>> {
    let description = tag_text(xml, "dcterms:description"@);
    let m = Map::<Seq<char>, Seq<char>>::empty();
    let m = crate::table::with_field(m, "releaseDate"@, tag_text(xml, "dcterms:issued"@));
    let m = crate::table::with_field(m, "copyrightStatus"@, tag_text(xml, "dcterms:rights"@));
    let m = crate::table::with_field(m, "alternateTitle"@, tag_text(xml, "dcterms:alternative"@));
    let m = crate::table::with_field(m, "wikipediaUrl"@, description_link(description));
    let m = crate::table::with_field(m, "note"@, description);
    let m = crate::table::with_field(m, "credits"@, tag_text(xml, "pgterms:marc508"@));
    let m = crate::table::with_field(m, "summary"@, tag_text(xml, "pgterms:marc520"@));
    let m = crate::table::with_field(m, "readingLevel"@, tag_text(xml, "pgterms:marc908"@));
    crate::table::with_field(m, "authorWebpage"@, resource(xml, "pgterms:webpage"@))
}

// ---------------------------------------------------------------------------
// Reading
// ---------------------------------------------------------------------------
/// `s` with every `from` replaced by `to`.
fn rewrite(s: Vec<char>, from: &str, to: &str) -> (r: Vec<char>)
    requires
        from@.len() > 0,
    ensures
        r@ == text::replaced(s@, from@, to@),
{
    let f = text::chars_of(from);
    let t = text::chars_of(to);
    text::replace(s.as_slice(), f.as_slice(), t.as_slice())
}

fn unescape(s: Vec<char>) -> (r: Vec<char>)
    ensures
        r@ == unescaped(s@),
{
    proof {
        reveal_strlit("&amp;");
        reveal_strlit("&lt;");
        reveal_strlit("&gt;");
        reveal_strlit("&quot;");
        reveal_strlit("&apos;");
    }
    let s = rewrite(s, "&amp;", "&");
    let s = rewrite(s, "&lt;", "<");
    let s = rewrite(s, "&gt;", ">");
    let s = rewrite(s, "&quot;", "\"");
    rewrite(s, "&apos;", "'")
}

/// The characters `b` to `e` of `v`.
fn part(v: &[char], b: usize, e: usize) -> (r: Vec<char>)
    requires
        b <= e <= v@.len(),
    ensures
        r@ == v@.subrange(b as int, e as int),
{
    let mut out: Vec<char> = Vec::new();
    let mut i: usize = b;
    while i < e
        invariant
            b <= i <= e <= v@.len(),
            out@ == v@.subrange(b as int, i as int),
        decreases e - i,
    {
        out.push(v[i]);
        i += 1;
        assert(out@ =~= v@.subrange(b as int, i as int));
    }
    out
}

fn find_text(v: &[char], mark: &str, from: usize) -> (r: Option<usize>)
    requires
        from <= v@.len(),
    ensures
        match r {
            Some(i) => text::position_from(v@, mark@, from as int) == Some(i as int) && from <= i
                && i + mark@.len() <= v@.len() <= usize::MAX,
            None => text::position_from(v@, mark@, from as int) is None,
        },
{
    let m = text::chars_of(mark);
    proof {
        text::lemma_position_from(v@, mark@, from as int);
    }
    assert(v.len() <= usize::MAX);
    text::find_from(v, m.as_slice(), from)
}

fn find_opening(xml: &[char], tag: &str) -> (r: Option<usize>)
    ensures
        match r {
            Some(i) => opening_from(xml@, tag@, 0) == Some(i as int) && i + 1 + tag@.len()
                < xml@.len() <= usize::MAX,
            None => opening_from(xml@, tag@, 0) is None,
        },
{
    proof {
        reveal_strlit("<");
    }
    let mut open = "<".to_owned();
    open.append(tag);
    let mark = text::chars_of(open.as_str());
    let n: usize = xml.len();
    let m: usize = mark.len();
    let mut i: usize = 0;
    while i < n
        invariant
            i <= n,
            n == xml@.len(),
            m == mark@.len(),
            mark@ == "<"@ + tag@,
            m == 1 + tag@.len(),
            opening_from(xml@, tag@, 0) == opening_from(xml@, tag@, i as int),
        decreases n - i,
    {
        if m < n - i && text::occurs(xml, mark.as_slice(), i) {
            let c: char = xml[i + m];
            if c == '>' || c == '/' || text::is_whitespace(c) {
                return Some(i);
            }
        }
        i += 1;
    }
    None
}

fn find_body(xml: &[char], tag: &str) -> (r: Option<(usize, usize)>)
    ensures
        match r {
            Some((b, e)) => b <= e <= xml@.len() && body_range(xml@, tag@) == Some(
                (b as int, e as int),
            ),
            None => body_range(xml@, tag@) is None,
        },
{
    proof {
        reveal_strlit(">");
    }
    let mut close = "</".to_owned();
    close.append(tag);
    close.append(">");
    let o: usize = match find_opening(xml, tag) {
        Some(o) => o,
        None => {
            return None;
        },
    };
    let g: usize = match find_text(xml, ">", o + 1 + tag.unicode_len()) {
        Some(g) => g,
        None => {
            return None;
        },
    };
    match find_text(xml, close.as_str(), g + 1) {
        Some(c) => Some((g + 1, c)),
        None => None,
    }
}

fn tag_text_in(xml: &[char], tag: &str) -> (r: Option<String>)
    ensures
        text::text_opt(r) == tag_text(xml@, tag@),
{
    match find_body(xml, tag) {
        None => None,
        Some((b, e)) => {
            let body = unescape(part(xml, b, e));
            let decoded = text::string_of(body.as_slice());
            let t = text::trim(decoded.as_str());
            if t.is_empty() {
                None
            } else {
                Some(t.to_owned())
            }
        },
    }
}

fn resource_attr_in(xml: &[char], tag: &str) -> (r: Option<String>)
    ensures
        text::text_opt(r) == resource(xml@, tag@),
{
    proof {
        reveal_strlit(">");
        reveal_strlit("\"");
    }
    let mut open = "<".to_owned();
    open.append(tag);
    open.append(" ");
    let o: usize = match find_text(xml, open.as_str(), 0) {
        Some(o) => o + open.as_str().unicode_len(),
        None => {
            return None;
        },
    };
    let g: usize = match find_text(xml, ">", o) {
        Some(g) => g,
        None => {
            return None;
        },
    };
    let inside = part(xml, o, g);
    let needle = "rdf:resource=\"";
    let a: usize = match find_text(inside.as_slice(), needle, 0) {
        Some(a) => a + needle.unicode_len(),
        None => {
            return None;
        },
    };
    match find_text(inside.as_slice(), "\"", a) {
        Some(q) => {
            let url = part(inside.as_slice(), a, q);
            Some(text::string_of(url.as_slice()))
        },
        None => None,
    }
}

/// The text of the first `<tag ...>BODY</tag>`: BODY with its entities read,
/// trimmed. `None` where there is no such element or its text is empty.
pub fn extract_first_tag_text(xml: &str, tag: &str) -> (r: Option<String>)
    ensures
        text::text_opt(r) == tag_text(xml@, tag@),
{
    let v = text::chars_of(xml);
    tag_text_in(v.as_slice(), tag)
}

/// The URL of the first `<tag ... rdf:resource="URL"...`.
pub fn extract_resource_attr(xml: &str, tag: &str) -> (r: Option<String>)
    ensures
        text::text_opt(r) == resource(xml@, tag@),
{
    let v = text::chars_of(xml);
    resource_attr_in(v.as_slice(), tag)
}

/// The first link into Wikipedia in `description`.
pub fn wikipedia_link(description: &str) -> (r: Option<String>)
    ensures
        text::text_opt(r) == first_link(text::words(description@)),
{
    let words = text::split_words(description);
    let ghost all = text::texts(words@);
    let mut i: usize = 0;
    assert(all.skip(0) == all);
    while i < words.len()
        invariant
            i <= words@.len(),
            all == text::texts(words@),
            all == text::words(description@),
            first_link(all) == first_link(all.skip(i as int)),
        decreases words@.len() - i,
    {
        let w = words[i].as_str();
        assert(all.skip(i as int)[0] == w@);
        if text::contains(w, "wikipedia.org") && text::starts_with(w, "http") {
            return Some(w.to_owned());
        }
        assert(all.skip(i as int).skip(1) == all.skip(i + 1));
        i += 1;
    }
    None
}

/// The fields of a Project Gutenberg `pg{id}.rdf` document.
pub fn parse_pgterms_rdf(xml: &str) -> (r: Table<String>)
    ensures
        r@ == rdf_fields(xml@),
{
    let v = text::chars_of(xml);
    let doc = v.as_slice();
    let mut out: Table<String> = Table::new();
    put_opt(&mut out, "releaseDate", tag_text_in(doc, "dcterms:issued"));
    put_opt(&mut out, "copyrightStatus", tag_text_in(doc, "dcterms:rights"));
    put_opt(&mut out, "alternateTitle", tag_text_in(doc, "dcterms:alternative"));
    let description = tag_text_in(doc, "dcterms:description");
    let link = match &description {
        Some(d) => wikipedia_link(d.as_str()),
        None => None,
    };
    put_opt(&mut out, "wikipediaUrl", link);
    put_opt(&mut out, "note", description);
    put_opt(&mut out, "credits", tag_text_in(doc, "pgterms:marc508"));
    put_opt(&mut out, "summary", tag_text_in(doc, "pgterms:marc520"));
    put_opt(&mut out, "readingLevel", tag_text_in(doc, "pgterms:marc908"));
    put_opt(&mut out, "authorWebpage", resource_attr_in(doc, "pgterms:webpage"));
    out
}

// ---------------------------------------------------------------------------
// Laws
// ---------------------------------------------------------------------------
/// A key that an RDF document can give.
pub open spec fn is_rdf_key(key: Seq<char>) -> bool {
    ||| key == "releaseDate"@
    ||| key == "copyrightStatus"@
    ||| key == "alternateTitle"@
    ||| key == "wikipediaUrl"@
    ||| key == "note"@
    ||| key == "credits"@
    ||| key == "summary"@
    ||| key == "readingLevel"@
    ||| key == "authorWebpage"@
}

/// An RDF document gives fields at nine keys and no others.
pub proof fn law_rdf_keys(xml: Seq<char>, key: Seq<char>)
    ensures
        rdf_fields(xml).contains_key(key) ==> is_rdf_key(key),
{
}

/// The element that is read is the first of its name: no element of that name opens
/// before it.
pub proof fn law_first_opening(xml: Seq<char>, tag: Seq<char>)
    ensures
        match opening_from(xml, tag, 0) {
            Some(i) => opens_at(xml, tag, i) && forall|j: int|
                0 <= j < i ==> !opens_at(xml, tag, j),
            None => forall|j: int| !opens_at(xml, tag, j),
        },
{
    lemma_opening_from(xml, tag, 0);
}

proof fn lemma_opening_from(xml: Seq<char>, tag: Seq<char>, from: int)
    requires
        0 <= from,
    ensures
        match opening_from(xml, tag, from) {
            Some(i) => from <= i && opens_at(xml, tag, i) && forall|j: int|
                from <= j < i ==> !opens_at(xml, tag, j),
            None => forall|j: int| from <= j ==> !opens_at(xml, tag, j),
        },
    decreases xml.len() - from,
{
    if from < xml.len() && !opens_at(xml, tag, from) {
        lemma_opening_from(xml, tag, from + 1);
    }
}

/// The text of an element is never empty, and has no white space around it.
pub proof fn law_element_text(xml: Seq<char>, tag: Seq<char>)
    ensures
        tag_text(xml, tag) matches Some(t) ==> t.len() > 0 && text::trimmed(t) == t,
{
    match body_range(xml, tag) {
        Some((b, e)) => {
            text::law_trimmed(unescaped(xml.subrange(b, e)));
        },
        None => {},
    }
}

/// A link is one of the description's words, begins with `http` and leads into
/// Wikipedia. There is one where any of the words is such a link.
pub proof fn law_wikipedia_link(words: Seq<Seq<char>>)
    ensures
        match first_link(words) {
            Some(w) => words.contains(w) && is_wikipedia_link(w),
            None => forall|i: int| 0 <= i < words.len() ==> !is_wikipedia_link(#[trigger] words[i]),
        },
    decreases words.len(),
{
    if words.len() > 0 {
        if is_wikipedia_link(words[0]) {
            assert(words[0] == first_link(words)->0);
        } else {
            let rest = words.skip(1);
            law_wikipedia_link(rest);
            match first_link(rest) {
                Some(w) => {
                    let i = rest.index_of(w);
                    assert(words[i + 1] == w);
                },
                None => {
                    assert forall|i: int| 0 <= i < words.len() implies !is_wikipedia_link(
                        #[trigger] words[i],
                    ) by {
                        if i > 0 {
                            assert(rest[i - 1] == words[i]);
                        }
                    }
                },
            }
        }
    }
}

/// An element opens where `<` and its name stand and the name ends there: with `>`, with
/// `/` or with white space.
pub proof fn law_opening(xml: Seq<char>, tag: Seq<char>, a: Seq<char>, end: char, b: Seq<char>)
    ensures
        opens_at(a + "<"@ + tag + seq![end] + b, tag, a.len() as int) <==> end == '>' || end == '/'
            || text::is_space(end),
        forall|i: int| #[trigger]
            opens_at(xml, tag, i) ==> text::occurs_at(xml, "<"@ + tag, i) && i + 1 + tag.len()
                < xml.len() && (xml[i + 1 + tag.len()] == '>' || xml[i + 1 + tag.len()] == '/'
                || text::is_space(xml[i + 1 + tag.len()])),
{
    reveal_strlit("<");
    let whole = a + "<"@ + tag + seq![end] + b;
    let mark = "<"@ + tag;
    let n = a.len() as int;
    assert(whole.subrange(n, n + mark.len()) =~= mark);
    assert(whole[n + 1 + tag.len()] == end);
}

/// The text of an element is all of its body, however long: from behind the first `>`
/// after its name, at `g`, up to the first closing tag behind that, at `e`, with its
/// entities read and without the white space around it. A blank body is no text.
pub proof fn law_element_is_read_whole(
    xml: Seq<char>,
    tag: Seq<char>,
    o: int,
    g: int,
    e: int,
)
    requires
        opens_at(xml, tag, o),
        forall|j: int| 0 <= j < o ==> !opens_at(xml, tag, j),
        o + 1 + tag.len() <= g < xml.len(),
        xml[g] == '>',
        forall|j: int| o + 1 + tag.len() <= j < g ==> #[trigger] xml[j] != '>',
        g + 1 <= e,
        text::occurs_at(xml, "</"@ + tag + ">"@, e),
        forall|j: int| g + 1 <= j < e ==> !text::occurs_at(xml, "</"@ + tag + ">"@, j),
    ensures
        ({
            let body = xml.subrange(g + 1, e);
            &&& !body.contains('&') ==> tag_text(xml, tag) == if text::is_blank(body) {
                None
            } else {
                Some(text::trimmed(body))
            }
            &&& tag_text(xml, tag) == if text::is_blank(unescaped(body)) {
                None
            } else {
                Some(text::trimmed(unescaped(body)))
            }
        }),
{
    let close = "</"@ + tag + ">"@;
    let from = o + 1 + tag.len();
    reveal_strlit(">");
    law_first_opening(xml, tag);
    assert(opening_from(xml, tag, 0) == Some(o)) by {
        let i = opening_from(xml, tag, 0)->0;
        assert(opening_from(xml, tag, 0) is Some);
        if i < o {
            assert(!opens_at(xml, tag, i));
        } else if o < i {
            assert(!opens_at(xml, tag, o));
        }
        lemma_opening_from(xml, tag, 0);
    }
    text::lemma_position_from(xml, ">"@, from);
    assert(xml.subrange(g, g + 1) =~= ">"@);
    assert(text::occurs_at(xml, ">"@, g));
    assert(text::position_from(xml, ">"@, from) == Some(g)) by {
        let i = text::position_from(xml, ">"@, from)->0;
        assert(xml.subrange(i, i + 1)[0] == xml[i]);
    }
    text::lemma_position_from(xml, close, g + 1);
    assert(text::position_from(xml, close, g + 1) == Some(e));
    let body = xml.subrange(g + 1, e);
    if !body.contains('&') {
        lemma_unescaped_plain(body);
    }
}

/// There is no text where no element of the name opens, where its tag is not ended, and
/// where it is not closed.
pub proof fn law_element_is_there(xml: Seq<char>, tag: Seq<char>)
    ensures
        tag_text(xml, tag) is Some ==> exists|o: int, g: int, e: int|
            #![trigger opens_at(xml, tag, o), xml[g], text::occurs_at(xml, "</"@ + tag + ">"@, e)]
            opens_at(xml, tag, o) && o < g < e && xml[g] == '>' && text::occurs_at(
                xml,
                "</"@ + tag + ">"@,
                e,
            ),
{
    reveal_strlit(">");
    if tag_text(xml, tag) is Some {
        let close = "</"@ + tag + ">"@;
        law_first_opening(xml, tag);
        lemma_opening_from(xml, tag, 0);
        let o = opening_from(xml, tag, 0)->0;
        let from = o + 1 + tag.len();
        text::lemma_position_from(xml, ">"@, from);
        let g = text::position_from(xml, ">"@, from)->0;
        assert(xml.subrange(g, g + 1)[0] == xml[g]);
        text::lemma_position_from(xml, close, g + 1);
        let e = text::position_from(xml, close, g + 1)->0;
        assert(opens_at(xml, tag, o) && xml[g] == '>' && text::occurs_at(xml, close, e));
    }
}

/// What holds nothing to be replaced at its places stays in front of what follows.
proof fn lemma_untouched(u: Seq<char>, v: Seq<char>, from: Seq<char>, to: Seq<char>)
    requires
        from.len() > 0,
        forall|j: int| 0 <= j < u.len() ==> !text::occurs_at(u + v, from, j),
    ensures
        text::replaced(u + v, from, to) == u + text::replaced(v, from, to),
    decreases u.len(),
{
    let s = u + v;
    if u.len() == 0 {
        assert(s =~= v);
        assert(u + text::replaced(v, from, to) =~= text::replaced(v, from, to));
    } else {
        let rest = u.skip(1);
        assert(s.skip(1) =~= rest + v);
        assert forall|j: int| 0 <= j < rest.len() implies !text::occurs_at(rest + v, from, j) by {
            assert(!text::occurs_at(s, from, j + 1));
            if j + from.len() <= (rest + v).len() {
                assert(s.subrange(j + 1, j + 1 + from.len()) =~= (rest + v).subrange(
                    j,
                    j + from.len(),
                ));
            }
        }
        lemma_untouched(rest, v, from, to);
        if s.len() < from.len() {
            assert(text::replaced(v, from, to) == v);
        } else {
            assert(!text::has_prefix(s, from)) by {
                assert(!text::occurs_at(s, from, 0));
                assert(s.subrange(0, from.len() as int) =~= s.take(from.len() as int));
            }
            assert(text::replaced(s, from, to) =~= u + text::replaced(v, from, to));
        }
    }
}

/// An entity that stands in front makes way.
proof fn lemma_in_front(v: Seq<char>, from: Seq<char>, to: Seq<char>)
    requires
        from.len() > 0,
    ensures
        text::replaced(from + v, from, to) == to + text::replaced(v, from, to),
{
    let none = Seq::<char>::empty();
    text::law_replaced(none, v, from, to);
    assert(none + from + v =~= from + v);
    assert(none + to + text::replaced(v, from, to) =~= to + text::replaced(v, from, to));
}

/// No entity begins but with an ampersand.
proof fn lemma_pass(u: Seq<char>, v: Seq<char>, from: Seq<char>, to: Seq<char>)
    requires
        from.len() > 2,
        from[0] == '&',
        forall|j: int| 1 <= j < u.len() ==> #[trigger] u[j] != '&',
        u.len() > 0 && u[0] == '&' ==> {
            ||| u.len() > 2 && (u[1] != from[1] || u[2] != from[2])
            ||| u.len() == 1 && (v.len() == 0 || v[0] != from[1])
        },
    ensures
        text::replaced(u + v, from, to) == u + text::replaced(v, from, to),
{
    let s = u + v;
    assert forall|j: int| 0 <= j < u.len() implies !text::occurs_at(s, from, j) by {
        if text::occurs_at(s, from, j) {
            let there = s.subrange(j, j + from.len());
            assert(there[0] == s[j] && there[1] == s[j + 1] && there[2] == s[j + 2]);
            assert(s[j] == u[j]);
        }
    }
    lemma_untouched(u, v, from, to);
}

/// What a replacement begins with: as the text did, or with what was put in.
proof fn lemma_head(v: Seq<char>, from: Seq<char>, to: Seq<char>)
    requires
        to.len() > 0,
    ensures
        v.len() == 0 <==> text::replaced(v, from, to).len() == 0,
        v.len() > 0 ==> text::replaced(v, from, to)[0] == v[0] || text::replaced(v, from, to)[0]
            == to[0],
{
}

proof fn lemma_reveal_entities()
    ensures
        "&amp;"@.len() == 5 && "&amp;"@[0] == '&' && "&amp;"@[1] == 'a' && "&amp;"@[2] == 'm',
        "&lt;"@.len() == 4 && "&lt;"@[0] == '&' && "&lt;"@[1] == 'l' && "&lt;"@[2] == 't',
        "&gt;"@.len() == 4 && "&gt;"@[0] == '&' && "&gt;"@[1] == 'g' && "&gt;"@[2] == 't',
        "&quot;"@.len() == 6 && "&quot;"@[0] == '&' && "&quot;"@[1] == 'q' && "&quot;"@[2] == 'u',
        "&apos;"@.len() == 6 && "&apos;"@[0] == '&' && "&apos;"@[1] == 'a' && "&apos;"@[2] == 'p',
        forall|j: int| 1 <= j < 4 ==> #[trigger] "&lt;"@[j] != '&',
        forall|j: int| 1 <= j < 4 ==> #[trigger] "&gt;"@[j] != '&',
        forall|j: int| 1 <= j < 6 ==> #[trigger] "&quot;"@[j] != '&',
        forall|j: int| 1 <= j < 6 ==> #[trigger] "&apos;"@[j] != '&',
        "&"@ == seq!['&'],
        "<"@ == seq!['<'],
        ">"@ == seq!['>'],
        "\""@ == seq!['"'],
        "'"@ == seq!['\''],
{
    reveal_strlit("&amp;");
    reveal_strlit("&lt;");
    reveal_strlit("&gt;");
    reveal_strlit("&quot;");
    reveal_strlit("&apos;");
    reveal_strlit("&");
    reveal_strlit("<");
    reveal_strlit(">");
    reveal_strlit("\"");
    reveal_strlit("'");
    assert("&"@ =~= seq!['&']);
    assert("<"@ =~= seq!['<']);
    assert(">"@ =~= seq!['>']);
    assert("\""@ =~= seq!['"']);
    assert("'"@ =~= seq!['\'']);
}

/// What holds no ampersand stays as it is in front of anything.
proof fn lemma_unescaped_front(a: Seq<char>, b: Seq<char>)
    requires
        !a.contains('&'),
    ensures
        unescaped(a + b) == a + unescaped(b),
{
    lemma_reveal_entities();
    assert forall|j: int| 0 <= j < a.len() implies #[trigger] a[j] != '&' by {}
    let b1 = text::replaced(b, "&amp;"@, "&"@);
    let b2 = text::replaced(b1, "&lt;"@, "<"@);
    let b3 = text::replaced(b2, "&gt;"@, ">"@);
    let b4 = text::replaced(b3, "&quot;"@, "\""@);
    lemma_pass(a, b, "&amp;"@, "&"@);
    lemma_pass(a, b1, "&lt;"@, "<"@);
    lemma_pass(a, b2, "&gt;"@, ">"@);
    lemma_pass(a, b3, "&quot;"@, "\""@);
    lemma_pass(a, b4, "&apos;"@, "'"@);
}

proof fn lemma_unescaped_plain(s: Seq<char>)
    requires
        !s.contains('&'),
    ensures
        unescaped(s) == s,
{
    let none = Seq::<char>::empty();
    lemma_unescaped_front(s, none);
    assert(s + none =~= s);
    assert(unescaped(none) =~= none);
}

/// Each of the five entities is read as its character wherever it stands, and nothing
/// else changes: what holds no ampersand stays, and so does an ampersand that begins no
/// entity. `&amp;` is read first, so that `&amp;lt;` is read as `<`.
pub proof fn law_entities(a: Seq<char>, b: Seq<char>)
    ensures
        !a.contains('&') ==> unescaped(a) == a && unescaped(a + b) == a + unescaped(b),
        unescaped("&lt;"@ + b) == "<"@ + unescaped(b),
        unescaped("&gt;"@ + b) == ">"@ + unescaped(b),
        unescaped("&quot;"@ + b) == "\""@ + unescaped(b),
        unescaped("&apos;"@ + b) == "'"@ + unescaped(b),
        b.len() == 0 || (b[0] != 'l' && b[0] != 'g' && b[0] != 'q' && b[0] != 'a') ==> {
            &&& unescaped("&amp;"@ + b) == "&"@ + unescaped(b)
            &&& unescaped("&"@ + b) == "&"@ + unescaped(b)
        },
        unescaped("&amp;lt;"@ + b) == "<"@ + unescaped(b),
{
    lemma_reveal_entities();
    if !a.contains('&') {
        lemma_unescaped_plain(a);
        lemma_unescaped_front(a, b);
    }
    let amp = "&amp;"@;
    let lt = "&lt;"@;
    let gt = "&gt;"@;
    let quot = "&quot;"@;
    let apos = "&apos;"@;
    let b1 = text::replaced(b, amp, "&"@);
    let b2 = text::replaced(b1, lt, "<"@);
    let b3 = text::replaced(b2, gt, ">"@);
    let b4 = text::replaced(b3, quot, "\""@);
    let b5 = text::replaced(b4, apos, "'"@);
    assert(unescaped(b) == b5);
    // `&lt;`
    lemma_pass(lt, b, amp, "&"@);
    lemma_in_front(b1, lt, "<"@);
    lemma_pass("<"@, b2, gt, ">"@);
    lemma_pass("<"@, b3, quot, "\""@);
    lemma_pass("<"@, b4, apos, "'"@);
    // `&gt;`
    lemma_pass(gt, b, amp, "&"@);
    lemma_pass(gt, b1, lt, "<"@);
    lemma_in_front(b2, gt, ">"@);
    lemma_pass(">"@, b3, quot, "\""@);
    lemma_pass(">"@, b4, apos, "'"@);
    // `&quot;`
    lemma_pass(quot, b, amp, "&"@);
    lemma_pass(quot, b1, lt, "<"@);
    lemma_pass(quot, b2, gt, ">"@);
    lemma_in_front(b3, quot, "\""@);
    lemma_pass("\""@, b4, apos, "'"@);
    // `&apos;`
    lemma_pass(apos, b, amp, "&"@);
    lemma_pass(apos, b1, lt, "<"@);
    lemma_pass(apos, b2, gt, ">"@);
    lemma_pass(apos, b3, quot, "\""@);
    lemma_in_front(b4, apos, "'"@);
    // `&amp;`, and an ampersand alone
    lemma_in_front(b, amp, "&"@);
    if b.len() == 0 || (b[0] != 'l' && b[0] != 'g' && b[0] != 'q' && b[0] != 'a') {
        lemma_head(b, amp, "&"@);
        lemma_head(b1, lt, "<"@);
        lemma_head(b2, gt, ">"@);
        lemma_head(b3, quot, "\""@);
        lemma_pass("&"@, b, amp, "&"@);
        lemma_pass("&"@, b1, lt, "<"@);
        lemma_pass("&"@, b2, gt, ">"@);
        lemma_pass("&"@, b3, quot, "\""@);
        lemma_pass("&"@, b4, apos, "'"@);
    }
    // `&amp;lt;`
    reveal_strlit("&amp;lt;");
    reveal_strlit("&amp;");
    reveal_strlit("&lt;");
    reveal_strlit("lt;");
    let tail = "lt;"@ + b;
    assert("&amp;lt;"@ + b =~= amp + tail);
    lemma_in_front(tail, amp, "&"@);
    lemma_pass("lt;"@, b, amp, "&"@);
    assert("&"@ + ("lt;"@ + b1) =~= lt + b1);
}

/// The value of an attribute is all that stands between its quotes: in the first `<tag `,
/// at `o`, up to its `>`, at `g`, behind the first `rdf:resource="`, at `a`, up to the next
/// quote, at `e`.
pub proof fn law_resource_is_read_whole(
    xml: Seq<char>,
    tag: Seq<char>,
    o: int,
    g: int,
    a: int,
    e: int,
)
    requires
        text::occurs_at(xml, "<"@ + tag + " "@, o),
        forall|j: int| 0 <= j < o ==> !text::occurs_at(xml, "<"@ + tag + " "@, j),
        o + 2 + tag.len() <= a,
        a + 14 <= e < g < xml.len(),
        xml[g] == '>',
        forall|j: int| o + 2 + tag.len() <= j < g ==> #[trigger] xml[j] != '>',
        text::occurs_at(xml, "rdf:resource=\""@, a),
        forall|j: int| o + 2 + tag.len() <= j < a ==> !text::occurs_at(xml, "rdf:resource=\""@, j),
        xml[e] == '"',
        forall|j: int| a + 14 <= j < e ==> #[trigger] xml[j] != '"',
    ensures
        resource(xml, tag) == Some(xml.subrange(a + 14, e)),
{
    reveal_strlit("<");
    reveal_strlit(" ");
    reveal_strlit(">");
    reveal_strlit("\"");
    reveal_strlit("rdf:resource=\"");
    let open = "<"@ + tag + " "@;
    let needle = "rdf:resource=\""@;
    let b = o + open.len();
    text::lemma_position_from(xml, open, 0);
    assert(text::position(xml, open) == Some(o));
    assert(xml.subrange(g, g + 1) =~= ">"@);
    assert(text::occurs_at(xml, ">"@, g));
    text::lemma_position_from(xml, ">"@, b);
    assert(text::position_from(xml, ">"@, b) == Some(g)) by {
        let i = text::position_from(xml, ">"@, b)->0;
        assert(xml.subrange(i, i + 1)[0] == xml[i]);
    }
    let inside = xml.subrange(b, g);
    text::lemma_position_from(inside, needle, 0);
    assert(inside.subrange(a - b, a - b + 14) =~= xml.subrange(a, a + 14));
    assert(text::occurs_at(inside, needle, a - b));
    assert(text::position(inside, needle) == Some(a - b)) by {
        let i = text::position(inside, needle)->0;
        if i < a - b {
            assert(inside.subrange(i, i + 14) =~= xml.subrange(b + i, b + i + 14));
            assert(text::occurs_at(xml, needle, b + i));
        }
    }
    assert(inside.subrange(e - b, e - b + 1) =~= "\""@);
    assert(text::occurs_at(inside, "\""@, e - b));
    text::lemma_position_from(inside, "\""@, a - b + 14);
    assert(text::position_from(inside, "\""@, a - b + 14) == Some(e - b)) by {
        let i = text::position_from(inside, "\""@, a - b + 14)->0;
        assert(inside.subrange(i, i + 1)[0] == inside[i]);
        assert(inside[i] == xml[b + i]);
    }
    assert(inside.subrange(a - b + 14, e - b) =~= xml.subrange(a + 14, e));
}

/// A resource is named only where the tag is, and stands in it behind `rdf:resource="`.
pub proof fn law_resource_is_there(xml: Seq<char>, tag: Seq<char>)
    ensures
        resource(xml, tag) matches Some(url) ==> {
            &&& text::has_part(xml, "<"@ + tag + " "@)
            &&& text::has_part(xml, "rdf:resource=\""@ + url + "\""@)
            &&& !url.contains('"')
        },
{
    reveal_strlit(">");
    reveal_strlit("\"");
    reveal_strlit("rdf:resource=\"");
    if resource(xml, tag) is Some {
        let open = "<"@ + tag + " "@;
        let needle = "rdf:resource=\""@;
        text::lemma_position_from(xml, open, 0);
        let o = text::position(xml, open)->0;
        let b = o + open.len();
        text::lemma_position_from(xml, ">"@, b);
        let g = text::position_from(xml, ">"@, b)->0;
        let inside = xml.subrange(b, g);
        text::lemma_position_from(inside, needle, 0);
        let a = text::position(inside, needle)->0;
        text::lemma_position_from(inside, "\""@, a + 14);
        let e = text::position_from(inside, "\""@, a + 14)->0;
        let url = inside.subrange(a + 14, e);
        assert(resource(xml, tag) == Some(url));
        assert(inside.subrange(e, e + 1)[0] == inside[e]);
        let whole = needle + url + "\""@;
        assert(inside.subrange(a, a + 14) == needle);
        assert forall|k: int| 0 <= k < whole.len() implies #[trigger] xml.subrange(
            b + a,
            b + a + whole.len(),
        )[k] == whole[k] by {
            assert(xml[b + a + k] == inside[a + k]);
            if k < 14 {
                assert(inside.subrange(a, a + 14)[k] == inside[a + k]);
            }
        }
        assert(xml.subrange(b + a, b + a + whole.len()) =~= whole);
        assert(text::occurs_at(xml, whole, b + a));
        if url.contains('"') {
            let i = url.index_of('"');
            assert(inside[a + 14 + i] == '"');
            assert(inside.subrange(a + 14 + i, a + 14 + i + 1) =~= "\""@);
            assert(text::occurs_at(inside, "\""@, a + 14 + i));
        }
    }
}

/// `fields` has at `key` the value that is there, and none where none is.
pub open spec fn is_field_at(
    fields: Map<Seq<char>, Seq<char>>,
    key: Seq<char>,
    value: Option<Seq<char>>,
) -> bool {
    match value {
        Some(v) => fields.contains_key(key) && fields[key] == v,
        None => !fields.contains_key(key),
    }
}

/// Each field of an RDF document is the text of its element, and is there exactly where
/// that is.
pub proof fn law_rdf_fields(xml: Seq<char>)
    ensures
        ({
            let fields = rdf_fields(xml);
            &&& is_field_at(fields, "releaseDate"@, tag_text(xml, "dcterms:issued"@))
            &&& is_field_at(fields, "copyrightStatus"@, tag_text(xml, "dcterms:rights"@))
            &&& is_field_at(fields, "alternateTitle"@, tag_text(xml, "dcterms:alternative"@))
            &&& is_field_at(fields, "note"@, tag_text(xml, "dcterms:description"@))
            &&& is_field_at(fields, "credits"@, tag_text(xml, "pgterms:marc508"@))
            &&& is_field_at(fields, "summary"@, tag_text(xml, "pgterms:marc520"@))
            &&& is_field_at(fields, "readingLevel"@, tag_text(xml, "pgterms:marc908"@))
            &&& is_field_at(fields, "authorWebpage"@, resource(xml, "pgterms:webpage"@))
            &&& is_field_at(
                fields,
                "wikipediaUrl"@,
                match tag_text(xml, "dcterms:description"@) {
                    Some(d) => first_link(text::words(d)),
                    None => None,
                },
            )
        }),
{
    reveal_strlit("releaseDate");
    reveal_strlit("copyrightStatus");
    reveal_strlit("alternateTitle");
    reveal_strlit("wikipediaUrl");
    reveal_strlit("note");
    reveal_strlit("credits");
    reveal_strlit("summary");
    reveal_strlit("readingLevel");
    reveal_strlit("authorWebpage");
    assert("releaseDate"@.len() == 11 && "releaseDate"@[0] == 'r');
    assert("copyrightStatus"@.len() == 15 && "copyrightStatus"@[0] == 'c');
    assert("alternateTitle"@.len() == 14 && "alternateTitle"@[0] == 'a');
    assert("wikipediaUrl"@.len() == 12 && "wikipediaUrl"@[0] == 'w');
    assert("note"@.len() == 4 && "note"@[0] == 'n');
    assert("credits"@.len() == 7 && "credits"@[0] == 'c');
    assert("summary"@.len() == 7 && "summary"@[0] == 's');
    assert("readingLevel"@.len() == 12 && "readingLevel"@[0] == 'r');
    assert("authorWebpage"@.len() == 13 && "authorWebpage"@[0] == 'a');
}

/// The link that is taken is the first of the words that begins with `http` and holds
/// `wikipedia.org`.
pub proof fn law_first_wikipedia_link(words: Seq<Seq<char>>, i: int)
    requires
        0 <= i < words.len(),
        text::has_prefix(words[i], "http"@),
        text::has_part(words[i], "wikipedia.org"@),
        forall|j: int|
            0 <= j < i ==> !(text::has_prefix(#[trigger] words[j], "http"@) && text::has_part(
                words[j],
                "wikipedia.org"@,
            )),
    ensures
        first_link(words) == Some(words[i]),
    decreases words.len(),
{
    if i > 0 {
        let rest = words.skip(1);
        assert(!is_wikipedia_link(words[0]));
        assert(rest[i - 1] == words[i]);
        assert forall|j: int| 0 <= j < i - 1 implies !(text::has_prefix(#[trigger] rest[j], "http"@)
            && text::has_part(rest[j], "wikipedia.org"@)) by {
            assert(rest[j] == words[j + 1]);
        }
        law_first_wikipedia_link(rest, i - 1);
    }
}

} // verus!

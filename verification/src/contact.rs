//! How the feeder identifies itself to Open Library.
use crate::json::{self, Json, JsonView};
use crate::openlibrary_client::{CONTACT_KEY, VERSION};
use crate::text;
use crate::types::ConfigField;
use vstd::prelude::*;

verus! {

/// The label of the contact on the configuration page.
pub const CONTACT_LABEL: &'static str = "Open Library contact";

/// What the configuration page says of the contact.
pub const CONTACT_HELP: &'static str = "An e-mail address or URL sent in the User-Agent of every Open Library request (the openlibrary cards and the gutenberg \u{2192} Open Library binding). Open Library asks API clients to identify themselves; an identified client gets a larger request budget.";

/// How many characters of a contact are sent.
pub const CONTACT_CHARS: usize = 128;

// ---------------------------------------------------------------------------
// Model
// ---------------------------------------------------------------------------
/// A character that may stand in a `User-Agent` comment: printable ASCII without
/// the parentheses that would end the comment.
pub open spec fn is_header_char(c: char) -> bool {
    ' ' <= c <= '~' && c != '(' && c != ')'
}

/// The characters of `s` that may stand in a `User-Agent` comment.
pub open spec fn header_chars(s: Seq<char>) -> Seq<char> {
    s.filter(|c: char| is_header_char(c))
}

/// The first `n` characters of `s`, or all of them where there are fewer.
pub open spec fn at_most(s: Seq<char>, n: nat) -> Seq<char> {
    if s.len() > n {
        s.take(n as int)
    } else {
        s
    }
}

/// The contact that is sent for `raw`.
pub open spec fn contact_of(raw: Seq<char>) -> Option<Seq<char>> {
    let c = text::trimmed(at_most(header_chars(raw), CONTACT_CHARS as nat));
    if c.len() == 0 {
        None
    } else {
        Some(c)
    }
}

/// The contact that is sent for a text that may be absent.
pub open spec fn contact_opt(raw: Option<Seq<char>>) -> Option<Seq<char>> {
    match raw {
        Some(t) => contact_of(t),
        None => None,
    }
}

/// The contact in a configuration.
pub open spec fn configured_contact(config: JsonView) -> Option<Seq<char>> {
    contact_opt(json::text_of(config.member(CONTACT_KEY@)))
}

/// The contact in what was read of a configuration file.
pub open spec fn contact_read(config: Result<JsonView, Seq<char>>) -> Option<Seq<char>> {
    match config {
        Ok(v) => configured_contact(v),
        Err(_) => None,
    }
}

/// The contact in a configuration file that may be absent.
pub open spec fn contact_in_file(file: Option<Vec<u8>>) -> Option<Seq<char>> {
    match file {
        Some(bytes) => contact_read(json::document(bytes@)),
        None => None,
    }
}

/// The contact in the first of `files` that has one, else `otherwise`.
pub open spec fn first_contact(
    files: Seq<Option<Vec<u8>>>,
    otherwise: Option<Seq<char>>,
) -> Option<Seq<char>>
    decreases files.len(),
{
    if files.len() == 0 {
        otherwise
    } else if contact_in_file(files[0]) is Some {
        contact_in_file(files[0])
    } else {
        first_contact(files.skip(1), otherwise)
    }
}

/// The `User-Agent`, up to the end of its comment.
pub open spec fn agent_base() -> Seq<char> {
    "meta-feeder-book/"@ + VERSION@
        + " (gateway:openlibrary; +https://github.com/worph/meta-feeder-book"@
}

/// The `User-Agent` for a contact.
pub open spec fn agent(contact: Option<Seq<char>>) -> Seq<char> {
    match contact {
        Some(c) => agent_base() + "; "@ + c + ")"@,
        None => agent_base() + ")"@,
    }
}

// ---------------------------------------------------------------------------
// Contact
// ---------------------------------------------------------------------------
proof fn lemma_header_chars_push(s: Seq<char>, c: char)
    ensures
        header_chars(s.push(c)) == if is_header_char(c) {
            header_chars(s).push(c)
        } else {
            header_chars(s)
        },
{
    reveal(Seq::filter);
    assert(s.push(c).drop_last() == s);
}

/// Reduces a contact to what a header can carry: its printable ASCII characters
/// without parentheses, at most [`CONTACT_CHARS`] of them, trimmed.
pub fn sanitize_contact(raw: &str) -> (r: Option<String>)
    ensures
        text::text_opt(r) == contact_of(raw@),
{
    let v = text::chars_of(raw);
    let mut kept = String::new();
    let mut count: usize = 0;
    let mut i: usize = 0;
    proof {
        reveal(Seq::filter);
        assert(v@.take(0) == Seq::<char>::empty());
        assert(kept@ =~= header_chars(v@.take(0)));
    }
    while i < v.len()
        invariant
            i <= v@.len(),
            count == kept@.len(),
            count <= i,
            kept@ == header_chars(v@.take(i as int)),
        decreases v@.len() - i,
    {
        let c: char = v[i];
        proof {
            assert(v@.take(i + 1) == v@.take(i as int).push(c));
            lemma_header_chars_push(v@.take(i as int), c);
        }
        if ' ' <= c && c <= '~' && c != '(' && c != ')' {
            kept.push(c);
            count += 1;
        }
        i += 1;
    }
    assert(v@.take(v@.len() as int) == v@);
    let end: usize = if count > CONTACT_CHARS {
        CONTACT_CHARS
    } else {
        count
    };
    let head = kept.as_str().substring_char(0, end);
    assert(head@ =~= at_most(header_chars(raw@), CONTACT_CHARS as nat));
    let c = text::trim(head);
    if c.is_empty() {
        None
    } else {
        Some(c.to_owned())
    }
}

/// The contact that the environment gives: the value of `OPENLIBRARY_CONTACT`.
pub fn env_contact(value: Option<&str>) -> (r: Option<String>)
    ensures
        text::text_opt(r) == contact_opt(text::str_opt(value)),
{
    match value {
        Some(v) => sanitize_contact(v),
        None => None,
    }
}

/// The contact in a configuration.
pub fn contact_in_config(config: &Json) -> (r: Option<String>)
    ensures
        text::text_opt(r) == configured_contact(config@),
{
    match json::text_member(config, CONTACT_KEY) {
        Some(t) => sanitize_contact(t),
        None => None,
    }
}

/// The operator's contact: from the first of the configuration files `files` that
/// has one, else from the environment. A file that is absent, is no JSON or has no
/// usable contact is passed over.
pub fn load_contact(files: &Vec<Option<Vec<u8>>>, env: Option<&str>) -> (r: Option<String>)
    ensures
        text::text_opt(r) == first_contact(files@, contact_opt(text::str_opt(env))),
{
    let ghost otherwise = contact_opt(text::str_opt(env));
    let mut i: usize = 0;
    assert(files@.skip(0) == files@);
    while i < files.len()
        invariant
            i <= files@.len(),
            otherwise == contact_opt(text::str_opt(env)),
            first_contact(files@, otherwise) == first_contact(files@.skip(i as int), otherwise),
        decreases files@.len() - i,
    {
        assert(files@.skip(i as int)[0] == files@[i as int]);
        assert(files@.skip(i as int).skip(1) == files@.skip(i + 1));
        if let Some(bytes) = &files[i] {
            if let Ok(config) = json::parse(bytes.as_slice()) {
                let c = contact_in_config(&config);
                if c.is_some() {
                    return c;
                }
            }
        }
        i += 1;
    }
    env_contact(env)
}

/// A directory in which a contact may be saved.
#[derive(Debug)]
pub enum ContactDir {
    /// The upstream's own.
    Own,
    /// The directory `id` beside it.
    Beside { id: &'static str },
}

pub ghost enum ContactDirView {
    Own,
    Beside { id: Seq<char> },
}

impl View for ContactDir {
    type V = ContactDirView;

    open spec fn view(&self) -> ContactDirView {
        match self {
            ContactDir::Own => ContactDirView::Own,
            ContactDir::Beside { id } => ContactDirView::Beside { id: id@ },
        }
    }
}

/// The directories in which a contact is looked for, in order: the upstream's own, then
/// those of both upstreams beside it, where there is anything beside it.
pub open spec fn contact_places(has_parent: bool) -> Seq<ContactDirView> {
    if has_parent {
        seq![
            ContactDirView::Own,
            ContactDirView::Beside { id: "gutenberg"@ },
            ContactDirView::Beside { id: "openlibrary"@ },
        ]
    } else {
        seq![ContactDirView::Own]
    }
}

/// The directories whose configuration files [`load_contact`] is given, in order. The
/// configuration page saves in the directory of the first upstream, and both upstreams
/// identify themselves.
pub fn contact_dirs(has_parent: bool) -> (r: Vec<ContactDir>)
    ensures
        r@.map_values(|d: ContactDir| d@) == contact_places(has_parent),
{
    let r = if has_parent {
        vec![
            ContactDir::Own,
            ContactDir::Beside { id: "gutenberg" },
            ContactDir::Beside { id: "openlibrary" },
        ]
    } else {
        vec![ContactDir::Own]
    };
    assert(r@.map_values(|d: ContactDir| d@) =~= contact_places(has_parent));
    r
}

/// The configuration line that both upstreams declare.
pub fn contact_field() -> (r: ConfigField)
    ensures
        r.key@ == CONTACT_KEY@,
        r.label@ == CONTACT_LABEL@,
        r.help@ == CONTACT_HELP@,
{
    ConfigField { key: CONTACT_KEY, label: CONTACT_LABEL, help: CONTACT_HELP }
}

/// The configuration values of an upstream with a contact; an empty text where it has
/// none.
pub open spec fn config_view(contact: Option<Seq<char>>) -> JsonView {
    JsonView::Object(
        seq![
            (
                CONTACT_KEY@,
                JsonView::Text(
                    match contact {
                        Some(c) => c,
                        None => Seq::empty(),
                    },
                ),
            ),
        ],
    )
}

/// The configuration values of an upstream with a contact.
pub fn config_json(contact: Option<&str>) -> (r: Json)
    ensures
        r@ == config_view(text::str_opt(contact)),
{
    let value = match contact {
        Some(c) => Json::Text(c.to_owned()),
        None => Json::Text(String::new()),
    };
    let ghost v = value@;
    let members = vec![(CONTACT_KEY.to_owned(), value)];
    let r = Json::Object(members);
    proof {
        r.lemma_view();
        assert(json::member_views(members@) =~= seq![(CONTACT_KEY@, v)]);
    }
    r
}

/// The `User-Agent` that is sent to Open Library.
pub fn user_agent(contact: Option<&str>) -> (r: String)
    ensures
        r@ == agent(text::str_opt(contact)),
{
    let mut s = "meta-feeder-book/".to_owned();
    s.append(VERSION);
    s.append(" (gateway:openlibrary; +https://github.com/worph/meta-feeder-book");
    if let Some(c) = contact {
        s.append("; ");
        s.append(c);
    }
    s.append(")");
    s
}

// ---------------------------------------------------------------------------
// Budget
// ---------------------------------------------------------------------------
/// The size of a rate budget: requests per second, and how many may be made at once.
#[derive(Debug, Clone, Copy, PartialEq, Eq, Structural)]
pub struct BudgetSize {
    pub per_second: u32,
    pub burst: u32,
}

/// The rate budget of a client that is identified or is not.
pub open spec fn budget_size(identified: bool) -> BudgetSize {
    if identified {
        BudgetSize { per_second: 3, burst: 6 }
    } else {
        BudgetSize { per_second: 1, burst: 3 }
    }
}

/// The rate budget for Open Library. A client that identifies itself gets more.
pub fn budget(identified: bool) -> (r: BudgetSize)
    ensures
        r == budget_size(identified),
{
    if identified {
        BudgetSize { per_second: 3, burst: 6 }
    } else {
        BudgetSize { per_second: 1, burst: 3 }
    }
}

// ---------------------------------------------------------------------------
// Laws
// ---------------------------------------------------------------------------
/// All characters of `s` may stand in a `User-Agent` comment.
pub open spec fn is_header_safe(s: Seq<char>) -> bool {
    forall|i: int| 0 <= i < s.len() ==> is_header_char(#[trigger] s[i])
}

proof fn lemma_header_chars(s: Seq<char>)
    ensures
        is_header_safe(header_chars(s)),
        is_header_safe(s) ==> header_chars(s) == s,
    decreases s.len(),
{
    reveal(Seq::filter);
    if s.len() > 0 {
        let init = s.drop_last();
        lemma_header_chars(init);
        lemma_header_chars_push(init, s.last());
        assert(s == init.push(s.last()));
        if is_header_safe(s) {
            assert forall|i: int| 0 <= i < init.len() implies is_header_char(
                #[trigger] init[i],
            ) by {
                assert(init[i] == s[i]);
            }
            assert(is_header_char(s[s.len() - 1]));
        }
    }
}

/// The contact that is sent can stand in a header: it is printable ASCII without
/// parentheses, not empty, of at most [`CONTACT_CHARS`] characters, and not padded.
/// Sent again, it stays as it is.
pub proof fn law_contact(raw: Seq<char>)
    ensures
        contact_of(raw) matches Some(c) ==> {
            &&& is_header_safe(c)
            &&& 0 < c.len() <= CONTACT_CHARS
            &&& text::trimmed(c) == c
            &&& contact_of(c) == Some(c)
        },
{
    let kept = header_chars(raw);
    let head = at_most(kept, CONTACT_CHARS as nat);
    let c = text::trimmed(head);
    lemma_header_chars(raw);
    text::law_trimmed(head);
    let b = choose|b: int| #[trigger]
        text::occurs_at(head, c, b) && (forall|i: int|
            0 <= i < b || b + c.len() <= i < head.len() ==> text::is_space(#[trigger] head[i]));
    assert forall|i: int| 0 <= i < c.len() implies is_header_char(#[trigger] c[i]) by {
        assert(c[i] == head.subrange(b, b + c.len())[i]);
        assert(head[b + i] == kept[b + i]);
    }
    lemma_header_chars(c);
}

/// A saved contact wins over the environment, and of several files the first that has
/// a contact decides.
pub proof fn law_first_contact(
    files: Seq<Option<Vec<u8>>>,
    otherwise: Option<Seq<char>>,
    first: int,
)
    requires
        0 <= first <= files.len(),
        forall|i: int| 0 <= i < first ==> contact_in_file(#[trigger] files[i]) is None,
        first < files.len() ==> contact_in_file(files[first]) is Some,
    ensures
        first_contact(files, otherwise) == if first < files.len() {
            contact_in_file(files[first])
        } else {
            otherwise
        },
    decreases files.len(),
{
    if first > 0 {
        let rest = files.skip(1);
        assert(contact_in_file(files[0]) is None);
        assert forall|i: int| 0 <= i < first - 1 implies contact_in_file(
            #[trigger] rest[i],
        ) is None by {
            assert(rest[i] == files[i + 1]);
        }
        law_first_contact(rest, otherwise, first - 1);
    }
}

/// The files that are read, where `own` is the upstream's own configuration file and
/// `gutenberg` and `openlibrary` are those beside it.
pub open spec fn files_read(
    own: Option<Vec<u8>>,
    gutenberg: Option<Vec<u8>>,
    openlibrary: Option<Vec<u8>>,
) -> Seq<Option<Vec<u8>>> {
    contact_places(true).map_values(
        |d: ContactDirView|
            match d {
                ContactDirView::Own => own,
                ContactDirView::Beside { id } => if id == "gutenberg"@ {
                    gutenberg
                } else {
                    openlibrary
                },
            },
    )
}

/// A contact that is saved for one upstream is found from either: where only one of the
/// two files has a contact, both upstreams are given that one.
pub proof fn law_saved_contact_is_found_from_either(
    gutenberg: Option<Vec<u8>>,
    openlibrary: Option<Vec<u8>>,
    otherwise: Option<Seq<char>>,
)
    requires
        contact_in_file(gutenberg) is Some <==> contact_in_file(openlibrary) is None,
    ensures
        ({
            let saved = if contact_in_file(gutenberg) is Some {
                contact_in_file(gutenberg)
            } else {
                contact_in_file(openlibrary)
            };
            &&& first_contact(files_read(gutenberg, gutenberg, openlibrary), otherwise) == saved
            &&& first_contact(files_read(openlibrary, gutenberg, openlibrary), otherwise) == saved
        }),
{
    reveal_strlit("gutenberg");
    reveal_strlit("openlibrary");
    assert("gutenberg"@ != "openlibrary"@) by {
        assert("gutenberg"@[0] != "openlibrary"@[0]);
    }
    let g = files_read(gutenberg, gutenberg, openlibrary);
    let o = files_read(openlibrary, gutenberg, openlibrary);
    assert(g =~= seq![gutenberg, gutenberg, openlibrary]);
    assert(o =~= seq![openlibrary, gutenberg, openlibrary]);
    if contact_in_file(gutenberg) is Some {
        law_first_contact(g, otherwise, 0);
        law_first_contact(o, otherwise, 1);
    } else {
        law_first_contact(g, otherwise, 2);
        law_first_contact(o, otherwise, 0);
    }
}

/// A contact that is saved on the configuration page is read back as it is sent.
pub proof fn law_saved_contact_reads_back(contact: Seq<char>)
    ensures
        configured_contact(config_view(Some(contact))) == contact_of(contact),
{
    reveal_with_fuel(json::first_member, 2);
}

/// The first `n` characters of `s` are printable ASCII without `)`.
spec fn is_plain(s: Seq<char>, n: nat) -> bool
    decreases n,
{
    n == 0 || (' ' <= s[n - 1] <= '~' && s[n - 1] != ')' && is_plain(s, (n - 1) as nat))
}

proof fn lemma_plain(s: Seq<char>, n: nat, i: int)
    requires
        is_plain(s, n),
        0 <= i < n,
    ensures
        ' ' <= s[i] <= '~',
        s[i] != ')',
    decreases n,
{
    if i < n - 1 {
        lemma_plain(s, (n - 1) as nat, i);
    }
}

proof fn lemma_agent_base(i: int)
    requires
        0 <= i < agent_base().len(),
    ensures
        ' ' <= agent_base()[i] <= '~',
        agent_base()[i] != ')',
{
    reveal_strlit("meta-feeder-book/");
    reveal_strlit("0.1.0");
    reveal_strlit(" (gateway:openlibrary; +https://github.com/worph/meta-feeder-book");
    let a = "meta-feeder-book/"@;
    let b = VERSION@;
    let c = " (gateway:openlibrary; +https://github.com/worph/meta-feeder-book"@;
    reveal_with_fuel(is_plain, 70);
    assert(is_plain(a, a.len()));
    assert(is_plain(b, b.len()));
    assert(is_plain(c, c.len()));
    if i < a.len() {
        lemma_plain(a, a.len(), i);
    } else if i < a.len() + b.len() {
        lemma_plain(b, b.len(), i - a.len());
    } else {
        lemma_plain(c, c.len(), i - a.len() - b.len());
    }
}

/// The `User-Agent` can be sent, whatever contact was given: it is printable ASCII,
/// and its comment is closed once, at its end.
pub proof fn law_user_agent(raw: Seq<char>, i: int)
    requires
        0 <= i < agent(contact_of(raw)).len(),
    ensures
        ' ' <= agent(contact_of(raw))[i] <= '~',
        agent(contact_of(raw))[i] == ')' <==> i == agent(contact_of(raw)).len() - 1,
{
    law_contact(raw);
    reveal_strlit("; ");
    reveal_strlit(")");
    let n = agent_base().len() as int;
    if i < n {
        lemma_agent_base(i);
    } else {
        match contact_of(raw) {
            Some(c) => {
                if n + 2 <= i < n + 2 + c.len() {
                    assert(agent(contact_of(raw))[i] == c[i - n - 2]);
                }
            },
            None => {},
        }
    }
}

/// A client that identifies itself gets a larger budget.
pub proof fn law_identified_gets_more()
    ensures
        budget_size(true).per_second > budget_size(false).per_second,
        budget_size(true).burst > budget_size(false).burst,
        budget_size(false).per_second > 0,
{
}

/// What may stand in a header is printable ASCII, by its code points, but for the two
/// parentheses.
pub proof fn law_header_char(c: char)
    ensures
        is_header_char(c) <==> 32 <= c as u32 <= 126 && c as u32 != 40 && c as u32 != 41,
{
}

proof fn lemma_header_chars_parts(a: Seq<char>, b: Seq<char>)
    ensures
        header_chars(a + b) == header_chars(a) + header_chars(b),
    decreases b.len(),
{
    if b.len() == 0 {
        assert(a + b =~= a);
        reveal(Seq::filter);
        assert(header_chars(a) + header_chars(b) =~= header_chars(a));
    } else {
        let init = b.drop_last();
        lemma_header_chars_parts(a, init);
        lemma_header_chars_push(a + init, b.last());
        lemma_header_chars_push(init, b.last());
        assert(a + b =~= (a + init).push(b.last()));
        assert(b =~= init.push(b.last()));
        assert(header_chars(a + b) =~= header_chars(a) + header_chars(b));
    }
}

/// A text that neither begins nor ends with white space is trimmed as it is.
proof fn lemma_trimmed_already(s: Seq<char>)
    requires
        s.len() > 0,
        !text::is_space(s[0]),
        !text::is_space(s.last()),
    ensures
        text::trimmed(s) == s,
{
    text::law_trimmed(s);
    let t = text::trimmed(s);
    let b = choose|b: int| #[trigger]
        text::occurs_at(s, t, b) && (forall|i: int|
            0 <= i < b || b + t.len() <= i < s.len() ==> text::is_space(#[trigger] s[i]));
    if b > 0 {
        assert(text::is_space(s[0]));
    }
    if b + t.len() < s.len() {
        assert(text::is_space(s[s.len() - 1]));
    }
    assert(s.subrange(0, s.len() as int) =~= s);
}

/// Of what may stand in a header only a space is white space.
proof fn lemma_printable(c: char)
    requires
        is_header_char(c),
        c != ' ',
    ensures
        !text::is_space(c),
{
}

/// A contact that can stand in a header is sent as it is: printable ASCII without
/// parentheses, not padded, and of at most 128 characters. Of a longer one the first 128
/// are sent. What cannot stand in a header is left out wherever it stands, and changes
/// nothing else.
pub proof fn law_contact_is_kept(raw: Seq<char>, a: Seq<char>, c: char, b: Seq<char>)
    ensures
        0 < raw.len() <= 128 && is_header_safe(raw) && raw[0] != ' ' && raw.last() != ' '
            ==> contact_of(raw) == Some(raw),
        raw.len() > 128 && is_header_safe(raw) ==> contact_of(raw) == contact_of(raw.take(128)),
        !is_header_char(c) ==> contact_of(a + seq![c] + b) == contact_of(a + b),
        contact_of(raw) is None <==> text::is_blank(at_most(header_chars(raw), 128)),
{
    lemma_header_chars(raw);
    if 0 < raw.len() <= 128 && is_header_safe(raw) && raw[0] != ' ' && raw.last() != ' ' {
        let last = raw.len() - 1;
        assert(is_header_char(raw[0]));
        assert(is_header_char(raw[last]));
        lemma_printable(raw[0]);
        lemma_printable(raw[last]);
        assert(raw.last() == raw[last]);
        lemma_trimmed_already(raw);
    }
    if raw.len() > 128 && is_header_safe(raw) {
        let head = raw.take(128);
        assert forall|i: int| 0 <= i < head.len() implies is_header_char(#[trigger] head[i]) by {
            assert(head[i] == raw[i]);
        }
        lemma_header_chars(head);
    }
    if !is_header_char(c) {
        let one = seq![c];
        lemma_header_chars_parts(a + one, b);
        lemma_header_chars_parts(a, one);
        lemma_header_chars_parts(a, b);
        lemma_header_chars_push(Seq::empty(), c);
        assert(Seq::<char>::empty().push(c) =~= one);
        reveal(Seq::filter);
        assert(header_chars(one) =~= Seq::<char>::empty());
        assert(header_chars(a) + header_chars(one) =~= header_chars(a));
    }
}

/// No more than the first characters are taken, and all of them where there are no more.
pub proof fn law_at_most(s: Seq<char>, n: nat)
    ensures
        at_most(s, n).len() == if s.len() <= n {
            s.len()
        } else {
            n
        },
        at_most(s, n) == s.take(at_most(s, n).len() as int),
{
    assert(s.take(s.len() as int) =~= s);
}

/// The `User-Agent` names the feeder, its version and where it is to be found, and the
/// contact, where there is one, behind that in the same comment.
pub proof fn law_user_agent_names_the_contact(contact: Seq<char>)
    ensures
        agent(None)
            == "meta-feeder-book/0.1.0 (gateway:openlibrary; +https://github.com/worph/meta-feeder-book)"@,
        agent(Some(contact))
            == "meta-feeder-book/0.1.0 (gateway:openlibrary; +https://github.com/worph/meta-feeder-book; "@
            + contact + ")"@,
{
    reveal_strlit("meta-feeder-book/");
    reveal_strlit("0.1.0");
    reveal_strlit(" (gateway:openlibrary; +https://github.com/worph/meta-feeder-book");
    reveal_strlit("; ");
    reveal_strlit(")");
    reveal_strlit(
        "meta-feeder-book/0.1.0 (gateway:openlibrary; +https://github.com/worph/meta-feeder-book)",
    );
    reveal_strlit(
        "meta-feeder-book/0.1.0 (gateway:openlibrary; +https://github.com/worph/meta-feeder-book; ",
    );
    assert(agent(None)
        =~= "meta-feeder-book/0.1.0 (gateway:openlibrary; +https://github.com/worph/meta-feeder-book)"@);
    assert(agent(Some(contact))
        =~= "meta-feeder-book/0.1.0 (gateway:openlibrary; +https://github.com/worph/meta-feeder-book; "@
        + contact + ")"@);
}

/// A configuration gives the contact that it has under its key, and a file that is no
/// JSON, or a contact that is no text, gives none.
pub proof fn law_configured_contact(config: JsonView, raw: Seq<char>, why: Seq<char>)
    ensures
        config.member("contact"@) == Some(JsonView::Text(raw)) ==> configured_contact(config)
            == contact_of(raw),
        !(config.member("contact"@) matches Some(JsonView::Text(_))) ==> configured_contact(
            config,
        ) is None,
        contact_read(Ok(config)) == configured_contact(config),
        contact_read(Err(why)) is None,
        contact_opt(Some(raw)) == contact_of(raw),
        contact_opt(None) is None,
        contact_in_file(None) is None,
{
}

/// The configuration page shows the contact, and an empty text where there is none.
pub proof fn law_configuration_shows_the_contact(contact: Seq<char>)
    ensures
        config_view(Some(contact)).member("contact"@) == Some(JsonView::Text(contact)),
        config_view(None).member("contact"@) == Some(JsonView::Text(Seq::empty())),
{
    reveal_with_fuel(json::first_member, 2);
}

/// An identified client may make three requests a second and six at once, another one a
/// second and three at once.
pub proof fn law_budget_sizes()
    ensures
        budget_size(true).per_second == 3 && budget_size(true).burst == 6,
        budget_size(false).per_second == 1 && budget_size(false).burst == 3,
{
}

/// A contact is looked for in the upstream's own directory first. Beside it, where there is
/// anything, both upstreams' directories are looked into.
pub proof fn law_where_a_contact_is_looked_for()
    ensures
        contact_places(false).len() == 1,
        contact_places(true).len() == 3,
        contact_places(false)[0] is Own,
        contact_places(true)[0] is Own,
        contact_places(true).contains((ContactDirView::Beside { id: "gutenberg"@ })),
        contact_places(true).contains((ContactDirView::Beside { id: "openlibrary"@ })),
{
    let all = contact_places(true);
    assert(all[1] == (ContactDirView::Beside { id: "gutenberg"@ }));
    assert(all[2] == (ContactDirView::Beside { id: "openlibrary"@ }));
}

} // verus!

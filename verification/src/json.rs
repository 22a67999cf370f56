//! JSON values, as far as the upstreams' answers are read.
use crate::text;
use vstd::prelude::*;

verus! {

/// A JSON value.
///
/// Of a number only its integer readings are kept: as a `u64` and as an `i64`,
/// each where the number is an integer that fits.
#[derive(Debug)]
pub enum Json {
    Null,
    Bool(bool),
    Number { unsigned: Option<u64>, signed: Option<i64> },
    Text(String),
    Array(Vec<Json>),
    Object(Vec<(String, Json)>),
}

/// What a [`Json`] holds.
pub ghost enum JsonView {
    Null,
    Bool(bool),
    Number { unsigned: Option<u64>, signed: Option<i64> },
    Text(Seq<char>),
    Array(Seq<JsonView>),
    Object(Seq<(Seq<char>, JsonView)>),
}

impl JsonView {
    /// The value of an object's member `key`.
    pub open spec fn member(self, key: Seq<char>) -> Option<JsonView> {
        match self {
            JsonView::Object(members) => first_member(members, key),
            _ => None,
        }
    }

    pub open spec fn text(self) -> Option<Seq<char>> {
        match self {
            JsonView::Text(s) => Some(s),
            _ => None,
        }
    }

    pub open spec fn items(self) -> Option<Seq<JsonView>> {
        match self {
            JsonView::Array(items) => Some(items),
            _ => None,
        }
    }

    pub open spec fn unsigned(self) -> Option<u64> {
        match self {
            JsonView::Number { unsigned, .. } => unsigned,
            _ => None,
        }
    }

    pub open spec fn signed(self) -> Option<i64> {
        match self {
            JsonView::Number { signed, .. } => signed,
            _ => None,
        }
    }
}

/// The value of the first of `members` that is named `key`.
pub open spec fn first_member(members: Seq<(Seq<char>, JsonView)>, key: Seq<char>) -> Option<
    JsonView,
>
    decreases members.len(),
{
    if members.len() == 0 {
        None
    } else if members[0].0 == key {
        Some(members[0].1)
    } else {
        first_member(members.skip(1), key)
    }
}

/// The member `key` of a value that may be absent.
pub open spec fn member_of(value: Option<JsonView>, key: Seq<char>) -> Option<JsonView> {
    match value {
        Some(v) => v.member(key),
        None => None,
    }
}

/// The text of a value that may be absent.
pub open spec fn text_of(value: Option<JsonView>) -> Option<Seq<char>> {
    match value {
        Some(v) => v.text(),
        None => None,
    }
}

/// The items of a value that may be absent; none where it is no array.
pub open spec fn items_of(value: Option<JsonView>) -> Seq<JsonView> {
    match value {
        Some(JsonView::Array(items)) => items,
        _ => Seq::empty(),
    }
}

pub open spec fn views(items: Seq<Json>) -> Seq<JsonView> {
    items.map_values(|j: Json| j@)
}

pub open spec fn member_views(members: Seq<(String, Json)>) -> Seq<(Seq<char>, JsonView)> {
    members.map_values(|m: (String, Json)| (m.0@, m.1@))
}

pub open spec fn value_opt(value: Option<Json>) -> Option<JsonView> {
    match value {
        Some(j) => Some(j@),
        None => None,
    }
}

pub open spec fn json_opt(value: Option<&Json>) -> Option<JsonView> {
    match value {
        Some(j) => Some(j@),
        None => None,
    }
}

impl Json {
    pub open spec fn view(self) -> JsonView
        decreases self,
    {
        match self {
            Json::Null => JsonView::Null,
            Json::Bool(b) => JsonView::Bool(b),
            Json::Number { unsigned, signed } => JsonView::Number { unsigned, signed },
            Json::Text(s) => JsonView::Text(s@),
            Json::Array(items) => JsonView::Array(
                Seq::new(
                    items@.len(),
                    |i: int|
                        if 0 <= i < items@.len() {
                            items@[i].view()
                        } else {
                            JsonView::Null
                        },
                ),
            ),
            Json::Object(members) => JsonView::Object(
                Seq::new(
                    members@.len(),
                    |i: int|
                        if 0 <= i < members@.len() {
                            (members@[i].0@, members@[i].1.view())
                        } else {
                            (Seq::empty(), JsonView::Null)
                        },
                ),
            ),
        }
    }

    /// The view of an array is made of the views of its items, and that of an
    /// object of the views of its members.
    pub proof fn lemma_view(self)
        ensures
            self matches Json::Array(items) ==> self@ == JsonView::Array(views(items@)),
            self matches Json::Object(members) ==> self@ == JsonView::Object(
                member_views(members@),
            ),
    {
        match self {
            Json::Array(items) => {
                assert(self@->Array_0 =~= views(items@));
            },
            Json::Object(members) => {
                assert(self@->Object_0 =~= member_views(members@));
            },
            _ => {},
        }
    }

    /// The value of an object's member `key`.
    pub fn get(&self, key: &str) -> (r: Option<&Json>)
        ensures
            json_opt(r) == self@.member(key@),
    {
        proof {
            self.lemma_view();
        }
        match self {
            Json::Object(members) => {
                let mut i: usize = 0;
                let ghost all = member_views(members@);
                assert(all.skip(0) == all);
                while i < members.len()
                    invariant
                        i <= members@.len(),
                        all == member_views(members@),
                        first_member(all, key@) == first_member(all.skip(i as int), key@),
                        self@.member(key@) == first_member(all, key@),
                    decreases members@.len() - i,
                {
                    assert(all.skip(i as int)[0] == (
                        members@[i as int].0@,
                        members@[i as int].1@,
                    ));
                    if text::same(members[i].0.as_str(), key) {
                        return Some(&members[i].1);
                    }
                    assert(all.skip(i as int).skip(1) == all.skip(i + 1));
                    i += 1;
                }
                None
            },
            _ => None,
        }
    }

    /// The text of a string.
    pub fn as_str(&self) -> (r: Option<&str>)
        ensures
            text::str_opt(r) == self@.text(),
    {
        match self {
            Json::Text(s) => Some(s.as_str()),
            _ => None,
        }
    }

    /// The items of an array.
    pub fn as_array(&self) -> (r: Option<&Vec<Json>>)
        ensures
            match r {
                Some(items) => self@ == JsonView::Array(views(items@)),
                None => !(self@ is Array),
            },
    {
        proof {
            self.lemma_view();
        }
        match self {
            Json::Array(items) => Some(items),
            _ => None,
        }
    }

    /// A number's reading as a `u64`.
    pub fn as_u64(&self) -> (r: Option<u64>)
        ensures
            r == self@.unsigned(),
    {
        match self {
            Json::Number { unsigned, .. } => *unsigned,
            _ => None,
        }
    }

    /// A number's reading as an `i64`.
    pub fn as_i64(&self) -> (r: Option<i64>)
        ensures
            r == self@.signed(),
    {
        match self {
            Json::Number { signed, .. } => *signed,
            _ => None,
        }
    }
}

/// The text of the member `key` of `value`, where both are there.
pub fn text_member<'a>(value: &'a Json, key: &str) -> (r: Option<&'a str>)
    ensures
        text::str_opt(r) == text_of(value@.member(key@)),
{
    match value.get(key) {
        Some(v) => v.as_str(),
        None => None,
    }
}

// ---------------------------------------------------------------------------
// Reading JSON text
// ---------------------------------------------------------------------------
/// A value of the `serde_json` crate.
#[verifier::external_type_specification]
#[verifier::external_body]
pub struct ExValue(serde_json::Value);

/// What a `serde_json::Value` holds.
pub uninterp spec fn tree(value: serde_json::Value) -> JsonView;

/// What `serde_json::from_slice` reads from `bytes`: a value, or the text of the
/// error.
pub uninterp spec fn document(bytes: Seq<u8>) -> Result<JsonView, Seq<char>>;

/// What a reading gave: the value's contents, or the error's text.
pub open spec fn read_out(r: Result<serde_json::Value, String>) -> Result<JsonView, Seq<char>> {
    match r {
        Ok(v) => Ok(tree(v)),
        Err(e) => Err(e@),
    }
}

/// What [`parse`] gave: the value's contents, or the error's text.
pub open spec fn parsed(r: Result<Json, String>) -> Result<JsonView, Seq<char>> {
    match r {
        Ok(v) => Ok(v@),
        Err(e) => Err(e@),
    }
}

/// The value that was read, whatever the error was where there is none.
pub open spec fn value_in(document: Result<JsonView, Seq<char>>) -> Option<JsonView> {
    match document {
        Ok(value) => Some(value),
        Err(_) => None,
    }
}

/// `serde_json::from_slice`. What it reads is a function of the bytes alone, which
/// `document` names; which bytes are JSON, and what they say, is left to the crate.
#[verifier::external_body]
fn from_slice(bytes: &[u8]) -> (r: Result<serde_json::Value, String>)
    ensures
        read_out(r) == document(bytes@),
{
    serde_json::from_slice(bytes).map_err(|e| e.to_string())
}

/// Moves a `serde_json::Value` over into a [`Json`] that holds the same: the
/// variants one for one, a number by `Number::as_u64` and `Number::as_i64`, the
/// members of an object in the order in which `Map::into_iter` hands them out.
#[verifier::external_body]
fn json_of(value: serde_json::Value) -> (r: Json)
    ensures
        r@ == tree(value),
{
    match value {
        serde_json::Value::Null => Json::Null,
        serde_json::Value::Bool(b) => Json::Bool(b),
        serde_json::Value::Number(n) => Json::Number { unsigned: n.as_u64(), signed: n.as_i64() },
        serde_json::Value::String(s) => Json::Text(s),
        serde_json::Value::Array(a) => Json::Array(a.into_iter().map(json_of).collect()),
        serde_json::Value::Object(o) => {
            Json::Object(o.into_iter().map(|(k, v)| (k, json_of(v))).collect())
        },
    }
}

/// Reads JSON text. An error is given as its text.
pub fn parse(bytes: &[u8]) -> (r: Result<Json, String>)
    ensures
        parsed(r) == document(bytes@),
{
    match from_slice(bytes) {
        Ok(v) => Ok(json_of(v)),
        Err(e) => Err(e),
    }
}

/// The value that a `serde_json::Value` holds.
pub fn of_value(value: serde_json::Value) -> (r: Json)
    ensures
        r@ == tree(value),
{
    json_of(value)
}

// ---------------------------------------------------------------------------
// Laws
// ---------------------------------------------------------------------------
/// The value of an object's member is that of the first member of that name, and there is
/// one wherever a member has that name. What is no object has no members.
pub proof fn law_member(value: JsonView, members: Seq<(Seq<char>, JsonView)>, key: Seq<char>)
    ensures
        match JsonView::Object(members).member(key) {
            Some(v) => exists|i: int|
                0 <= i < members.len() && #[trigger] members[i] == (key, v) && forall|j: int|
                    0 <= j < i ==> (#[trigger] members[j]).0 != key,
            None => forall|i: int| 0 <= i < members.len() ==> (#[trigger] members[i]).0 != key,
        },
        !(value is Object) ==> value.member(key) is None,
    decreases members.len(),
{
    if members.len() > 0 {
        if members[0].0 == key {
            assert(members[0] == (key, members[0].1));
        } else {
            let rest = members.skip(1);
            law_member(value, rest, key);
            match JsonView::Object(rest).member(key) {
                Some(v) => {
                    let i = choose|i: int|
                        0 <= i < rest.len() && #[trigger] rest[i] == (key, v) && forall|j: int|
                            0 <= j < i ==> (#[trigger] rest[j]).0 != key;
                    assert(members[i + 1] == (key, v));
                    assert forall|j: int| 0 <= j < i + 1 implies (
                    #[trigger] members[j]).0 != key by {
                        if j > 0 {
                            assert(rest[j - 1] == members[j]);
                        }
                    }
                },
                None => {
                    assert forall|i: int| 0 <= i < members.len() implies (
                    #[trigger] members[i]).0 != key by {
                        if i > 0 {
                            assert(rest[i - 1] == members[i]);
                        }
                    }
                },
            }
        }
    }
}

/// A member before the others is found under its name and hides no other.
pub proof fn law_member_in_front(
    members: Seq<(Seq<char>, JsonView)>,
    name: Seq<char>,
    value: JsonView,
    key: Seq<char>,
)
    ensures
        JsonView::Object(seq![(name, value)] + members).member(key) == if name == key {
            Some(value)
        } else {
            JsonView::Object(members).member(key)
        },
{
    let all = seq![(name, value)] + members;
    assert(all.skip(1) =~= members);
}

/// A string reads as its text, an array as its items, a number as its integers, and
/// nothing reads as what it is not.
pub proof fn law_readings(v: JsonView, s: Seq<char>, items: Seq<JsonView>, n: u64, z: i64)
    ensures
        text_of(Some(JsonView::Text(s))) == Some(s),
        items_of(Some(JsonView::Array(items))) == items,
        (JsonView::Number { unsigned: Some(n), signed: Some(z) }).unsigned() == Some(n),
        (JsonView::Number { unsigned: Some(n), signed: Some(z) }).signed() == Some(z),
        !(v is Text) ==> text_of(Some(v)) is None,
        !(v is Array) ==> items_of(Some(v)).len() == 0,
        !(v is Number) ==> v.unsigned() is None && v.signed() is None,
        text_of(None) is None,
        items_of(None).len() == 0,
{
}

} // verus!

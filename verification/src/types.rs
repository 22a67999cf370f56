//! The plain values that the feeder and the gateway exchange.
use crate::table::Table;
use crate::text;
use vstd::prelude::*;

verus! {

/// A query, as far as the feeder reads it: the words that were typed, and the
/// values asked for by field.
#[derive(Debug)]
pub struct GatewayQuery {
    pub free_text: String,
    pub filters: Table<Vec<String>>,
}

/// What a [`GatewayQuery`] asks.
pub ghost struct GatewayQueryView {
    pub free_text: Seq<char>,
    pub filters: Map<Seq<char>, Seq<String>>,
}

impl View for GatewayQuery {
    type V = GatewayQueryView;

    open spec fn view(&self) -> GatewayQueryView {
        GatewayQueryView { free_text: self.free_text@, filters: self.filters@ }
    }
}

impl GatewayQueryView {
    /// The values asked for at `key`.
    pub open spec fn values(self, key: Seq<char>) -> Seq<Seq<char>> {
        if self.filters.contains_key(key) {
            text::texts(self.filters[key])
        } else {
            Seq::empty()
        }
    }

    /// Whether one of the values at `key` reads `true`, in any case of letters.
    pub open spec fn is_true(self, key: Seq<char>) -> bool {
        exists|i: int|
            0 <= i < self.values(key).len() && text::equal_ignoring_ascii_case(
                #[trigger] self.values(key)[i],
                "true"@,
            )
    }

    /// The first value at `key` that is not blank, trimmed.
    pub open spec fn first_value(self, key: Seq<char>) -> Option<Seq<char>> {
        first_filled(self.values(key))
    }
}

/// The first of `values` that is not blank, trimmed.
pub open spec fn first_filled(values: Seq<Seq<char>>) -> Option<Seq<char>>
    decreases values.len(),
{
    if values.len() == 0 {
        None
    } else if !text::is_blank(values[0]) {
        Some(text::trimmed(values[0]))
    } else {
        first_filled(values.skip(1))
    }
}

impl GatewayQuery {
    /// A query for `free_text` without filters.
    pub fn from_free_text(free_text: &str) -> (r: Self)
        ensures
            r@ == (GatewayQueryView { free_text: free_text@, filters: Map::empty() }),
    {
        GatewayQuery { free_text: free_text.to_owned(), filters: Table::new() }
    }
}

/// One record that the feeder found.
#[derive(Debug)]
pub struct DiscoveryRecord {
    pub upstream_id: String,
    pub record_id: String,
    pub fields: Table<String>,
}

/// What a [`DiscoveryRecord`] says.
#[verifier::ext_equal]
pub ghost struct DiscoveryRecordView {
    pub upstream_id: Seq<char>,
    pub record_id: Seq<char>,
    pub fields: Map<Seq<char>, Seq<char>>,
}

impl View for DiscoveryRecord {
    type V = DiscoveryRecordView;

    open spec fn view(&self) -> DiscoveryRecordView {
        DiscoveryRecordView {
            upstream_id: self.upstream_id@,
            record_id: self.record_id@,
            fields: self.fields@,
        }
    }
}

/// What a record that may be absent says.
pub open spec fn record_opt(r: Option<DiscoveryRecord>) -> Option<DiscoveryRecordView> {
    match r {
        Some(r) => Some(r@),
        None => None,
    }
}

/// What a list of records says.
pub open spec fn record_views(list: Seq<DiscoveryRecord>) -> Seq<DiscoveryRecordView> {
    list.map_values(|r: DiscoveryRecord| r@)
}

/// Why a request was not answered.
#[derive(Debug)]
pub enum GatewayError {
    /// There is no such thing.
    NotFound,
    /// The upstream asks for a pause.
    RateLimited { retry_after_s: u64 },
    /// Worth asking again.
    Transient(String),
    /// Not worth asking again.
    Permanent(String),
}

/// What a [`GatewayError`] says.
pub ghost enum GatewayErrorView {
    NotFound,
    RateLimited { retry_after_s: u64 },
    Transient(Seq<char>),
    Permanent(Seq<char>),
}

impl View for GatewayError {
    type V = GatewayErrorView;

    open spec fn view(&self) -> GatewayErrorView {
        match self {
            GatewayError::NotFound => GatewayErrorView::NotFound,
            GatewayError::RateLimited { retry_after_s } => GatewayErrorView::RateLimited {
                retry_after_s: *retry_after_s,
            },
            GatewayError::Transient(m) => GatewayErrorView::Transient(m@),
            GatewayError::Permanent(m) => GatewayErrorView::Permanent(m@),
        }
    }
}

/// Whether an upstream can answer.
#[derive(Debug)]
pub enum PluginHealth {
    Healthy,
    Degraded { reason: String },
}

/// What kind of address a hash is.
#[derive(Debug, Clone, Copy, PartialEq, Eq, Structural)]
pub enum HashKind {
    /// The content address of bytes.
    Sha2_256,
    /// The address of a card, which has no bytes.
    CardLocator,
}

/// The address of a record, with what was found at it.
#[derive(Debug)]
pub struct HashOutcome {
    pub hash: String,
    pub hash_kind: HashKind,
    pub bytes: Option<Vec<u8>>,
    pub record: Option<DiscoveryRecord>,
    pub file_extension: Option<String>,
}

/// One line of an upstream's configuration page.
#[derive(Debug)]
pub struct ConfigField {
    pub key: &'static str,
    pub label: &'static str,
    pub help: &'static str,
}

// ---------------------------------------------------------------------------
// Laws
// ---------------------------------------------------------------------------
/// The first value that is not blank decides, without the white space around it. There is
/// none only where every value is blank.
pub proof fn law_first_filled(values: Seq<Seq<char>>)
    ensures
        match first_filled(values) {
            Some(t) => exists|i: int|
                0 <= i < values.len() && !text::is_blank(#[trigger] values[i]) && t
                    == text::trimmed(values[i]) && forall|j: int|
                    0 <= j < i ==> text::is_blank(#[trigger] values[j]),
            None => forall|i: int| 0 <= i < values.len() ==> text::is_blank(#[trigger] values[i]),
        },
    decreases values.len(),
{
    if values.len() > 0 {
        if !text::is_blank(values[0]) {
            assert(first_filled(values) == Some(text::trimmed(values[0])));
        } else {
            let rest = values.skip(1);
            law_first_filled(rest);
            match first_filled(rest) {
                Some(t) => {
                    let i = choose|i: int|
                        0 <= i < rest.len() && !text::is_blank(#[trigger] rest[i]) && t
                            == text::trimmed(rest[i]) && forall|j: int|
                            0 <= j < i ==> text::is_blank(#[trigger] rest[j]);
                    assert(values[i + 1] == rest[i]);
                    assert forall|j: int| 0 <= j < i + 1 implies text::is_blank(
                        #[trigger] values[j],
                    ) by {
                        if j > 0 {
                            assert(rest[j - 1] == values[j]);
                        }
                    }
                },
                None => {
                    assert forall|i: int| 0 <= i < values.len() implies text::is_blank(
                        #[trigger] values[i],
                    ) by {
                        if i > 0 {
                            assert(rest[i - 1] == values[i]);
                        }
                    }
                },
            }
        }
    }
}

/// A query is read by its filters: where `key` has none there is no value and nothing is
/// true, and where it has, each value counts. `true` is true in any case of letters, as
/// whichever of the values it stands.
pub proof fn law_filters(q: GatewayQueryView, key: Seq<char>, i: int)
    ensures
        !q.filters.contains_key(key) ==> q.first_value(key) is None && !q.is_true(key),
        q.filters.contains_key(key) && 0 <= i < q.filters[key].len() ==> {
            &&& q.values(key).len() == q.filters[key].len()
            &&& q.values(key)[i] == q.filters[key][i]@
            &&& text::equal_ignoring_ascii_case(q.filters[key][i]@, "true"@) ==> q.is_true(key)
            &&& !text::is_blank(q.filters[key][i]@) ==> q.first_value(key) is Some
        },
        q.is_true(key) ==> exists|j: int|
            0 <= j < q.values(key).len() && text::equal_ignoring_ascii_case(
                #[trigger] q.values(key)[j],
                "true"@,
            ),
{
    let values = q.values(key);
    law_first_filled(values);
    if q.filters.contains_key(key) && 0 <= i < q.filters[key].len() {
        assert(values[i] == q.filters[key][i]@);
    }
}

} // verus!

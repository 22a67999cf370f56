//! Reading a query.
use crate::text;
use crate::types::{first_filled, GatewayQuery, GatewayQueryView};
use vstd::prelude::*;

verus! {

/// The first value for `key` that is not blank, trimmed.
pub fn first_filter(q: &GatewayQuery, key: &str) -> (r: Option<String>)
    ensures
        text::text_opt(r) == q@.first_value(key@),
{
    let values = match q.filters.get(key) {
        Some(v) => v,
        None => {
            return None;
        },
    };
    let ghost all = text::texts(values@);
    let mut i: usize = 0;
    assert(all.skip(0) == all);
    while i < values.len()
        invariant
            i <= values@.len(),
            all == text::texts(values@),
            all == q@.values(key@),
            first_filled(all) == first_filled(all.skip(i as int)),
        decreases values@.len() - i,
    {
        assert(all.skip(i as int)[0] == values@[i as int]@);
        assert(all.skip(i as int).skip(1) == all.skip(i + 1));
        let t = text::trim(values[i].as_str());
        if !t.is_empty() {
            return Some(t.to_owned());
        }
        i += 1;
    }
    None
}

/// Whether one of the values for `key` is `true`, in any case of letters.
pub fn filter_is_true(q: &GatewayQuery, key: &str) -> (r: bool)
    ensures
        r == q@.is_true(key@),
{
    let values = match q.filters.get(key) {
        Some(v) => v,
        None => {
            return false;
        },
    };
    let ghost all = text::texts(values@);
    let mut i: usize = 0;
    while i < values.len()
        invariant
            i <= values@.len(),
            all == text::texts(values@),
            all == q@.values(key@),
            forall|k: int|
                0 <= k < i ==> !text::equal_ignoring_ascii_case(#[trigger] all[k], "true"@),
        decreases values@.len() - i,
    {
        assert(all[i as int] == values@[i as int]@);
        if text::eq_ignore_ascii_case(values[i].as_str(), "true") {
            return true;
        }
        i += 1;
    }
    false
}

/// A curated row.
#[derive(Debug, Clone, Copy, PartialEq, Eq, Structural)]
pub enum Browse {
    Popular,
    Fresh,
}

/// The row that a query without words asks for.
pub open spec fn row_of(q: GatewayQueryView) -> Option<Browse> {
    if !text::is_blank(q.free_text) {
        None
    } else if q.is_true("fresh"@) {
        Some(Browse::Fresh)
    } else if q.is_true("popular"@) || q.is_true("trending"@) {
        Some(Browse::Popular)
    } else {
        None
    }
}

/// The curated row that a query asks for: `popular:true` or `fresh:true`, without
/// free text.
pub fn browse_kind(q: &GatewayQuery) -> (r: Option<Browse>)
    ensures
        r == row_of(q@),
{
    if !text::trim(q.free_text.as_str()).is_empty() {
        return None;
    }
    if filter_is_true(q, "fresh") {
        return Some(Browse::Fresh);
    }
    if filter_is_true(q, "popular") || filter_is_true(q, "trending") {
        return Some(Browse::Popular);
    }
    None
}

/// A MusicBrainz id, such as `mbReleaseGroupId`: `mb` and a capital letter.
pub open spec fn is_musicbrainz_key(key: Seq<char>) -> bool {
    key.len() > 2 && key[0] == 'm' && key[1] == 'b' && 'A' <= key[2] <= 'Z'
}

/// A filter that names something by an identity that is not this upstream's, or a
/// part of a work.
pub open spec fn is_foreign(key: Seq<char>) -> bool {
    ||| key == "anilistid"@
    ||| key == "workcid"@
    ||| key == "chapterNumber"@
    ||| key == "volumeNumber"@
    ||| key == "chapterStart"@
    ||| key == "chapterEnd"@
    ||| key == "tmdbid"@
    ||| key == "imdbid"@
    ||| key == "tvdbid"@
    ||| key == "gutenbergid"@
    ||| key == "isbn"@
    ||| key == "olEditionId"@
    ||| key == "isrc"@
    ||| key == "doi"@
    ||| is_musicbrainz_key(key)
}

/// A query carries a foreign identity filter.
pub open spec fn has_foreign_filter(q: GatewayQueryView) -> bool {
    exists|key: Seq<char>| #[trigger] q.filters.contains_key(key) && is_foreign(key)
}

fn is_foreign_key(key: &str) -> (r: bool)
    ensures
        r == is_foreign(key@),
{
    let v = text::chars_of(key);
    let musicbrainz = v.len() > 2 && v[0] == 'm' && v[1] == 'b' && 'A' <= v[2] && v[2] <= 'Z';
    musicbrainz || text::same(key, "anilistid") || text::same(key, "workcid") || text::same(
        key,
        "chapterNumber",
    ) || text::same(key, "volumeNumber") || text::same(key, "chapterStart") || text::same(
        key,
        "chapterEnd",
    ) || text::same(key, "tmdbid") || text::same(key, "imdbid") || text::same(key, "tvdbid")
        || text::same(key, "gutenbergid") || text::same(key, "isbn") || text::same(
        key,
        "olEditionId",
    ) || text::same(key, "isrc") || text::same(key, "doi")
}

/// A filter of `q` that this upstream cannot answer, where there is one.
///
/// A query that names something by an identity that is not understood here must be
/// answered with nothing. Its words must not be searched for instead.
pub fn foreign_identity_filter(q: &GatewayQuery) -> (r: Option<&str>)
    ensures
        match r {
            Some(key) => q@.filters.contains_key(key@) && is_foreign(key@),
            None => !has_foreign_filter(q@),
        },
{
    let n: usize = q.filters.len();
    let mut i: usize = 0;
    while i < n
        invariant
            i <= n,
            n == q.filters.keys().len(),
            forall|k: int| 0 <= k < i ==> !is_foreign(#[trigger] q.filters.keys()[k]),
        decreases n - i,
    {
        let (key, _) = q.filters.entry(i);
        if is_foreign_key(key) {
            return Some(key);
        }
        i += 1;
    }
    proof {
        if has_foreign_filter(q@) {
            let key = choose|key: Seq<char>| #[trigger]
                q@.filters.contains_key(key) && is_foreign(key);
            assert(q.filters.keys().contains(key));
        }
    }
    None
}

// ---------------------------------------------------------------------------
// Laws
// ---------------------------------------------------------------------------
/// A row is asked for by a marker and by no words. `fresh` wins over the others, and
/// `popular` and `trending` ask for the same row.
pub proof fn law_rows_are_asked_for_by_markers(q: GatewayQueryView)
    ensures
        row_of(q) is Some <==> text::is_blank(q.free_text) && (q.is_true("fresh"@) || q.is_true(
            "popular"@,
        ) || q.is_true("trending"@)),
        row_of(q) is Some ==> (row_of(q) == Some(Browse::Fresh) <==> q.is_true("fresh"@)),
{
}

/// The filters that name something by an identity that is not this upstream's: those of
/// comics, of parts of a work, of video, of editions, of recordings and of papers, and
/// those that begin with `mb` and a capital letter. No other filter is one.
pub proof fn law_foreign_filters(q: GatewayQueryView, key: Seq<char>, names: Seq<Seq<char>>)
    requires
        names == seq![
            "anilistid"@,
            "workcid"@,
            "chapterNumber"@,
            "volumeNumber"@,
            "chapterStart"@,
            "chapterEnd"@,
            "tmdbid"@,
            "imdbid"@,
            "tvdbid"@,
            "gutenbergid"@,
            "isbn"@,
            "olEditionId"@,
            "isrc"@,
            "doi"@,
        ],
    ensures
        is_foreign(key) <==> names.contains(key) || (key.len() >= 3 && key[0] == 'm' && key[1]
            == 'b' && 'A' <= key[2] <= 'Z'),
        q.filters.contains_key(key) && is_foreign(key) ==> has_foreign_filter(q),
        has_foreign_filter(q) ==> exists|k: Seq<char>| #[trigger]
            q.filters.contains_key(k) && is_foreign(k),
{
    assert(names[0] == "anilistid"@ && names[1] == "workcid"@ && names[2] == "chapterNumber"@
        && names[3] == "volumeNumber"@ && names[4] == "chapterStart"@ && names[5]
        == "chapterEnd"@ && names[6] == "tmdbid"@ && names[7] == "imdbid"@ && names[8]
        == "tvdbid"@ && names[9] == "gutenbergid"@ && names[10] == "isbn"@ && names[11]
        == "olEditionId"@ && names[12] == "isrc"@ && names[13] == "doi"@);
    if names.contains(key) {
        let i = names.index_of(key);
        assert(0 <= i < 14 && names[i] == key);
        assert(i == 0 || i == 1 || i == 2 || i == 3 || i == 4 || i == 5 || i == 6 || i == 7 || i
            == 8 || i == 9 || i == 10 || i == 11 || i == 12 || i == 13);
        assert(is_foreign(key));
    } else if is_foreign(key) && !is_musicbrainz_key(key) {
        assert(names.len() == 14);
        assert(names.contains(names[0]) && names.contains(names[1]) && names.contains(names[2])
            && names.contains(names[3]) && names.contains(names[4]) && names.contains(names[5])
            && names.contains(names[6]) && names.contains(names[7]) && names.contains(names[8])
            && names.contains(names[9]) && names.contains(names[10]) && names.contains(names[11])
            && names.contains(names[12]) && names.contains(names[13]));
    }
}

} // verus!

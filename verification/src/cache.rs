//! Answers that are kept, and for how long they serve.
//!
//! Lists change by the hour or the day, works and author names rarely. Only answers
//! are kept: that an upstream did not answer is never remembered as "nothing here".
use crate::json::{self, Json, JsonView};
use crate::openlibrary_client::{BINDING_HIT_TTL_SECS, BINDING_MISS_TTL_SECS};
use crate::send;
use crate::text;
use crate::types::{GatewayError, GatewayErrorView};
use vstd::prelude::*;

verus! {

/// An answer, and when it came.
#[derive(Debug)]
pub struct Cached {
    pub at: u64,
    pub body: Json,
}

/// An answer, and when it came.
#[verifier::ext_equal]
pub ghost struct CachedView {
    pub at: u64,
    pub body: JsonView,
}

impl View for Cached {
    type V = CachedView;

    open spec fn view(&self) -> CachedView {
        CachedView { at: self.at, body: self.body@ }
    }
}

/// What is kept after a reply that came at `at`, of which `body` is kept: that, else
/// what was kept before.
pub open spec fn kept_after(kept: Option<CachedView>, at: u64, body: Option<JsonView>) -> Option<
    CachedView,
> {
    match body {
        Some(body) => Some(CachedView { at, body }),
        None => kept,
    }
}

/// An answer that came at `at` is still good at `now`. One from the future is.
pub open spec fn still_good(now: u64, at: u64, ttl_secs: u64) -> bool {
    now - at <= ttl_secs
}

pub fn is_fresh(now: u64, at: u64, ttl_secs: u64) -> (r: bool)
    ensures
        r == still_good(now, at, ttl_secs),
{
    now <= at || now - at <= ttl_secs
}

pub open spec fn kept_view(kept: Option<Cached>) -> Option<CachedView> {
    match kept {
        Some(c) => Some(c@),
        None => None,
    }
}

/// The kept answer that serves at `now`, if it still does.
pub open spec fn served(kept: Option<CachedView>, now: u64, ttl_secs: u64) -> Option<JsonView> {
    match kept {
        Some(c) => if still_good(now, c.at, ttl_secs) {
            Some(c.body)
        } else {
            None
        },
        None => None,
    }
}

/// The kept answer that serves at `now`, if it still does.
pub fn serve_cached(cached: Option<Cached>, now: u64, ttl_secs: u64) -> (r: Option<Json>)
    ensures
        json::value_opt(r) == served(kept_view(cached), now, ttl_secs),
{
    match cached {
        Some(c) => if is_fresh(now, c.at, ttl_secs) {
            Some(c.body)
        } else {
            None
        },
        None => None,
    }
}

/// How long the link that `body` keeps is good: longer where there is one.
pub open spec fn binding_ttl(body: JsonView) -> u64 {
    if json::text_of(body.member("work"@)) is Some {
        BINDING_HIT_TTL_SECS
    } else {
        BINDING_MISS_TTL_SECS
    }
}

/// The kept link of an etext that serves at `now`: the work, or that there is none.
pub open spec fn served_binding(kept: Option<CachedView>, now: u64) -> Option<Option<Seq<char>>> {
    match kept {
        Some(c) => if still_good(now, c.at, binding_ttl(c.body)) {
            Some(json::text_of(c.body.member("work"@)))
        } else {
            None
        },
        None => None,
    }
}

/// The kept link of an etext that serves at `now`: the work, or that there is none.
pub fn cached_binding(cached: Option<&Cached>, now: u64) -> (r: Option<Option<String>>)
    ensures
        match r {
            Some(work) => Some(text::text_opt(work)),
            None => None,
        } == match cached {
            Some(c) => served_binding(Some(c@), now),
            None => None,
        },
{
    match cached {
        Some(c) => {
            let work = json::text_member(&c.body, "work");
            let ttl: u64 = if work.is_some() {
                BINDING_HIT_TTL_SECS
            } else {
                BINDING_MISS_TTL_SECS
            };
            if is_fresh(now, c.at, ttl) {
                match work {
                    Some(w) => Some(Some(w.to_owned())),
                    None => Some(None),
                }
            } else {
                None
            }
        },
        None => None,
    }
}

/// What of a reply is kept: an answer, never a failure.
pub open spec fn body_to_keep(reply: Result<JsonView, GatewayErrorView>) -> Option<JsonView> {
    match reply {
        Ok(body) => Some(body),
        Err(_) => None,
    }
}

/// What of a reply is kept: an answer, never a failure.
pub fn to_keep(reply: &Result<Json, GatewayError>) -> (r: Option<&Json>)
    ensures
        json::json_opt(r) == body_to_keep(send::reply_view(*reply)),
{
    match reply {
        Ok(body) => Some(body),
        Err(_) => None,
    }
}

/// The form in which the link of an etext is kept.
pub open spec fn kept_binding(work: Option<Seq<char>>) -> JsonView {
    JsonView::Object(
        seq![
            (
                "work"@,
                match work {
                    Some(w) => JsonView::Text(w),
                    None => JsonView::Null,
                },
            ),
        ],
    )
}

/// The form in which the link of an etext is kept.
pub fn binding_body(work: Option<&str>) -> (r: Json)
    ensures
        r@ == kept_binding(text::str_opt(work)),
{
    let value = match work {
        Some(w) => Json::Text(w.to_owned()),
        None => Json::Null,
    };
    let ghost v = value@;
    let members = vec![("work".to_owned(), value)];
    let r = Json::Object(members);
    proof {
        r.lemma_view();
        assert(json::member_views(members@) =~= seq![("work"@, v)]);
    }
    r
}

/// What of the lookup of a link is kept: the link, or that there is none, and never
/// that the lookup failed.
pub open spec fn link_to_keep(answer: Result<Option<Seq<char>>, GatewayErrorView>) -> Option<
    JsonView,
> {
    match answer {
        Ok(work) => Some(kept_binding(work)),
        Err(_) => None,
    }
}

/// How the lookup of a link came out.
pub open spec fn link_view(answer: Result<Option<String>, GatewayError>) -> Result<
    Option<Seq<char>>,
    GatewayErrorView,
> {
    match answer {
        Ok(work) => Ok(text::text_opt(work)),
        Err(e) => Err(e@),
    }
}

/// What of the lookup of a link is kept, in the form of [`binding_body`]: nothing where
/// it failed.
pub fn binding_to_keep(answer: &Result<Option<String>, GatewayError>) -> (r: Option<Json>)
    ensures
        json::value_opt(r) == link_to_keep(link_view(*answer)),
{
    match answer {
        Ok(Some(work)) => Some(binding_body(Some(work.as_str()))),
        Ok(None) => Some(binding_body(None)),
        Err(_) => None,
    }
}

// ---------------------------------------------------------------------------
// Laws
// ---------------------------------------------------------------------------
/// The kept link of an etext reads back as it was written, and a missing link is
/// asked again sooner than a link.
pub proof fn law_kept_binding_reads_back(work: Option<Seq<char>>)
    ensures
        json::text_of(kept_binding(work).member("work"@)) == work,
        binding_ttl(kept_binding(work)) == if work is Some {
            BINDING_HIT_TTL_SECS
        } else {
            BINDING_MISS_TTL_SECS
        },
        BINDING_MISS_TTL_SECS < BINDING_HIT_TTL_SECS,
{
    reveal_with_fuel(json::first_member, 2);
}

/// A link that was looked up is served as it came, and no request is sent, for as long as
/// its lifetime lasts: that of a link, or that of a missing one. Afterwards it is asked
/// again. A lookup that failed leaves what was kept as it was, so where it was asked
/// because nothing served, nothing serves later, and it is asked again.
pub proof fn law_links_are_kept_and_failures_are_not(
    kept: Option<CachedView>,
    answer: Result<Option<Seq<char>>, GatewayErrorView>,
    at: u64,
    now: u64,
)
    ensures
        match answer {
            Ok(work) => served_binding(kept_after(kept, at, link_to_keep(answer)), now)
                == if still_good(
                now,
                at,
                if work is Some {
                    BINDING_HIT_TTL_SECS
                } else {
                    BINDING_MISS_TTL_SECS
                },
            ) {
                Some(work)
            } else {
                None
            },
            Err(_) => {
                &&& kept_after(kept, at, link_to_keep(answer)) == kept
                &&& served_binding(kept, at) is None && at <= now ==> served_binding(
                    kept_after(kept, at, link_to_keep(answer)),
                    now,
                ) is None
            },
        },
{
    if let Ok(work) = answer {
        law_kept_binding_reads_back(work);
    }
}

/// An answer is served as it came for as long as it lasts, and then asked again. A
/// failure is never served: it leaves what was kept as it was.
pub proof fn law_answers_are_kept_and_failures_are_not(
    kept: Option<CachedView>,
    reply: Result<JsonView, GatewayErrorView>,
    at: u64,
    now: u64,
    ttl_secs: u64,
)
    ensures
        match reply {
            Ok(body) => served(kept_after(kept, at, body_to_keep(reply)), now, ttl_secs)
                == if still_good(now, at, ttl_secs) {
                Some(body)
            } else {
                None
            },
            Err(_) => {
                &&& kept_after(kept, at, body_to_keep(reply)) == kept
                &&& served(kept, at, ttl_secs) is None && at <= now ==> served(
                    kept_after(kept, at, body_to_keep(reply)),
                    now,
                    ttl_secs,
                ) is None
            },
        },
{
}

/// An answer that is still good was good at every earlier moment, and one that came
/// at this moment or later is good.
pub proof fn law_answers_age(now: u64, earlier: u64, at: u64, ttl_secs: u64)
    ensures
        still_good(now, at, ttl_secs) && earlier <= now ==> still_good(earlier, at, ttl_secs),
        now <= at ==> still_good(now, at, ttl_secs),
{
}

/// An answer is good until its lifetime has passed since it came, to the second.
pub proof fn law_lifetimes(now: u64, at: u64, ttl_secs: u64)
    ensures
        still_good(now, at, ttl_secs) <==> now <= at + ttl_secs,
        BINDING_HIT_TTL_SECS == 30 * 24 * 3600,
        BINDING_MISS_TTL_SECS == 7 * 24 * 3600,
{
}

/// The lookup of a link is what came of it: the work, that there is none, or the failure.
pub proof fn law_link_view(work: String, e: GatewayError)
    ensures
        link_view(Ok(Some(work))) == Ok::<Option<Seq<char>>, GatewayErrorView>(Some(work@)),
        link_view(Ok(None)) == Ok::<Option<Seq<char>>, GatewayErrorView>(None),
        link_view(Err(e)) == Err::<Option<Seq<char>>, GatewayErrorView>(e@),
{
}

} // verus!

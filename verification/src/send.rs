//! Sending a request: how often it is sent, and what comes of it.
use crate::json::{self, Json, JsonView};
use crate::openlibrary_client::SEND_ATTEMPTS;
use crate::text;
use crate::types::{GatewayError, GatewayErrorView};
use vstd::prelude::*;

verus! {

/// The pause between two sends, in milliseconds.
pub const RETRY_BACKOFF_MS: u64 = 250;

// ---------------------------------------------------------------------------
// Reports
// ---------------------------------------------------------------------------
/// What is asked: a path of Open Library, or a URL of Gutendex.
#[derive(Debug)]
pub enum Target {
    OpenLibrary { path: String },
    Gutendex { url: String },
}

pub ghost enum TargetView {
    OpenLibrary { path: Seq<char> },
    Gutendex { url: Seq<char> },
}

impl View for Target {
    type V = TargetView;

    open spec fn view(&self) -> TargetView {
        match self {
            Target::OpenLibrary { path } => TargetView::OpenLibrary { path: path@ },
            Target::Gutendex { url } => TargetView::Gutendex { url: url@ },
        }
    }
}

/// What is reported where none of `attempts` sends got a response, `last` being the
/// last failure.
pub open spec fn unreachable_view(target: TargetView, last: Seq<char>, attempts: nat) ->
    GatewayErrorView {
    GatewayErrorView::Transient(
        match target {
            TargetView::OpenLibrary { path } => "openlibrary: GET "@ + path + ": "@ + last,
            TargetView::Gutendex { url } => "GET "@ + url + ": "@ + last + " (after "@
                + text::decimal(attempts) + " attempts)"@,
        },
    )
}

fn unreachable_error(target: &Target, last: &str, attempts: usize) -> (r: GatewayError)
    ensures
        r@ == unreachable_view(target@, last@, attempts as nat),
{
    match target {
        Target::OpenLibrary { path } => {
            let mut m = "openlibrary: GET ".to_owned();
            m.append(path.as_str());
            m.append(": ");
            m.append(last);
            GatewayError::Transient(m)
        },
        Target::Gutendex { url } => {
            let attempts = text::decimal_of(attempts as u64);
            let mut m = "GET ".to_owned();
            m.append(url.as_str());
            m.append(": ");
            m.append(last);
            m.append(" (after ");
            m.append(attempts.as_str());
            m.append(" attempts)");
            GatewayError::Transient(m)
        },
    }
}

/// What is reported where no lease of the rate budget was to be had in time. The
/// upstream is busy, not broken.
pub open spec fn lease_expired() -> GatewayErrorView {
    GatewayErrorView::Transient("openlibrary: rate budget deadline exceeded"@)
}

// ---------------------------------------------------------------------------
// Sending
// ---------------------------------------------------------------------------
/// What a send came to.
#[derive(Debug)]
pub enum SendEvent {
    /// No response came; why not.
    NoResponse(String),
    /// A response came. Its status is good, or is an error.
    Response(Result<(), GatewayError>),
}

pub ghost enum SendEventView {
    NoResponse(Seq<char>),
    Good,
    Refused(GatewayErrorView),
}

impl View for SendEvent {
    type V = SendEventView;

    open spec fn view(&self) -> SendEventView {
        match self {
            SendEvent::NoResponse(why) => SendEventView::NoResponse(why@),
            SendEvent::Response(Ok(_)) => SendEventView::Good,
            SendEvent::Response(Err(e)) => SendEventView::Refused(e@),
        }
    }
}

/// How a request goes on.
#[derive(Debug)]
pub enum SendStep {
    /// After a pause of [`RETRY_BACKOFF_MS`] it is sent again.
    Again(Sending),
    /// The body of the response is read.
    Receive,
    /// The failure is reported.
    Failed(GatewayError),
}

pub ghost enum SendStepView {
    Again { attempt: nat },
    Receive,
    Failed(GatewayErrorView),
}

impl View for SendStep {
    type V = SendStepView;

    open spec fn view(&self) -> SendStepView {
        match self {
            SendStep::Again(s) => SendStepView::Again { attempt: s.attempt() },
            SendStep::Receive => SendStepView::Receive,
            SendStep::Failed(e) => SendStepView::Failed(e@),
        }
    }
}

/// How a request goes on after its `attempt`-th send of at most `attempts`. Only a send
/// that got no response at all is repeated: whatever its status, a response is final.
pub open spec fn send_next(
    target: TargetView,
    attempt: nat,
    attempts: nat,
    event: SendEventView,
) -> SendStepView {
    match event {
        SendEventView::Good => SendStepView::Receive,
        SendEventView::Refused(e) => SendStepView::Failed(e),
        SendEventView::NoResponse(why) => if attempt < attempts {
            SendStepView::Again { attempt: attempt + 1 }
        } else {
            SendStepView::Failed(unreachable_view(target, why, attempts))
        },
    }
}

/// A request that is being sent, at most a given number of times.
#[derive(Debug)]
pub struct Sending {
    attempt: usize,
    attempts: usize,
}

impl Sending {
    #[verifier::type_invariant]
    spec fn in_bounds(self) -> bool {
        1 <= self.attempt <= self.attempts
    }

    /// Which send this is; the first is 1.
    pub closed spec fn attempt(self) -> nat {
        self.attempt as nat
    }

    /// How many sends are allowed.
    pub closed spec fn attempts(self) -> nat {
        self.attempts as nat
    }

    /// The first of at most `attempts` sends.
    pub fn first(attempts: usize) -> (r: Self)
        requires
            attempts > 0,
        ensures
            r.attempt() == 1,
            r.attempts() == attempts,
    {
        Sending { attempt: 1, attempts }
    }

    /// The first send to Open Library, once it is known whether the rate budget gave a
    /// lease in time.
    pub fn to_openlibrary(leased: bool) -> (r: Result<Self, GatewayError>)
        ensures
            match r {
                Ok(s) => leased && s.attempt() == 1 && s.attempts() == SEND_ATTEMPTS,
                Err(e) => !leased && e@ == lease_expired(),
            },
    {
        if leased {
            Ok(Sending::first(SEND_ATTEMPTS))
        } else {
            Err(
                GatewayError::Transient("openlibrary: rate budget deadline exceeded".to_owned()),
            )
        }
    }

    /// Which send this is.
    pub fn number(&self) -> (r: usize)
        ensures
            r == self.attempt(),
            1 <= r <= self.attempts(),
    {
        proof {
            use_type_invariant(self);
        }
        self.attempt
    }

    /// How the request goes on after what this send came to.
    pub fn step(self, target: &Target, event: SendEvent) -> (r: SendStep)
        ensures
            r@ == send_next(target@, self.attempt(), self.attempts(), event@),
            r matches SendStep::Again(next) ==> next.attempts() == self.attempts(),
    {
        proof {
            use_type_invariant(&self);
        }
        match event {
            SendEvent::Response(Ok(_)) => SendStep::Receive,
            SendEvent::Response(Err(e)) => SendStep::Failed(e),
            SendEvent::NoResponse(why) => if self.attempt < self.attempts {
                SendStep::Again(Sending { attempt: self.attempt + 1, attempts: self.attempts })
            } else {
                SendStep::Failed(unreachable_error(target, why.as_str(), self.attempts))
            },
        }
    }
}

/// How many sends are made, from the `attempt`-th of `attempts` on, where the sends come
/// to `events` one by one.
pub open spec fn sends(
    target: TargetView,
    attempt: nat,
    attempts: nat,
    events: Seq<SendEventView>,
) -> nat
    decreases events.len(),
{
    if events.len() == 0 {
        1
    } else {
        match send_next(target, attempt, attempts, events[0]) {
            SendStepView::Again { attempt: next } => 1 + sends(
                target,
                next,
                attempts,
                events.skip(1),
            ),
            _ => 1,
        }
    }
}

/// A request is sent at least once and at most as often as allowed, and nothing is sent
/// after a response: where the `k`-th send is answered, there are at most `k` sends.
pub proof fn law_sends(
    target: TargetView,
    attempts: nat,
    events: Seq<SendEventView>,
    k: nat,
)
    requires
        attempts > 0,
    ensures
        1 <= sends(target, 1, attempts, events) <= attempts,
        1 <= k <= events.len() && !(events[k - 1] is NoResponse) ==> sends(
            target,
            1,
            attempts,
            events,
        ) <= k,
{
    lemma_sends(target, 1, attempts, events, k);
}

proof fn lemma_sends(
    target: TargetView,
    attempt: nat,
    attempts: nat,
    events: Seq<SendEventView>,
    k: nat,
)
    requires
        1 <= attempt <= attempts,
    ensures
        1 <= sends(target, attempt, attempts, events) <= attempts - attempt + 1,
        1 <= k <= events.len() && !(events[k - 1] is NoResponse) ==> sends(
            target,
            attempt,
            attempts,
            events,
        ) <= k,
    decreases events.len(),
{
    if events.len() > 0 {
        match send_next(target, attempt, attempts, events[0]) {
            SendStepView::Again { attempt: next } => {
                let rest = events.skip(1);
                if k > 1 {
                    lemma_sends(target, next, attempts, rest, (k - 1) as nat);
                    if k <= events.len() {
                        assert(rest[k - 2] == events[k - 1]);
                    }
                } else {
                    lemma_sends(target, next, attempts, rest, k);
                }
            },
            _ => {},
        }
    }
}

// ---------------------------------------------------------------------------
// Receiving
// ---------------------------------------------------------------------------
/// For how many seconds a failure freezes the whole rate budget, not just the call
/// that met it.
pub fn freeze_secs(e: &GatewayError) -> (r: Option<u64>)
    ensures
        r == match e@ {
            GatewayErrorView::RateLimited { retry_after_s } => Some(retry_after_s),
            _ => None,
        },
{
    match e {
        GatewayError::RateLimited { retry_after_s } => Some(*retry_after_s),
        _ => None,
    }
}

/// What `reqwest` says of a body that cannot be received in full, or that is not JSON.
pub const UNDECODED: &'static str = "error decoding response body";

/// The reply that an answer at `path` comes to: the JSON that it holds, or that it
/// holds none.
pub open spec fn reply_in(path: Seq<char>, document: Option<JsonView>) -> Result<
    JsonView,
    GatewayErrorView,
> {
    match document {
        Some(body) => Ok(body),
        None => Err(
            GatewayErrorView::Transient(
                "openlibrary: bad json from "@ + path + ": "@ + UNDECODED@,
            ),
        ),
    }
}

/// What came back for a request.
pub open spec fn reply_view(reply: Result<Json, GatewayError>) -> Result<
    JsonView,
    GatewayErrorView,
> {
    match reply {
        Ok(body) => Ok(body@),
        Err(e) => Err(e@),
    }
}

/// The reply that what was read of an answer at `path` comes to: `None` where its body
/// was not received in full, or is not JSON.
pub fn reply_of(path: &str, document: Option<Json>) -> (r: Result<Json, GatewayError>)
    ensures
        reply_view(r) == reply_in(path@, json::value_opt(document)),
{
    match document {
        Some(body) => Ok(body),
        None => {
            let mut m = "openlibrary: bad json from ".to_owned();
            m.append(path);
            m.append(": ");
            m.append(UNDECODED);
            Err(GatewayError::Transient(m))
        },
    }
}

/// The reply that the body `bytes` of an answer at `path` comes to.
pub fn read_reply(path: &str, bytes: &[u8]) -> (r: Result<Json, GatewayError>)
    ensures
        reply_view(r) == reply_in(path@, json::value_in(json::document(bytes@))),
{
    match json::parse(bytes) {
        Ok(body) => reply_of(path, Some(body)),
        Err(_) => reply_of(path, None),
    }
}

// ---------------------------------------------------------------------------
// Laws
// ---------------------------------------------------------------------------
/// A good response is received, and a response with an error is that failure, at whichever
/// send it comes. Where none comes the request is sent once more, as long as it may be,
/// and then fails as unreachable.
pub proof fn law_send_next(
    target: TargetView,
    attempt: nat,
    attempts: nat,
    e: GatewayErrorView,
    why: Seq<char>,
)
    ensures
        send_next(target, attempt, attempts, SendEventView::Good) is Receive,
        send_next(target, attempt, attempts, SendEventView::Refused(e)) == SendStepView::Failed(e),
        attempt < attempts ==> send_next(target, attempt, attempts, SendEventView::NoResponse(why))
            == (SendStepView::Again { attempt: attempt + 1 }),
        attempt >= attempts ==> send_next(
            target,
            attempt,
            attempts,
            SendEventView::NoResponse(why),
        ) == SendStepView::Failed(unreachable_view(target, why, attempts)),
{
}

/// A request is sent as often as it must be: where the first response is that to the `k`-th
/// send it is sent `k` times, or as often as allowed where that is fewer.
pub proof fn law_sends_exactly(
    target: TargetView,
    attempts: nat,
    events: Seq<SendEventView>,
    k: nat,
)
    requires
        1 <= k <= events.len(),
        attempts > 0,
        forall|i: int| 0 <= i < k - 1 ==> #[trigger] events[i] is NoResponse,
        k <= attempts ==> !(events[k - 1] is NoResponse) || k == attempts,
    ensures
        sends(target, 1, attempts, events) == if k <= attempts {
            k
        } else {
            attempts
        },
{
    lemma_sends_exactly(target, 1, attempts, events, k);
}

proof fn lemma_sends_exactly(
    target: TargetView,
    attempt: nat,
    attempts: nat,
    events: Seq<SendEventView>,
    k: nat,
)
    requires
        1 <= k <= events.len(),
        1 <= attempt <= attempts,
        forall|i: int| 0 <= i < k - 1 ==> #[trigger] events[i] is NoResponse,
        k <= attempts - attempt + 1 ==> !(events[k - 1] is NoResponse) || k == attempts - attempt
            + 1,
    ensures
        sends(target, attempt, attempts, events) == if k <= attempts - attempt + 1 {
            k as int
        } else {
            attempts - attempt + 1
        },
    decreases events.len(),
{
    if k > 1 {
        assert(events[0] is NoResponse);
        if attempt < attempts {
            let rest = events.skip(1);
            assert forall|i: int| 0 <= i < k - 2 implies #[trigger] rest[i] is NoResponse by {
                assert(rest[i] == events[i + 1]);
            }
            assert(rest[k - 2] == events[k - 1]);
            lemma_sends_exactly(target, attempt + 1, attempts, rest, (k - 1) as nat);
        }
    }
}

/// What is reported of a request that got no response: what was asked, and the last
/// failure; of Gutendex also how often it was sent. All of it is worth asking again, and
/// so is what waited for a lease in vain.
pub proof fn law_reports(path: Seq<char>, why: Seq<char>, attempts: nat)
    ensures
        unreachable_view(TargetView::OpenLibrary { path }, why, attempts)
            == GatewayErrorView::Transient("openlibrary: GET "@ + path + ": "@ + why),
        unreachable_view(TargetView::Gutendex { url: path }, why, attempts)
            == GatewayErrorView::Transient(
            "GET "@ + path + ": "@ + why + " (after "@ + text::decimal(attempts) + " attempts)"@,
        ),
        lease_expired() == GatewayErrorView::Transient(
            "openlibrary: rate budget deadline exceeded"@,
        ),
        SEND_ATTEMPTS == 2,
        RETRY_BACKOFF_MS == 250,
{
}

/// What an answer holds is the reply, and an answer that holds no JSON is worth asking
/// again; the report names its path.
pub proof fn law_replies(path: Seq<char>, body: JsonView)
    ensures
        reply_in(path, Some(body)) == Ok::<JsonView, GatewayErrorView>(body),
        reply_in(path, None) == Err::<JsonView, GatewayErrorView>(
            GatewayErrorView::Transient(
                "openlibrary: bad json from "@ + path + ": error decoding response body"@,
            ),
        ),
{
    reveal_strlit(": error decoding response body");
    reveal_strlit(": ");
    reveal_strlit("error decoding response body");
    assert("openlibrary: bad json from "@ + path + ": "@ + UNDECODED@
        =~= "openlibrary: bad json from "@ + path + ": error decoding response body"@);
}

/// A reply is what came back: the JSON that it holds, or the failure.
pub proof fn law_reply_view(body: Json, e: GatewayError)
    ensures
        reply_view(Ok(body)) == Ok::<JsonView, GatewayErrorView>(body@),
        reply_view(Err(e)) == Err::<JsonView, GatewayErrorView>(e@),
{
}

} // verus!

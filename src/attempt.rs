use vstd::prelude::*;
use crate::outcome::CheckOutcome;

verus! {

/// Pause between two attempts at one URL, in milliseconds.
pub const RETRY_DELAY_MS: u64 = 100;

/// What one HTTP request at a URL came to.
#[derive(Clone, Debug, PartialEq, Eq)]
pub enum TransportEvent {
    /// A response arrived, with this status code.
    Response(u16),
    /// The request failed below HTTP (connect, DNS, TLS, timeout).
    Error(String),
}

/// The retry loop of one URL as an explicit state machine.
#[derive(Clone, Debug, PartialEq, Eq)]
pub enum AttemptState {
    /// Another request is due; the field counts the requests that failed so far.
    Attempting(u32),
    /// The check is over.
    Done(CheckOutcome),
}

impl AttemptState {
    /// The state before the first request.
    pub fn start() -> (r: AttemptState)
        ensures
            r == AttemptState::Attempting(0),
    {
        AttemptState::Attempting(0)
    }

    pub fn is_done(&self) -> (r: bool)
        ensures
            r == (self is Done),
    {
        match self {
            AttemptState::Attempting(_) => false,
            AttemptState::Done(_) => true,
        }
    }

    /// The outcome once the check is over.
    pub fn into_outcome(self) -> (r: Option<CheckOutcome>)
        ensures
            self is Done ==> r == Some(self->Done_0),
            self is Attempting ==> r is None,
    {
        match self {
            AttemptState::Attempting(_) => None,
            AttemptState::Done(o) => Some(o),
        }
    }
}

/// A state is sound for a limit when it never counts more failures than the
/// limit allows retries for.
pub open spec fn state_ok(s: AttemptState, max_retries: u32) -> bool {
    s is Attempting ==> s->Attempting_0 <= max_retries
}

/// The transition taken on one request's result.
pub open spec fn next_spec(s: AttemptState, e: TransportEvent, max_retries: u32) -> AttemptState {
    match s {
        AttemptState::Done(o) => AttemptState::Done(o),
        AttemptState::Attempting(failed) => match e {
            TransportEvent::Response(code) => AttemptState::Done(CheckOutcome::Success(code)),
            TransportEvent::Error(msg) => if failed >= max_retries {
                AttemptState::Done(CheckOutcome::Failure(msg))
            } else {
                AttemptState::Attempting((failed + 1) as u32)
            },
        },
    }
}

/// Moves the retry loop on by the result of one request: any response ends
/// it in `Success` with that code; an error ends it in `Failure` once
/// `max_retries` retries have been spent, and otherwise asks for another
/// request (after a pause of `RETRY_DELAY_MS`).
pub fn advance(s: AttemptState, e: TransportEvent, max_retries: u32) -> (r: AttemptState)
    requires
        state_ok(s, max_retries),
    ensures
        r == next_spec(s, e, max_retries),
        state_ok(r, max_retries),
{
    match s {
        AttemptState::Done(o) => AttemptState::Done(o),
        AttemptState::Attempting(failed) => match e {
            TransportEvent::Response(code) => AttemptState::Done(CheckOutcome::Success(code)),
            TransportEvent::Error(msg) => {
                if failed >= max_retries {
                    AttemptState::Done(CheckOutcome::Failure(msg))
                } else {
                    AttemptState::Attempting(failed + 1)
                }
            },
        },
    }
}

/// The pause to take before the next request, in milliseconds: the retry
/// delay after a failed request, none before the first or once done.
pub fn pause_before_next(s: &AttemptState) -> (r: u64)
    ensures
        r == pause_spec(*s),
{
    match s {
        AttemptState::Attempting(failed) => if *failed > 0 {
            RETRY_DELAY_MS
        } else {
            0
        },
        AttemptState::Done(_) => 0,
    }
}

pub open spec fn pause_spec(s: AttemptState) -> u64 {
    if s is Attempting && s->Attempting_0 > 0 {
        RETRY_DELAY_MS
    } else {
        0
    }
}

/// The state after feeding `events` in order from the start.
pub open spec fn run(events: Seq<TransportEvent>, max_retries: u32) -> AttemptState
    decreases events.len(),
{
    if events.len() == 0 {
        AttemptState::Attempting(0)
    } else {
        next_spec(run(events.drop_last(), max_retries), events.last(), max_retries)
    }
}

/// The number of requests that a run of `events` makes: one per event fed
/// while the loop was still attempting.
pub open spec fn requests_made(events: Seq<TransportEvent>, max_retries: u32) -> nat
    decreases events.len(),
{
    if events.len() == 0 {
        0
    } else {
        requests_made(events.drop_last(), max_retries) + if run(
            events.drop_last(),
            max_retries,
        ) is Attempting {
            1nat
        } else {
            0nat
        }
    }
}

/// The total pause that a run of `events` spends between requests.
pub open spec fn total_pause(events: Seq<TransportEvent>, max_retries: u32) -> nat
    decreases events.len(),
{
    if events.len() == 0 {
        0
    } else {
        total_pause(events.drop_last(), max_retries) + pause_spec(run(events, max_retries)) as nat
    }
}

pub open spec fn all_errors(events: Seq<TransportEvent>) -> bool {
    forall|i: int| 0 <= i < events.len() ==> (#[trigger] events[i]) is Error
}

proof fn lemma_errors_prefix(events: Seq<TransportEvent>, max_retries: u32)
    requires
        all_errors(events),
        events.len() <= max_retries as nat,
    ensures
        run(events, max_retries) == AttemptState::Attempting(events.len() as u32),
        requests_made(events, max_retries) == events.len(),
        total_pause(events, max_retries) == events.len() * RETRY_DELAY_MS,
    decreases events.len(),
{
    if events.len() > 0 {
        let p = events.drop_last();
        assert(all_errors(p)) by {
            assert forall|i: int| 0 <= i < p.len() implies (#[trigger] p[i]) is Error by {
                assert(p[i] == events[i]);
            }
        }
        lemma_errors_prefix(p, max_retries);
        assert(events.last() == events[events.len() - 1]);
    }
}

/// When every request fails, a limit of `max_retries` retries makes exactly
/// `max_retries + 1` requests: the loop is still attempting after each of the
/// first `max_retries` failures, ends in `Failure` with the last error after
/// the next one, and has paused `RETRY_DELAY_MS` before each retry.
pub proof fn lemma_failing_transport(events: Seq<TransportEvent>, max_retries: u32)
    requires
        all_errors(events),
        events.len() == max_retries as nat + 1,
    ensures
        forall|k: int|
            0 <= k <= max_retries ==> (#[trigger] run(events.take(k), max_retries)) is Attempting,
        run(events, max_retries) == AttemptState::Done(
            CheckOutcome::Failure(events.last()->Error_0),
        ),
        requests_made(events, max_retries) == max_retries as nat + 1,
        total_pause(events, max_retries) == max_retries as nat * RETRY_DELAY_MS,
{
    assert forall|k: int| 0 <= k <= max_retries implies (#[trigger] run(
        events.take(k),
        max_retries,
    )) is Attempting by {
        let t = events.take(k);
        assert(all_errors(t)) by {
            assert forall|i: int| 0 <= i < t.len() implies (#[trigger] t[i]) is Error by {
                assert(t[i] == events[i]);
            }
        }
        lemma_errors_prefix(t, max_retries);
    }
    let p = events.drop_last();
    assert(p == events.take(max_retries as int));
    assert(all_errors(p)) by {
        assert forall|i: int| 0 <= i < p.len() implies (#[trigger] p[i]) is Error by {
            assert(p[i] == events[i]);
        }
    }
    lemma_errors_prefix(p, max_retries);
    assert(events.last() == events[events.len() - 1]);
}

/// A response with any status code, error statuses included, ends the loop
/// in `Success` with that code.
pub proof fn lemma_response_is_success(s: AttemptState, code: u16, max_retries: u32)
    requires
        s is Attempting,
    ensures
        next_spec(s, TransportEvent::Response(code), max_retries) == AttemptState::Done(
            CheckOutcome::Success(code),
        ),
{
}

} // verus!

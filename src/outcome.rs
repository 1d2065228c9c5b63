use vstd::prelude::*;

verus! {

/// How the check of one URL ended: a response with its status code (any code,
/// error statuses included), or a transport failure with its description.
#[derive(Clone, Debug, PartialEq, Eq)]
pub enum CheckOutcome {
    Success(u16),
    Failure(String),
}

impl CheckOutcome {
    pub fn is_success(&self) -> (r: bool)
        ensures
            r == (self is Success),
    {
        match self {
            CheckOutcome::Success(_) => true,
            CheckOutcome::Failure(_) => false,
        }
    }
}

/// The finished check of one URL.
#[derive(Clone, Debug, PartialEq, Eq)]
pub struct CheckResult {
    /// The URL exactly as it was given.
    pub url: String,
    pub outcome: CheckOutcome,
    /// Wall-clock time of the whole attempt sequence, retries and pauses
    /// included, in milliseconds.
    pub elapsed_ms: u64,
    /// When the outcome became known (RFC 3339).
    pub timestamp: String,
}

impl CheckResult {
    pub fn new(url: String, outcome: CheckOutcome, elapsed_ms: u64, timestamp: String) -> (r:
        CheckResult)
        ensures
            r.url == url,
            r.outcome == outcome,
            r.elapsed_ms == elapsed_ms,
            r.timestamp == timestamp,
    {
        CheckResult { url, outcome, elapsed_ms, timestamp }
    }
}

} // verus!

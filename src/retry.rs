//! The retry protocol of storage transactions: a transaction that lost a
//! serialization conflict is run again from scratch after a short random
//! delay; any other failure ends the operation.
use vstd::prelude::*;

use crate::error::PoolError;

verus! {

/// Shortest delay before a conflicting transaction runs again, in milliseconds.
pub const MIN_RETRY_DELAY_MS: u64 = 1;

/// Bound (exclusive) on the delay before a conflicting transaction runs again.
pub const MAX_RETRY_DELAY_MS: u64 = 50;

/// What one attempt at a transaction came to.
#[derive(Debug)]
pub enum AttemptOutcome {
    Committed,
    /// The store reported a serialization conflict at commit.
    Conflict,
    /// Any other failure of the store.
    Failed(String),
}

/// What to do after an attempt.
#[derive(Debug, PartialEq, Eq)]
pub enum RetryStep {
    Done,
    /// Run the whole transaction again after this many milliseconds.
    RetryAfter(u64),
    Fail(PoolError),
}

/// Relies on `rand::Rng::random_range` over the thread-local generator of
/// `rand::rng`: a value in `low..high`, which must not be empty.
#[verifier::external_body]
fn random_between(low: u64, high: u64) -> (r: u64)
    requires
        low < high,
    ensures
        low <= r < high,
{
    rand::Rng::random_range(&mut rand::rng(), low..high)
}

/// The step after an attempt, given the delay to wait should it have to be
/// retried.
pub fn step_after(outcome: AttemptOutcome, delay_ms: u64) -> (r: RetryStep)
    ensures
        match outcome {
            AttemptOutcome::Committed => r == RetryStep::Done,
            AttemptOutcome::Conflict => r == RetryStep::RetryAfter(delay_ms),
            AttemptOutcome::Failed(m) => r == RetryStep::Fail(PoolError::Storage(m)),
        },
{
    match outcome {
        AttemptOutcome::Committed => RetryStep::Done,
        AttemptOutcome::Conflict => RetryStep::RetryAfter(delay_ms),
        AttemptOutcome::Failed(m) => RetryStep::Fail(PoolError::Storage(m)),
    }
}

/// The step after an attempt; a conflict waits a random delay within the
/// bounds, so that conflicting callers do not retry in step.
pub fn next_step(outcome: AttemptOutcome) -> (r: RetryStep)
    ensures
        match outcome {
            AttemptOutcome::Committed => r == RetryStep::Done,
            AttemptOutcome::Conflict => r matches RetryStep::RetryAfter(d) && MIN_RETRY_DELAY_MS
                <= d < MAX_RETRY_DELAY_MS,
            AttemptOutcome::Failed(m) => r == RetryStep::Fail(PoolError::Storage(m)),
        },
{
    let delay = match outcome {
        AttemptOutcome::Conflict => random_between(MIN_RETRY_DELAY_MS, MAX_RETRY_DELAY_MS),
        _ => 0,
    };
    step_after(outcome, delay)
}

} // verus!

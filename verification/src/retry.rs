//! The retry policy: a pure function of the attempt number, independent of
//! key or pipeline identity.

use vstd::prelude::*;

verus! {

/// What to do after a retryable step failure: try the same step again after
/// the given delay (in milliseconds), or give up and fail the pipeline with
/// the last observed reason.
#[derive(Debug, Clone, Copy, PartialEq, Eq, Structural)]
pub enum RetryDecision {
    Retry(u64),
    GiveUp,
}

/// Bounded retry: each step may be invoked at most `max_attempts` times,
/// with a fixed delay between attempts. Exhausting the bound converts the
/// transient error into a pipeline failure.
#[derive(Debug, Clone, Copy, PartialEq, Eq, Structural)]
pub struct RetryPolicy {
    /// Maximum invocations per step, at least one.
    pub max_attempts: u32,
    /// Fixed delay before each retry, in milliseconds.
    pub delay_ms: u64,
}

impl RetryPolicy {
    pub open spec fn wf(self) -> bool {
        self.max_attempts >= 1
    }

    /// The default policy: up to three attempts per step, no delay.
    pub fn standard() -> (r: RetryPolicy)
        ensures
            r.wf(),
            r.max_attempts == 3,
            r.delay_ms == 0,
    {
        RetryPolicy { max_attempts: 3, delay_ms: 0 }
    }

    /// Decides, after a retryable failure of an attempt (`attempts_made`
    /// invocations already made, at least one), whether the step is retried.
    /// It is retried exactly while the bound is not yet reached.
    pub fn decide(&self, attempts_made: u32) -> (r: RetryDecision)
        requires
            self.wf(),
            attempts_made >= 1,
        ensures
            r == (if attempts_made < self.max_attempts {
                RetryDecision::Retry(self.delay_ms)
            } else {
                RetryDecision::GiveUp
            }),
    {
        if attempts_made < self.max_attempts {
            RetryDecision::Retry(self.delay_ms)
        } else {
            RetryDecision::GiveUp
        }
    }
}

} // verus!

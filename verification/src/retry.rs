//! Retry policy for range workers: a failed fetch is retried a bounded
//! number of times, with a growing, capped backoff, before it counts as the
//! worker's final failure.
use vstd::prelude::*;

verus! {

/// The default number of retries a worker gets after its first failure.
pub const DEFAULT_RETRY_BUDGET: u32 = 3;

/// The backoff step and its cap, in milliseconds.
pub const BACKOFF_STEP_MS: u64 = 500;

/// The longest pause between two attempts, in milliseconds.
pub const BACKOFF_CAP_MS: u64 = 5000;

/// How often a failed range fetch may be retried.
pub struct RetryPolicy {
    pub budget: u32,
}

impl RetryPolicy {
    /// The configurable policy, with any budget.
    pub fn new(budget: u32) -> (r: Self)
        ensures
            r.budget == budget,
    {
        RetryPolicy { budget }
    }

    /// Whether a worker that has failed `failed_attempts` times may try
    /// again: exactly while the budget is not spent.
    pub fn should_retry(&self, failed_attempts: u32) -> (r: bool)
        ensures
            r == (failed_attempts < self.budget),
    {
        failed_attempts < self.budget
    }

    /// The pause before retry number `attempt` (counting from zero): one
    /// step more per attempt, capped.
    pub fn backoff_ms(&self, attempt: u32) -> (r: u64)
        ensures
            r == if (attempt as int + 1) * BACKOFF_STEP_MS <= BACKOFF_CAP_MS {
                ((attempt as int + 1) * BACKOFF_STEP_MS) as u64
            } else {
                BACKOFF_CAP_MS
            },
            r <= BACKOFF_CAP_MS,
    {
        let scaled: u64 = (attempt as u64 + 1) * BACKOFF_STEP_MS;
        if scaled > BACKOFF_CAP_MS {
            BACKOFF_CAP_MS
        } else {
            scaled
        }
    }
}

impl Default for RetryPolicy {
    /// The baseline policy: a small fixed budget.
    fn default() -> (r: Self)
        ensures
            r.budget == DEFAULT_RETRY_BUDGET,
    {
        RetryPolicy { budget: DEFAULT_RETRY_BUDGET }
    }
}

} // verus!

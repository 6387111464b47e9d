//! When a failed write to the store is tried again.

use vstd::prelude::*;

verus! {

/// How many failures in a row are answered by another try.
pub const MAX_CONSECUTIVE_ERRORS: u32 = 5;

/// How long to wait before another try, in seconds.
pub const RETRY_BACKOFF_SECONDS: u64 = 1;

/// How many rows at most go into one write to the store.
pub const WRITE_CHUNK_SIZE: usize = 100;

/// What to do after a failure.
#[derive(Debug, Clone, Copy, PartialEq, Eq, Structural)]
pub enum RetryDecision {
    /// Wait this many seconds, then try again.
    WaitRetry { seconds: u64 },
    /// Give up and hand the error to the caller.
    ForwardError,
}

/// The failures of one operation so far.
#[derive(Debug, Clone, Copy, PartialEq, Eq, Structural)]
pub struct RetryState {
    pub consecutive_errors: u32,
}

/// What the failure after `errors` failures in a row is answered with.
pub open spec fn decision_after(errors: u32) -> RetryDecision {
    if errors >= MAX_CONSECUTIVE_ERRORS {
        RetryDecision::ForwardError
    } else {
        RetryDecision::WaitRetry { seconds: RETRY_BACKOFF_SECONDS }
    }
}

/// The count of failures in a row after one more failure: one more, and
/// none again once the error has been handed on.
pub open spec fn errors_after(errors: u32) -> u32 {
    if errors >= MAX_CONSECUTIVE_ERRORS {
        0
    } else {
        (errors + 1) as u32
    }
}

/// The count of failures in a row after `n` failures of a fresh operation.
pub open spec fn errors_after_failures(n: nat) -> u32
    decreases n,
{
    if n == 0 {
        0
    } else {
        errors_after(errors_after_failures((n - 1) as nat))
    }
}

/// A fresh operation is tried again after each of its first five
/// failures, and its sixth failure is handed to the caller.
pub proof fn lemma_five_retries()
    ensures
        forall|n: nat|
            n < 5 ==> decision_after(#[trigger] errors_after_failures(n)) == (
            RetryDecision::WaitRetry { seconds: 1 }),
        decision_after(errors_after_failures(5)) == RetryDecision::ForwardError,
        errors_after_failures(6) == 0,
{
    reveal_with_fuel(errors_after_failures, 7);
}

impl RetryState {
    /// The state of an operation that has not failed yet.
    pub fn new() -> (state: RetryState)
        ensures
            state.consecutive_errors == 0,
    {
        RetryState { consecutive_errors: 0 }
    }

    /// Takes note of a failure and says what to do about it.
    pub fn on_error(&mut self) -> (decision: RetryDecision)
        ensures
            decision == decision_after(old(self).consecutive_errors),
            final(self).consecutive_errors == errors_after(old(self).consecutive_errors),
    {
        if self.consecutive_errors >= MAX_CONSECUTIVE_ERRORS {
            self.consecutive_errors = 0;
            RetryDecision::ForwardError
        } else {
            self.consecutive_errors = self.consecutive_errors + 1;
            RetryDecision::WaitRetry { seconds: RETRY_BACKOFF_SECONDS }
        }
    }
}

} // verus!

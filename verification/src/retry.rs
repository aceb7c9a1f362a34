//! The retry wrapper's decisions: error classification and exponential
//! backoff with jitter.
//!
//! Backend operations are idempotent, so a transient backend failure is
//! simply tried again after a growing, jittered delay, without bound. A
//! duplicate-key conflict on a deduplicating insert (a link or opinion row)
//! means another caller already wrote the row: that is success, not a
//! failure. Anything that is not a backend error is permanent and
//! propagates at once.
//!
//! The surrounding process performs the attempts and the sleeps; every
//! decision — how to classify an outcome, how long to sleep, how the
//! interval grows — is taken here.

use vstd::prelude::*;

verus! {

/// How an attempted backend operation failed.
#[derive(Debug, Clone, Copy, PartialEq, Eq, Structural)]
pub enum OpError {
    /// The backend reported a duplicate-key conflict.
    DuplicateKey,
    /// Any other backend error: a dropped connection, a timeout, a
    /// serialization conflict.
    Backend,
    /// Not a backend error at all — malformed input and the like.
    Input,
}

/// What the retry wrapper does with a failure.
#[derive(Debug, Clone, Copy, PartialEq, Eq, Structural)]
pub enum RetryDecision {
    /// The row was already written by someone else: count the operation as
    /// done.
    Swallow,
    /// Transient: back off and try again.
    Retry,
    /// Permanent: propagate.
    Fail,
}

/// The classification rule: a duplicate key on a deduplicating insert is
/// success-equivalent, every other backend error is retried, and a
/// non-backend error propagates.
pub open spec fn spec_classify(e: OpError, dedup_insert: bool) -> RetryDecision {
    match e {
        OpError::DuplicateKey => if dedup_insert {
            RetryDecision::Swallow
        } else {
            RetryDecision::Retry
        },
        OpError::Backend => RetryDecision::Retry,
        OpError::Input => RetryDecision::Fail,
    }
}

/// Classify a failure; `dedup_insert` says whether the operation was a
/// deduplicating insert into the link or opinion table.
pub fn classify(e: OpError, dedup_insert: bool) -> (d: RetryDecision)
    ensures
        d == spec_classify(e, dedup_insert),
{
    match e {
        OpError::DuplicateKey => {
            if dedup_insert {
                RetryDecision::Swallow
            } else {
                RetryDecision::Retry
            }
        },
        OpError::Backend => RetryDecision::Retry,
        OpError::Input => RetryDecision::Fail,
    }
}

/// The ceiling no interval outgrows: one day, in milliseconds.
pub const INTERVAL_CEILING_MS: u64 = 86_400_000;

/// How the interval grows after each attempt: half again, capped.
pub open spec fn spec_grow(cur: u64, max: u64) -> int {
    if cur + cur / 2 > max {
        max as int
    } else {
        cur as int + cur as int / 2
    }
}

/// The jittered delay drawn for the current interval: uniform over the
/// window from half the interval below it to half above it, pinned by the
/// caller's random draw.
pub open spec fn spec_jittered(cur: u64, jitter: u64) -> int {
    (cur - cur / 2) + jitter as int % (2 * (cur as int / 2) + 1)
}

/// Exponential backoff state: the current interval and its ceiling.
#[derive(Debug, Clone, Copy)]
pub struct Backoff {
    pub current_ms: u64,
    pub max_ms: u64,
}

impl Backoff {
    pub open spec fn wf(self) -> bool {
        1 <= self.current_ms <= self.max_ms <= INTERVAL_CEILING_MS
    }

    /// A fresh policy: the first delay is drawn around half a second, and
    /// no delay outgrows a minute.
    pub fn new() -> (b: Backoff)
        ensures
            b.wf(),
            b.current_ms == 500,
            b.max_ms == 60_000,
    {
        Backoff { current_ms: 500, max_ms: 60_000 }
    }

    /// The delay before the next attempt: the current interval jittered by
    /// up to half of it in either direction, computed from the caller's
    /// random draw. The interval then grows by half, up to the ceiling.
    pub fn next_delay(&mut self, jitter: u64) -> (d: u64)
        requires
            old(self).wf(),
        ensures
            final(self).wf(),
            final(self).max_ms == old(self).max_ms,
            final(self).current_ms == spec_grow(old(self).current_ms, old(self).max_ms),
            d == spec_jittered(old(self).current_ms, jitter),
            old(self).current_ms - old(self).current_ms / 2 <= d <= old(self).current_ms + old(
                self,
            ).current_ms / 2,
    {
        let cur = self.current_ms;
        let half = cur / 2;
        let lo = cur - half;
        let width = half + half + 1;
        let d = lo + jitter % width;
        self.current_ms = if cur + half > self.max_ms {
            self.max_ms
        } else {
            cur + half
        };
        d
    }
}

/// The outcome the caller observed for one attempt.
pub enum Attempt<T> {
    Success(T),
    Failure(OpError),
}

/// What the caller must do next.
pub enum NextStep<T> {
    /// The operation succeeded: here is its value.
    Done(T),
    /// A racing caller already wrote the row: the operation counts as done.
    AlreadyDone,
    /// Sleep this many milliseconds, then attempt again.
    Sleep(u64),
    /// Give up: the failure is permanent.
    Abort(OpError),
}

/// One decision step of the retry loop. Success passes the value through; a
/// swallowed duplicate counts as done; a transient failure yields the next
/// jittered delay and grows the interval; a permanent failure aborts.
pub fn retry_step<T>(policy: &mut Backoff, outcome: Attempt<T>, dedup_insert: bool, jitter: u64) -> (
    step: NextStep<T>)
    requires
        old(policy).wf(),
    ensures
        final(policy).wf(),
        final(policy).max_ms == old(policy).max_ms,
        match outcome {
            Attempt::Success(v) => step == NextStep::Done(v) && *final(policy) == *old(policy),
            Attempt::Failure(e) => match spec_classify(e, dedup_insert) {
                RetryDecision::Swallow => step == NextStep::<T>::AlreadyDone && *final(policy)
                    == *old(policy),
                RetryDecision::Retry => step == NextStep::<T>::Sleep(
                    spec_jittered(old(policy).current_ms, jitter) as u64,
                ) && final(policy).current_ms == spec_grow(
                    old(policy).current_ms,
                    old(policy).max_ms,
                ),
                RetryDecision::Fail => step == NextStep::<T>::Abort(e) && *final(policy) == *old(
                    policy,
                ),
            },
        },
{
    match outcome {
        Attempt::Success(v) => NextStep::Done(v),
        Attempt::Failure(e) => {
            match classify(e, dedup_insert) {
                RetryDecision::Swallow => NextStep::AlreadyDone,
                RetryDecision::Retry => NextStep::Sleep(policy.next_delay(jitter)),
                RetryDecision::Fail => NextStep::Abort(e),
            }
        },
    }
}

} // verus!

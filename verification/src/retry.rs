//! The retry-with-backoff discipline for a capacity-limited backend.
//!
//! The backend calls themselves (network I/O) live outside this crate; what
//! is here is every decision the retry loop makes: the exponential backoff
//! interval, the jittered sleep duration, and the elapsed-time ceiling after
//! which a capacity error becomes terminal.

use vstd::prelude::*;

verus! {

/// The base backoff unit in milliseconds.
pub const RETRY_BASE: u64 = 500;

/// The cap on a single backoff interval in milliseconds.
pub const MAX_INTERVAL_LIMIT: u64 = 60000;

/// The ceiling on total elapsed time in milliseconds; once reached, a
/// capacity error is no longer retried.
pub const MAX_ELAPSED_TIME_MILLIS: u64 = 600000;

/// The backoff interval for the given attempt number (1-based):
/// `min(MAX_INTERVAL_LIMIT, RETRY_BASE * 2 * attempt)`.
pub open spec fn backoff_interval_of(attempt: u64) -> u64 {
    if RETRY_BASE * 2 * attempt <= MAX_INTERVAL_LIMIT as int {
        (RETRY_BASE * 2 * attempt) as u64
    } else {
        MAX_INTERVAL_LIMIT
    }
}

/// Compute the capped exponential backoff interval for an attempt.
pub fn backoff_interval(attempt: u64) -> (r: u64)
    ensures
        r == backoff_interval_of(attempt),
        r <= MAX_INTERVAL_LIMIT,
        attempt >= 1 ==> r >= RETRY_BASE,
{
    if attempt >= 60 {
        proof {
            assert(RETRY_BASE * 2 * attempt >= RETRY_BASE * 2 * 60) by (nonlinear_arith)
                requires
                    attempt >= 60,
            ;
        }
        MAX_INTERVAL_LIMIT
    } else {
        proof {
            assert(RETRY_BASE * 2 * attempt <= RETRY_BASE * 2 * 59 && (attempt >= 1 ==> RETRY_BASE
                * 2 * attempt >= RETRY_BASE * 2)) by (nonlinear_arith)
                requires
                    attempt < 60,
            ;
        }
        RETRY_BASE * 2 * attempt
    }
}

/// Every computed backoff interval stays within the interval cap.
pub proof fn lemma_backoff_interval_bounded(attempt: u64)
    ensures
        backoff_interval_of(attempt) <= MAX_INTERVAL_LIMIT,
{
}

/// Whether the operation must fail permanently instead of retrying further:
/// exactly when the cumulative elapsed time has reached the ceiling.
pub fn should_give_up(elapsed_ms: u64) -> (r: bool)
    ensures
        r == (elapsed_ms >= MAX_ELAPSED_TIME_MILLIS),
{
    elapsed_ms >= MAX_ELAPSED_TIME_MILLIS
}

/// Relies on `rand::Rng::gen_range` over `0..bound`: a draw from the
/// half-open range, so the result is strictly below the bound.
#[verifier::external_body]
fn random_below(bound: u64) -> (r: u64)
    requires
        bound > 0,
    ensures
        r < bound,
{
    rand::Rng::gen_range(&mut rand::thread_rng(), 0..bound)
}

/// The jittered sleep duration before the next retry of the given attempt
/// (1-based): uniform in `[0, interval)` where `interval` is the capped
/// exponential backoff interval, hence always below the interval cap.
pub fn backoff_jitter(attempt: u64) -> (r: u64)
    requires
        attempt >= 1,
    ensures
        r < backoff_interval_of(attempt),
        r < MAX_INTERVAL_LIMIT,
{
    let interval = backoff_interval(attempt);
    random_below(interval)
}

/// How one failed backend attempt is classified.
#[derive(Clone, Copy, PartialEq, Eq, Debug)]
pub enum BackendErrorKind {
    /// The request rate exceeded the provisioned throughput.
    CapacityExceeded,
    /// Any other backend failure (permissions, validation, connectivity).
    Other,
}

/// The retry loop's next move after a failed attempt.
#[derive(Clone, Copy, PartialEq, Eq, Debug)]
pub enum RetryAction {
    /// Sleep the jittered duration, then fail permanently if the elapsed
    /// time has reached the ceiling, else retry with the next attempt.
    SleepAndCheck { sleep_ms: u64 },
    /// Surface the error immediately, with no retry.
    Propagate,
}

/// The decision the retry loop takes on a failed attempt (1-based): a
/// capacity error backs off with a jittered sleep below the capped
/// exponential interval; every other error propagates at once.
pub fn retry_action(kind: &BackendErrorKind, attempt: u64) -> (r: RetryAction)
    requires
        attempt >= 1,
    ensures
        match r {
            RetryAction::SleepAndCheck { sleep_ms } => *kind
                == BackendErrorKind::CapacityExceeded && sleep_ms < backoff_interval_of(attempt)
                && sleep_ms < MAX_INTERVAL_LIMIT,
            RetryAction::Propagate => *kind == BackendErrorKind::Other,
        },
{
    match kind {
        BackendErrorKind::CapacityExceeded => RetryAction::SleepAndCheck {
            sleep_ms: backoff_jitter(attempt),
        },
        BackendErrorKind::Other => RetryAction::Propagate,
    }
}

} // verus!

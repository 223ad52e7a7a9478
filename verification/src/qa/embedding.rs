//! The retry policy for embedding one text through an unreliable provider.
//!
//! The caller makes the network calls and does the waiting; this module
//! decides what happens next. One run is a series of attempts, ten at most.
//! Each attempt asks the pool for a credential; without one the run waits a
//! minute. A provider failure that signals an exhausted quota sets the
//! credential aside and the run goes on at once; any other failure makes the
//! run wait five seconds. A success ends the run, which is the caller's to
//! see.

use vstd::prelude::*;
use crate::clock::{in_calendar, next_day_start, utc_now_micros};
use crate::gemini::key_manager::{acquire, disable, pool_wf, GeminiKeyManager};
use crate::text::{contains, lowercase, occurs_in, to_lowercase};

verus! {

/// Attempts that one run may make.
pub const MAX_ATTEMPTS: u32 = 10;

/// Seconds to wait when the pool has no credential to offer.
pub const NO_KEY_DELAY_SECS: u64 = 60;

/// Seconds to wait after a failure that is not about quota.
pub const FAILURE_DELAY_SECS: u64 = 5;

/// The two kinds of provider failure that the policy tells apart.
#[derive(Clone, Copy, Debug, PartialEq, Eq, Structural)]
pub enum ProviderFailure {
    /// The credential's quota is exhausted, or the provider asks to slow down.
    RateLimited,
    /// Anything else.
    Other,
}

/// Whether a failure message signals an exhausted quota: it mentions the
/// status 429 or says that the resource has been exhausted, letter case
/// aside.
pub open spec fn signals_rate_limit(message: Seq<char>) -> bool {
    occurs_in("429"@, lowercase(message)) || occurs_in(
        "resource has been exhausted"@,
        lowercase(message),
    )
}

/// Classifies a provider failure by its message.
pub fn classify_failure(message: &str) -> (kind: ProviderFailure)
    ensures
        kind == if signals_rate_limit(message@) {
            ProviderFailure::RateLimited
        } else {
            ProviderFailure::Other
        },
{
    let lower = to_lowercase(message);
    if contains(lower.as_str(), "429") || contains(lower.as_str(), "resource has been exhausted") {
        ProviderFailure::RateLimited
    } else {
        ProviderFailure::Other
    }
}

/// What the caller does next in a run.
#[derive(Debug, PartialEq, Eq)]
pub enum Attempt {
    /// Call the provider with this credential.
    CallProvider { key: String },
    /// Wait this many seconds, then ask again.
    Wait { seconds: u64 },
    /// The attempts are used up: the run has failed.
    Exhausted,
}

/// What the caller does after a failed call, before it asks for the next
/// attempt.
#[derive(Clone, Copy, Debug, PartialEq, Eq, Structural)]
pub enum Backoff {
    /// Go on at once.
    Immediately,
    /// Wait this many seconds.
    Wait { seconds: u64 },
}

/// The state of one run: how many attempts it has made.
#[derive(Debug)]
pub struct EmbeddingRetry {
    attempts: u32,
}

impl EmbeddingRetry {
    #[verifier::type_invariant]
    spec fn within_ceiling(self) -> bool {
        self.attempts <= MAX_ATTEMPTS
    }

    /// Attempts made so far.
    pub closed spec fn spec_attempts(&self) -> u32 {
        self.attempts
    }

    /// A run that has made no attempt yet.
    pub fn new() -> (run: Self)
        ensures
            run.spec_attempts() == 0,
    {
        EmbeddingRetry { attempts: 0 }
    }

    /// Attempts made so far, never more than [`MAX_ATTEMPTS`].
    #[verifier::when_used_as_spec(spec_attempts)]
    pub fn attempts(&self) -> (n: u32)
        ensures
            n == self.spec_attempts(),
            n <= MAX_ATTEMPTS,
    {
        proof {
            use_type_invariant(self);
        }
        self.attempts
    }

    /// Starts the next attempt at the instant `now`.
    ///
    /// A run that has made all its attempts is exhausted and touches
    /// nothing. Otherwise the attempt counts, whether or not the pool has a
    /// credential: with one the provider is to be called, without one the
    /// run waits for a minute.
    pub fn next_attempt_at(&mut self, pool: &mut GeminiKeyManager, now: i64) -> (step: Attempt)
        ensures
            pool_wf(final(pool)@),
            old(self).spec_attempts() >= MAX_ATTEMPTS ==> {
                &&& step is Exhausted
                &&& final(self).spec_attempts() == old(self).spec_attempts()
                &&& final(pool)@ == old(pool)@
            },
            old(self).spec_attempts() < MAX_ATTEMPTS ==> {
                &&& final(self).spec_attempts() == old(self).spec_attempts() + 1
                &&& final(pool)@ == acquire(old(pool)@, now).0
                &&& match acquire(old(pool)@, now).1 {
                    Ok(secret) => step matches Attempt::CallProvider { key } && key@ == secret,
                    Err(_) => step == (Attempt::Wait { seconds: NO_KEY_DELAY_SECS }),
                }
            },
    {
        proof {
            use_type_invariant(&*self);
        }
        let _credentials = pool.len();
        if self.attempts >= MAX_ATTEMPTS {
            return Attempt::Exhausted;
        }
        self.attempts = self.attempts + 1;
        match pool.get_key_at(now) {
            Ok(key) => Attempt::CallProvider { key },
            Err(_) => Attempt::Wait { seconds: NO_KEY_DELAY_SECS },
        }
    }

    /// Starts the next attempt at the present moment. The clock decides
    /// which instant that is; whatever it reads, the outcome is the one that
    /// [`EmbeddingRetry::next_attempt_at`] gives for it.
    pub fn next_attempt(&mut self, pool: &mut GeminiKeyManager) -> (step: Attempt)
        ensures
            pool_wf(final(pool)@),
            old(self).spec_attempts() >= MAX_ATTEMPTS ==> {
                &&& step is Exhausted
                &&& final(self).spec_attempts() == old(self).spec_attempts()
                &&& final(pool)@ == old(pool)@
            },
            old(self).spec_attempts() < MAX_ATTEMPTS ==> {
                &&& final(self).spec_attempts() == old(self).spec_attempts() + 1
                &&& exists|now: i64|
                    {
                        &&& final(pool)@ == (#[trigger] acquire(old(pool)@, now)).0
                        &&& match acquire(old(pool)@, now).1 {
                            Ok(secret) => step matches Attempt::CallProvider { key } && key@
                                == secret,
                            Err(_) => step == (Attempt::Wait { seconds: NO_KEY_DELAY_SECS }),
                        }
                    }
            },
    {
        let now = utc_now_micros();
        self.next_attempt_at(pool, now)
    }
}

/// Reacts to a failed provider call made with the credential `key`, at the
/// instant `now`: an exhausted quota sets the credential aside until the
/// next UTC midnight and the run goes on at once; after any other failure
/// the pool stays as it is and the run waits five seconds.
pub fn after_failure_at(pool: &mut GeminiKeyManager, key: &str, failure: ProviderFailure, now: i64) -> (backoff: Backoff)
    requires
        in_calendar(now as int),
    ensures
        pool_wf(final(pool)@),
        failure == ProviderFailure::RateLimited ==> backoff == Backoff::Immediately && final(pool)@
            == disable(old(pool)@, key@, next_day_start(now as int) as i64),
        failure == ProviderFailure::Other ==> backoff == (Backoff::Wait {
            seconds: FAILURE_DELAY_SECS,
        }) && final(pool)@ == old(pool)@,
{
    match failure {
        ProviderFailure::RateLimited => {
            pool.disable_key_at(key, now);
            Backoff::Immediately
        },
        ProviderFailure::Other => {
            let _credentials = pool.len();
            Backoff::Wait { seconds: FAILURE_DELAY_SECS }
        },
    }
}

/// Reacts to a failed provider call at the present moment; see
/// [`after_failure_at`].
pub fn after_failure(pool: &mut GeminiKeyManager, key: &str, failure: ProviderFailure) -> (backoff: Backoff)
    ensures
        pool_wf(final(pool)@),
        failure == ProviderFailure::RateLimited ==> backoff == Backoff::Immediately && exists|now: i64|
            in_calendar(now as int) && final(pool)@ == #[trigger] disable(
                old(pool)@,
                key@,
                next_day_start(now as int) as i64,
            ),
        failure == ProviderFailure::Other ==> backoff == (Backoff::Wait {
            seconds: FAILURE_DELAY_SECS,
        }) && final(pool)@ == old(pool)@,
{
    let now = utc_now_micros();
    let backoff = after_failure_at(pool, key, failure, now);
    proof {
        if failure == ProviderFailure::RateLimited {
            assert(pool@ == disable(old(pool)@, key@, next_day_start(now as int) as i64));
        }
    }
    backoff
}

} // verus!

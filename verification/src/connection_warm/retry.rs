//! The delays between failed warm attempts.
use vstd::arithmetic::power2::*;
use vstd::prelude::*;

verus! {

/// The delay after the first failure.
pub const FIRST_DELAY_MS: u64 = 1_000;

/// The longest delay.
pub const MAX_DELAY_MS: u64 = 30_000;

/// The delay after a failure that follows `failures` others: the first delay,
/// doubled for each of them, but never more than the longest.
pub open spec fn retry_delay_ms(failures: nat) -> nat {
    let doubled = FIRST_DELAY_MS as nat * pow2(failures);
    if doubled < MAX_DELAY_MS {
        doubled
    } else {
        MAX_DELAY_MS as nat
    }
}

/// Exponential backoff, bounded by the longest delay.
pub struct WarmRetryStrategy {
    next_ms: u64,
    failures: Ghost<nat>,
}

impl View for WarmRetryStrategy {
    type V = nat;

    /// The number of failures so far.
    closed spec fn view(&self) -> nat {
        self.failures@
    }
}

impl WarmRetryStrategy {
    #[verifier::type_invariant]
    spec fn is_current(self) -> bool {
        self.next_ms == retry_delay_ms(self.failures@)
    }

    /// A strategy that has seen no failure.
    pub fn new() -> (strategy: WarmRetryStrategy)
        ensures
            strategy@ == 0,
    {
        proof {
            lemma2_to64();
        }
        WarmRetryStrategy { next_ms: FIRST_DELAY_MS, failures: Ghost(0) }
    }

    /// Note a failure. Returns the delay before the next attempt, in
    /// milliseconds, and the strategy after the failure.
    pub fn after_failure(self) -> (r: (u64, WarmRetryStrategy))
        ensures
            r.0 == retry_delay_ms(self@),
            r.1@ == self@ + 1,
    {
        proof {
            use_type_invariant(&self);
            lemma_pow2_unfold(self.failures@ + 1);
            lemma_retry_delay_bounds(self.failures@);
        }
        let delay: u64 = self.next_ms;
        let next_ms: u64 = if delay * 2 < MAX_DELAY_MS {
            delay * 2
        } else {
            MAX_DELAY_MS
        };
        let failures: Ghost<nat> = Ghost(self.failures@ + 1);
        (delay, WarmRetryStrategy { next_ms, failures })
    }
}

/// Delays never fall below the first one nor exceed the longest, and they do
/// not shrink as failures add up.
pub proof fn lemma_retry_delay_bounds(failures: nat)
    ensures
        FIRST_DELAY_MS <= retry_delay_ms(failures) <= MAX_DELAY_MS,
        retry_delay_ms(failures) <= retry_delay_ms(failures + 1),
{
    lemma_pow2_pos(failures);
    lemma_pow2_unfold(failures + 1);
}

/// The first failure waits for one second, and every further one twice as long as
/// the one before, but never more than thirty seconds.
pub proof fn lemma_delays_double(
    strategy: WarmRetryStrategy,
    first: (u64, WarmRetryStrategy),
    second: (u64, WarmRetryStrategy),
)
    requires
        call_ensures(WarmRetryStrategy::after_failure, (strategy,), first),
        call_ensures(WarmRetryStrategy::after_failure, (first.1,), second),
    ensures
        call_ensures(WarmRetryStrategy::new, (), strategy) ==> first.0 == 1_000,
        second.0 == (if 2 * first.0 < 30_000 {
            2 * first.0
        } else {
            30_000
        }),
        1_000 <= first.0 <= 30_000,
{
    lemma2_to64();
    lemma_pow2_unfold(strategy@ + 1);
    lemma_retry_delay_bounds(strategy@);
}

} // verus!

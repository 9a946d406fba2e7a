//! Retry policy and exponential backoff with full jitter.
//!
//! A sleep lasts `rand(0, min(cap, base * 2^attempt))`: full jitter decorrelates
//! the retries of a fleet of workers that hammer the same engine.

use vstd::arithmetic::power2::{
    lemma2_to64, lemma_pow2_strictly_increases, lemma_pow2_unfold, pow2,
};
use vstd::prelude::*;

use crate::duration::{max_nanos, min_nat, Duration};

verus! {

/// How many times to try a single item, and the backoff envelope.
#[derive(Debug, Clone, Copy, PartialEq, Eq)]
pub struct RetryPolicy {
    /// Total attempts before an item is dead-lettered (1 = no retry).
    pub max_attempts: u32,
    /// Base delay; the exponential's unit.
    pub base: Duration,
    /// Upper bound on a single backoff sleep.
    pub cap: Duration,
}

impl Default for RetryPolicy {
    fn default() -> (p: Self)
        ensures
            p.max_attempts == 5,
            p.base@ == 500_000_000,
            p.cap@ == 30_000_000_000,
    {
        RetryPolicy {
            max_attempts: 5,
            base: Duration::from_millis(500),
            cap: Duration::from_secs(30),
        }
    }
}

/// `2^attempt`, or the greatest `u32` where that is less.
pub open spec fn growth(attempt: nat) -> nat {
    min_nat(pow2(attempt), u32::MAX as nat)
}

/// The longest sleep after the zero-based attempt `attempt`, in nanoseconds.
pub open spec fn backoff_limit(p: RetryPolicy, attempt: nat) -> nat {
    min_nat(min_nat(p.base@ * growth(attempt), max_nanos()), p.cap@)
}

/// `rand::Rng::gen_range` over `0..=limit`: some number of that range.
#[verifier::external_body]
fn random_up_to(limit: u128) -> (r: u128)
    ensures
        r <= limit,
{
    rand::Rng::gen_range(&mut rand::thread_rng(), 0..=limit)
}

fn saturating_pow2(attempt: u32) -> (r: u32)
    ensures
        r == growth(attempt as nat),
{
    proof {
        lemma2_to64();
    }
    if attempt >= 32 {
        proof {
            if attempt > 32 {
                lemma_pow2_strictly_increases(32, attempt as nat);
            }
        }
        return 4_294_967_295;
    }
    let mut r: u32 = 1;
    let mut i: u32 = 0;
    while i < attempt
        invariant
            i <= attempt < 32,
            r == pow2(i as nat),
        decreases attempt - i,
    {
        proof {
            lemma2_to64();
            lemma_pow2_unfold((i + 1) as nat);
            if i + 1 < 32 {
                lemma_pow2_strictly_increases((i + 1) as nat, 32);
            }
        }
        r = r * 2;
        i = i + 1;
    }
    proof {
        lemma_pow2_strictly_increases(attempt as nat, 32);
    }
    r
}

impl RetryPolicy {
    /// The longest sleep after a given (zero-based) attempt.
    pub fn backoff_ceiling(&self, attempt: u32) -> (d: Duration)
        ensures
            d@ == backoff_limit(*self, attempt as nat),
    {
        self.base.saturating_mul(saturating_pow2(attempt)).min(self.cap)
    }

    /// Full-jitter backoff for a given (zero-based) attempt number: some span
    /// between nothing and `min(cap, base * 2^attempt)`.
    pub fn backoff(&self, attempt: u32) -> (d: Duration)
        ensures
            d@ <= backoff_limit(*self, attempt as nat),
    {
        let ceiling: Duration = self.backoff_ceiling(attempt);
        Duration::from_total_nanos(random_up_to(ceiling.as_nanos()))
    }

    /// True once the attempt count has reached the cap.
    pub fn is_exhausted(&self, attempts: u32) -> (r: bool)
        ensures
            r == (attempts >= self.max_attempts),
    {
        attempts >= self.max_attempts
    }
}

/// No backoff sleep is longer than the policy's cap.
pub proof fn law_backoff_within_cap(p: RetryPolicy, attempt: nat)
    ensures
        backoff_limit(p, attempt) <= p.cap@,
{
}

/// The backoff envelope never shrinks from one attempt to the next.
pub proof fn law_backoff_envelope_grows(p: RetryPolicy, attempt: nat)
    ensures
        backoff_limit(p, attempt) <= backoff_limit(p, attempt + 1),
{
    lemma_pow2_strictly_increases(attempt, attempt + 1);
    let a = growth(attempt);
    let b = growth(attempt + 1);
    let base = p.base@;
    assert(base * a <= base * b) by (nonlinear_arith)
        requires
            a <= b,
    ;
}

/// The ceiling of the backoff starts at the base and doubles from attempt to attempt, until
/// it reaches the cap; no backoff is above it.
pub proof fn law_backoff_doubles_up_to_the_cap(
    p: &RetryPolicy,
    attempt: u32,
    now: Duration,
    next: Duration,
    first: Duration,
    wait: Duration,
)
    requires
        attempt < 31,
        p.base@ * 0x1_0000_0000 <= max_nanos(),
        call_ensures(RetryPolicy::backoff_ceiling, (p, attempt), now),
        call_ensures(RetryPolicy::backoff_ceiling, (p, (attempt + 1) as u32), next),
        call_ensures(RetryPolicy::backoff_ceiling, (p, 0u32), first),
        call_ensures(RetryPolicy::backoff, (p, attempt), wait),
    ensures
        first@ == if p.base@ <= p.cap@ {
            p.base@
        } else {
            p.cap@
        },
        next@ == if 2 * now@ <= p.cap@ {
            2 * now@
        } else {
            p.cap@
        },
        wait@ <= now@ <= p.cap@,
{
    let base = p.base@;
    lemma2_to64();
    lemma_pow2_strictly_increases(attempt as nat, 31);
    lemma_pow2_unfold((attempt + 1) as nat);
    if attempt + 1 < 31 {
        lemma_pow2_strictly_increases((attempt + 1) as nat, 31);
    }
    let g = pow2(attempt as nat);
    assert(growth(attempt as nat) == g);
    assert(growth((attempt + 1) as nat) == 2 * g);
    assert(growth(0) == 1);
    assert(base * (2 * g) == 2 * (base * g)) by (nonlinear_arith);
    assert(base * (2 * g) <= base * 0x1_0000_0000) by (nonlinear_arith)
        requires
            2 * g <= 0x1_0000_0000,
    ;
    assert(base * g <= base * (2 * g)) by (nonlinear_arith);
    assert(base * 1 == base);
}

/// Retries are exhausted once as many attempts have been made as the policy allows.
pub proof fn law_retries_run_out(p: &RetryPolicy, attempts: u32, r: bool)
    requires
        call_ensures(RetryPolicy::is_exhausted, (p, attempts), r),
    ensures
        r <==> attempts >= p.max_attempts,
{
}

} // verus!

//! Retries with exponential backoff.

use vstd::arithmetic::power2::{lemma_pow2_strictly_increases, lemma_pow2_unfold, pow2};
use vstd::prelude::*;

verus! {

/// How often an operation is tried, and how long to wait in between.
#[derive(Debug, Clone, Copy, PartialEq, Eq, Structural)]
pub struct RetryPolicy {
    /// How many attempts there are at most, the first one counted.
    pub max_attempts: usize,
    /// The first delay in milliseconds.
    pub base_delay_ms: u64,
    /// The longest delay in milliseconds.
    pub max_delay_ms: u64,
}

/// What follows an attempt that failed.
#[derive(Debug, Clone, Copy, PartialEq, Eq, Structural)]
pub enum RetryStep {
    /// The error stands.
    GiveUp,
    /// The operation is tried again after so many milliseconds.
    Wait(u64),
}

impl RetryPolicy {
    /// The delay behind an attempt before it is capped: the first delay, doubled for each attempt
    /// after the first.
    pub open spec fn backoff(&self, attempt: nat) -> nat {
        self.base_delay_ms as nat * pow2((attempt - 1) as nat)
    }

    /// The delay behind an attempt.
    pub open spec fn delay(&self, attempt: nat) -> nat {
        if self.backoff(attempt) < self.max_delay_ms {
            self.backoff(attempt)
        } else {
            self.max_delay_ms as nat
        }
    }

    /// What follows an attempt that failed.
    pub open spec fn step(&self, attempt: nat, worth_it: bool) -> RetryStep {
        if attempt >= self.max_attempts || !worth_it {
            RetryStep::GiveUp
        } else {
            RetryStep::Wait(self.delay(attempt) as u64)
        }
    }

    /// The delay behind an attempt.
    fn delay_after(&self, attempt: usize) -> (delay: u64)
        requires
            attempt >= 1,
        ensures
            delay == self.delay(attempt as nat),
    {
        if attempt > 64 {
            proof {
                vstd::arithmetic::power2::lemma2_to64();
                if attempt > 65 {
                    lemma_pow2_strictly_increases(64, (attempt - 1) as nat);
                }
                let power = pow2((attempt - 1) as nat) as int;
                let base = self.base_delay_ms as int;
                assert((base > 0 ==> base * power >= power) && (base == 0 ==> base * power == 0))
                    by (nonlinear_arith)
                    requires
                        power > 0,
                ;
            }
            return if self.base_delay_ms == 0 {
                0
            } else {
                self.max_delay_ms
            };
        }
        let power: u64 = power_of_two(attempt - 1);
        let backoff: u128 = mul_wide(self.base_delay_ms, power);
        if backoff < self.max_delay_ms as u128 {
            backoff as u64
        } else {
            self.max_delay_ms
        }
    }
}

/// The number two to a power.
fn power_of_two(exponent: usize) -> (power: u64)
    requires
        exponent < 64,
    ensures
        power == pow2(exponent as nat),
{
    let mut power: u64 = 1;
    let mut i: usize = 0;
    proof {
        vstd::arithmetic::power2::lemma2_to64();
    }
    while i < exponent
        invariant
            i <= exponent < 64,
            power == pow2(i as nat),
        decreases exponent - i,
    {
        proof {
            lemma_pow2_unfold((i + 1) as nat);
            vstd::arithmetic::power2::lemma2_to64();
            vstd::arithmetic::power2::lemma2_to64_rest();
            if i + 1 < 63 {
                lemma_pow2_strictly_increases((i + 1) as nat, 63);
            }
        }
        power = power * 2;
        i += 1;
    }
    power
}

/// An operation that is being tried.
#[derive(Debug, Clone, Copy, PartialEq, Eq, Structural)]
pub struct Retry {
    policy: RetryPolicy,
    attempt: usize,
}

impl Retry {
    pub closed spec fn policy(&self) -> RetryPolicy {
        self.policy
    }

    /// Which attempt is under way.
    pub closed spec fn attempt(&self) -> nat {
        self.attempt as nat
    }

    /// The first attempt.
    pub fn start(policy: RetryPolicy) -> (retry: Self)
        ensures
            retry.policy() == policy,
            retry.attempt() == 1,
    {
        Retry { policy, attempt: 1 }
    }

    /// What follows when the attempt under way has failed, given whether its error is one that is
    /// worth another attempt.
    pub fn after_failure(&mut self, worth_it: bool) -> (step: RetryStep)
        requires
            old(self).attempt() >= 1,
        ensures
            final(self).policy() == old(self).policy(),
            step == old(self).policy().step(old(self).attempt(), worth_it),
            final(self).attempt() == old(self).attempt() + if step is Wait {
                1nat
            } else {
                0nat
            },
    {
        if self.attempt >= self.policy.max_attempts || !worth_it {
            return RetryStep::GiveUp;
        }
        let delay: u64 = self.policy.delay_after(self.attempt);
        self.attempt = self.attempt + 1;
        RetryStep::Wait(delay)
    }
}

fn mul_wide(a: u64, b: u64) -> (product: u128)
    ensures
        product == a as nat * b as nat,
{
    assert(0 <= a as int * b as int <= u64::MAX as int * u64::MAX as int) by (nonlinear_arith)
        requires
            0 <= a <= u64::MAX,
            0 <= b <= u64::MAX,
    ;
    a as u128 * b as u128
}

/// Delays never shrink from one attempt to the next, and never exceed the longest delay.
pub proof fn law_delays_grow(policy: RetryPolicy, attempt: nat)
    requires
        attempt >= 1,
    ensures
        policy.delay(attempt) <= policy.delay(attempt + 1),
        policy.delay(attempt) <= policy.max_delay_ms,
{
    lemma_pow2_unfold(attempt);
    let p = pow2((attempt - 1) as nat) as int;
    let b = policy.base_delay_ms as int;
    assert(b * p <= b * (2 * p)) by (nonlinear_arith)
        requires
            0 <= b,
            0 <= p,
    ;
}

/// The first delay is the base delay, and each further one twice the one before, none longer than
/// the longest delay.
pub proof fn law_delays_double(policy: RetryPolicy, attempt: nat)
    requires
        attempt >= 1,
    ensures
        policy.delay(1) == if policy.base_delay_ms <= policy.max_delay_ms {
            policy.base_delay_ms
        } else {
            policy.max_delay_ms
        },
        policy.delay(attempt + 1) == if 2 * policy.delay(attempt) <= policy.max_delay_ms {
            2 * policy.delay(attempt)
        } else {
            policy.max_delay_ms as nat
        },
{
    vstd::arithmetic::power2::lemma2_to64();
    lemma_pow2_unfold(attempt);
    let p = pow2((attempt - 1) as nat) as int;
    let b = policy.base_delay_ms as int;
    assert(b * (2 * p) == 2 * (b * p)) by (nonlinear_arith);
    assert(policy.backoff(1) == b) by (nonlinear_arith)
        requires
            policy.backoff(1) == b * pow2(0) as int,
            pow2(0) == 1,
    ;
}

/// A failed attempt is followed by another exactly where it was not the last one and its error is
/// worth it, after the delay behind it.
pub proof fn law_steps(policy: RetryPolicy, attempt: nat, worth_it: bool)
    ensures
        policy.step(attempt, worth_it) is Wait <==> attempt < policy.max_attempts && worth_it,
        policy.step(attempt, worth_it) matches RetryStep::Wait(delay) ==> delay == policy.delay(
            attempt,
        ) && delay <= policy.max_delay_ms,
{
}

} // verus!

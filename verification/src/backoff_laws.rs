//! What holds of every backoff.
use crate::backoff::{
    least, retries_before, BackoffView, FactorView, FAR_EXPONENT, MAX_EXPONENT,
};
use crate::double::ONE;
use crate::duration::MAX_NANOS;
use vstd::arithmetic::power2::{
    lemma2_to64, lemma2_to64_rest, lemma_pow2_adds, lemma_pow2_pos, lemma_pow2_strictly_increases,
    pow2,
};
use vstd::prelude::*;

verus! {

/// No delay is longer than the cap.
pub proof fn law_delay_at_most_cap(v: BackoffView, attempt: nat, draw: nat)
    ensures
        v.delay(attempt, draw) <= v.cap,
        v.full_delay(attempt) <= v.cap,
{
}

/// With jitter every delay lies in `[d/2, d]`, where `d` is the delay without.
pub proof fn law_jitter_keeps_upper_half(v: BackoffView, attempt: nat, draw: nat)
    requires
        v.jitter,
    ensures
        v.full_delay(attempt) / 2 <= v.delay(attempt, draw) <= v.full_delay(attempt),
{
}

/// The first delay is the base, capped, whatever the factor.
pub proof fn law_first_delay_is_the_base(v: BackoffView, attempt: nat)
    requires
        attempt <= 1,
    ensures
        v.full_delay(attempt) == least(v.base, v.cap),
{
    lemma2_to64();
    let one = pow2(0) as int;
    let base = v.base;
    assert(base * one == base) by (nonlinear_arith)
        requires
            one == 1,
    ;
}

/// Doubling backoff waits `base`, `base*2`, `base*4`, ... and never more than
/// the cap, however large the attempt number. Attempt 0 counts as 1.
pub proof fn law_exponential_doubles(v: BackoffView, attempt: nat)
    requires
        v.factor.equals(2),
    ensures
        v.full_delay(attempt) == least(v.base * pow2(retries_before(attempt)), v.cap),
{
}

/// Doubling backoff that starts with any wait at all is at its cap from the
/// 97th retry on, whatever the base and the cap.
pub proof fn law_doubling_reaches_the_cap(v: BackoffView, attempt: nat)
    requires
        v.factor.equals(2),
        v.base >= 1,
        v.cap <= MAX_NANOS,
        attempt > FAR_EXPONENT,
    ensures
        v.full_delay(attempt) == v.cap,
{
    let p = pow2(retries_before(attempt));
    lemma2_to64();
    lemma2_to64_rest();
    lemma_pow2_adds(64, 32);
    if retries_before(attempt) > 96 {
        lemma_pow2_strictly_increases(96, retries_before(attempt));
    }
    let base = v.base;
    assert(base * p >= p) by (nonlinear_arith)
        requires
            base >= 1,
    ;
}

/// Doubling backoff never waits less before a later retry.
pub proof fn law_exponential_never_shrinks(v: BackoffView, earlier: nat, later: nat)
    requires
        v.factor.equals(2),
        earlier <= later,
    ensures
        v.full_delay(earlier) <= v.full_delay(later),
{
    let i = retries_before(earlier);
    let j = retries_before(later);
    if i < j {
        lemma_pow2_strictly_increases(i, j);
    }
    let a = pow2(i);
    let b = pow2(j);
    let base = v.base;
    assert(base * a <= base * b) by (nonlinear_arith)
        requires
            a <= b,
    ;
}

proof fn lemma_one_is_not_two(f: FactorView)
    requires
        f.equals(1),
    ensures
        !f.equals(2),
{
    lemma_pow2_pos(ONE as nat);
}

/// Constant backoff always waits its one delay, whatever the attempt.
pub proof fn law_constant_is_constant(v: BackoffView, attempt: nat, draw: nat)
    requires
        v.factor.equals(1),
        v.base == v.cap,
        !v.jitter,
    ensures
        v.delay(attempt, draw) == v.cap,
{
    lemma_one_is_not_two(v.factor);
}

/// With any factor but two the delay is that of the 33rd retry at the latest,
/// however large the attempt number.
pub proof fn law_late_attempts_alike(v: BackoffView, attempt: nat, draw: nat)
    requires
        !v.factor.equals(2),
        attempt > MAX_EXPONENT,
    ensures
        v.delay(attempt, draw) == v.delay((MAX_EXPONENT + 1) as nat, draw),
{
}

} // verus!

//! How long to wait between retries when the server didn't say.
use crate::backoff_laws::{law_delay_at_most_cap, law_jitter_keeps_upper_half};
use crate::double::{
    multiplied, power_of, powered, product, seconds, units, upper_half, whole_nanos, Double, ONE,
};
use crate::duration::{from_nanos, nanos, MAX_NANOS, NANOS_PER_SEC};
use std::time::Duration;
use vstd::arithmetic::power2::{lemma2_to64, lemma_pow2_adds, lemma_pow2_pos, pow2};
use vstd::prelude::*;

verus! {

/// One more than the largest jitter draw.
pub const DRAWS: u64 = 0x20_0000_0000_0000;

/// The highest power that is taken of a factor other than two.
pub const MAX_EXPONENT: u32 = 32;

/// From this power of two on, every delay that is not zero is beyond the
/// longest `Duration`.
pub const FAR_EXPONENT: u32 = 96;

/// Sign bit of a double-precision number.
pub const SIGN_BIT: u64 = 0x8000_0000_0000_0000;

/// The lowest exponent bit of a double-precision number, which is also its
/// hidden leading digit.
pub const HIDDEN_BIT: u64 = 0x10_0000_0000_0000;

/// What a [`Factor`] stands for: a number of magnitude `size`, in units of
/// `2^-1074`, or, where not `finite`, no number at all.
pub struct FactorView {
    pub finite: bool,
    pub negative: bool,
    pub size: nat,
}

impl FactorView {
    /// What the bits of a double-precision number stand for.
    pub open spec fn of_bits(bits: u64) -> FactorView {
        let biased = (bits as nat / HIDDEN_BIT as nat) % 2048;
        let fraction = bits as nat % HIDDEN_BIT as nat;
        FactorView {
            finite: biased != 2047,
            negative: bits >= SIGN_BIT,
            size: if biased == 2047 {
                0
            } else if biased == 0 {
                fraction
            } else {
                (HIDDEN_BIT as nat + fraction) * pow2((biased - 1) as nat)
            },
        }
    }

    /// The whole number `n`.
    pub open spec fn whole(n: nat) -> FactorView {
        FactorView { finite: true, negative: false, size: n * pow2(ONE as nat) }
    }

    /// Whether the factor is the whole number `n`.
    pub open spec fn equals(self, n: nat) -> bool {
        self == FactorView::whole(n)
    }

    /// The magnitude, if the factor is a number.
    pub open spec fn magnitude(self) -> Option<nat> {
        if self.finite {
            Some(self.size)
        } else {
            None
        }
    }
}

/// What the delay is multiplied by from one retry to the next: a
/// double-precision number.
#[derive(Debug, Clone, Copy)]
pub struct Factor {
    finite: bool,
    negative: bool,
    size: Double,
}

impl View for Factor {
    type V = FactorView;

    closed spec fn view(&self) -> FactorView {
        FactorView { finite: self.finite, negative: self.negative, size: self.size@ }
    }
}

impl Factor {
    /// The number whose double-precision bits are `bits`.
    pub fn from_bits(bits: u64) -> (f: Factor)
        ensures
            f@ == FactorView::of_bits(bits),
    {
        let biased: u64 = (bits / HIDDEN_BIT) % 2048;
        let fraction: u64 = bits % HIDDEN_BIT;
        let negative = bits >= SIGN_BIT;
        proof {
            lemma2_to64();
        }
        if biased == 2047 {
            Factor { finite: false, negative, size: Double::new(0, 0) }
        } else if biased == 0 {
            Factor { finite: true, negative, size: Double::new(fraction, 0) }
        } else {
            let size = Double::new(HIDDEN_BIT + fraction, (biased - 1) as u32);
            Factor { finite: true, negative, size }
        }
    }

    /// The whole number `n`.
    pub fn whole(n: u32) -> (f: Factor)
        ensures
            f@ == FactorView::whole(n as nat),
    {
        Factor { finite: true, negative: false, size: Double::new(n as u64, ONE) }
    }

    /// Whether the factor is the whole number `n`.
    fn equals(&self, n: u32) -> (r: bool)
        ensures
            r == self@.equals(n as nat),
    {
        let other = Factor::whole(n);
        self.finite && !self.negative && self.size.at_most(&other.size) && other.size.at_most(
            &self.size,
        )
    }

    /// The magnitude, if the factor is a number.
    fn magnitude(&self) -> (r: Option<Double>)
        ensures
            units(r) == self@.magnitude(),
    {
        if self.finite {
            Some(self.size)
        } else {
            None
        }
    }
}

/// What a [`Backoff`] stands for, with its times in nanoseconds.
pub struct BackoffView {
    pub base: nat,
    pub factor: FactorView,
    pub cap: nat,
    pub jitter: bool,
}

/// How many retries come before retry number `attempt`, where 0 counts as 1.
pub open spec fn retries_before(attempt: nat) -> nat {
    if attempt == 0 {
        0
    } else {
        (attempt - 1) as nat
    }
}

/// The lesser of two numbers.
pub open spec fn least(a: nat, b: nat) -> nat {
    if a <= b {
        a
    } else {
        b
    }
}

/// The power of the factor that applies before retry number `attempt`. That of
/// two keeps growing for as long as it makes a difference.
pub open spec fn exponent_of(factor: FactorView, attempt: nat) -> nat {
    if factor.equals(2) {
        least(retries_before(attempt), FAR_EXPONENT as nat)
    } else {
        least(retries_before(attempt), MAX_EXPONENT as nat)
    }
}

/// `x`, moved to the nearer end of the range from `low` to `high` where it is
/// outside.
pub open spec fn held(x: nat, low: nat, high: nat) -> nat {
    if x < low {
        low
    } else if x > high {
        high
    } else {
        x
    }
}

impl BackoffView {
    /// Magnitude of `base * factor^k` in seconds, in double precision, if that
    /// is a number and in range.
    pub open spec fn raw(self, k: nat) -> Option<nat> {
        product(
            Some(seconds(self.base)),
            powered(Some(pow2(ONE as nat)), self.factor.magnitude(), k),
        )
    }

    /// `base * factor^k` in seconds, in double precision, held between zero and
    /// the cap. Where there is no such number it is the cap.
    pub open spec fn capped(self, k: nat) -> nat {
        match self.raw(k) {
            Some(x) => if self.factor.negative && k % 2 == 1 {
                0
            } else {
                least(x, seconds(self.cap))
            },
            None => seconds(self.cap),
        }
    }

    /// The delay before retry number `attempt` in nanoseconds, jitter left
    /// aside.
    ///
    /// It is exact where it is the base, the base doubled so often, or the cap.
    /// With any other factor it is computed in double precision.
    pub open spec fn full_delay(self, attempt: nat) -> nat {
        let n = retries_before(attempt);
        let k = exponent_of(self.factor, attempt);
        if self.factor.equals(2) {
            least(self.base * pow2(n), self.cap)
        } else if self.factor.equals(1) || n == 0 {
            least(self.base, self.cap)
        } else if self.capped(k) == seconds(self.cap) {
            self.cap
        } else {
            least(whole_nanos(self.capped(k)), self.cap)
        }
    }

    /// The delay before retry number `attempt` in nanoseconds, where jitter
    /// drew `draw`: with jitter `d/2 + d/2 * draw/2^53` in double precision,
    /// and never outside of `[d/2, d]`, where `d` is the delay without.
    pub open spec fn delay(self, attempt: nat, draw: nat) -> nat {
        let full = self.full_delay(attempt);
        if self.jitter {
            let c = self.capped(exponent_of(self.factor, attempt));
            held(whole_nanos(upper_half(c, draw)), full / 2, full)
        } else {
            full
        }
    }
}

/// How long to wait between retries when the server didn't say.
///
/// Exponential with a cap. Jitter is "equal jitter": the delay is drawn
/// from `[d/2, d]`, so retries spread out without ever collapsing to ~0.
#[derive(Debug)]
pub struct Backoff {
    base: Duration,
    factor: Factor,
    cap: Duration,
    jitter: bool,
}

impl Clone for Backoff {
    fn clone(&self) -> (b: Backoff)
        ensures
            b == *self,
    {
        Backoff { base: self.base, factor: self.factor, cap: self.cap, jitter: self.jitter }
    }
}

impl View for Backoff {
    type V = BackoffView;

    closed spec fn view(&self) -> BackoffView {
        BackoffView {
            base: nanos(self.base),
            factor: self.factor@,
            cap: nanos(self.cap),
            jitter: self.jitter,
        }
    }
}

/// `rand::random` for a `u64`: 64 fresh random bits. Nothing is claimed of
/// them.
#[verifier::external_body]
fn random_bits() -> (bits: u64) {
    rand::random::<u64>()
}

/// `base` doubled `n` times, or `cap` if that is less.
fn doubled(base: u128, n: u32, cap: u128) -> (r: u128)
    requires
        base <= MAX_NANOS,
        cap <= MAX_NANOS,
    ensures
        r == least(base as nat * pow2(n as nat), cap as nat),
{
    if base == 0 {
        assert(0 * pow2(n as nat) == 0);
        return 0;
    }
    let mut d: u128 = base;
    let mut i: u32 = 0;
    proof {
        lemma2_to64();
        let one = pow2(0) as int;
        assert(base * one == base) by (nonlinear_arith)
            requires
                one == 1,
        ;
    }
    while i < n
        invariant
            i <= n,
            d == base * pow2(i as nat),
            d <= MAX_NANOS,
            cap <= MAX_NANOS,
        decreases n - i,
    {
        proof {
            lemma2_to64();
            lemma_pow2_adds(i as nat, 1);
            let p = pow2(i as nat) as int;
            assert(base * (p * 2) == (base * p) * 2) by (nonlinear_arith);
        }
        if d > cap / 2 {
            proof {
                let p = pow2((i + 1) as nat) as int;
                let q = pow2((n - i - 1) as nat) as int;
                lemma_pow2_adds((i + 1) as nat, (n - i - 1) as nat);
                lemma_pow2_pos((n - i - 1) as nat);
                assert(base * (p * q) == (d * 2) * q) by (nonlinear_arith)
                    requires
                        d * 2 == base * p,
                ;
                assert((d * 2) * q >= d * 2) by (nonlinear_arith)
                    requires
                        q >= 1,
                ;
            }
            return cap;
        }
        d = d * 2;
        i = i + 1;
    }
    if d <= cap {
        d
    } else {
        cap
    }
}

impl Backoff {
    /// `base`, `base*2`, `base*4`, ... capped at 30s, with jitter.
    pub fn exponential(base: Duration) -> (b: Backoff)
        ensures
            b@ == (BackoffView {
                base: nanos(base),
                factor: FactorView::whole(2),
                cap: 30 * NANOS_PER_SEC as nat,
                jitter: true,
            }),
    {
        Backoff { base, factor: Factor::whole(2), cap: Duration::new(30, 0), jitter: true }
    }

    /// Always `delay`, no jitter.
    pub fn constant(delay: Duration) -> (b: Backoff)
        ensures
            b@ == (BackoffView {
                base: nanos(delay),
                factor: FactorView::whole(1),
                cap: nanos(delay),
                jitter: false,
            }),
    {
        Backoff { base: delay, factor: Factor::whole(1), cap: delay, jitter: false }
    }

    /// What the delay is multiplied by from one retry to the next.
    pub fn factor(self, factor: Factor) -> (b: Backoff)
        ensures
            b@ == (BackoffView { factor: factor@, ..self@ }),
    {
        Backoff { base: self.base, factor, cap: self.cap, jitter: self.jitter }
    }

    /// The longest delay.
    pub fn cap(self, cap: Duration) -> (b: Backoff)
        ensures
            b@ == (BackoffView { cap: nanos(cap), ..self@ }),
    {
        Backoff { base: self.base, factor: self.factor, cap, jitter: self.jitter }
    }

    /// Whether each delay is drawn from its upper half.
    pub fn jitter(self, on: bool) -> (b: Backoff)
        ensures
            b@ == (BackoffView { jitter: on, ..self@ }),
    {
        Backoff { base: self.base, factor: self.factor, cap: self.cap, jitter: on }
    }

    /// `base * factor^k` in seconds, held between zero and the cap, which is
    /// `limit` in seconds.
    fn capped(&self, k: u32, limit: Double) -> (c: Double)
        requires
            limit@ == seconds(self@.cap),
        ensures
            c@ == self@.capped(k as nat),
            c@ <= limit@,
    {
        let base = Some(Double::seconds(self.base.as_nanos()));
        let power = power_of(self.factor.magnitude(), k);
        match multiplied(&base, &power) {
            Some(x) => if self.factor.negative && k % 2 == 1 {
                Double::new(0, 0)
            } else if x.at_most(&limit) {
                x
            } else {
                limit
            },
            None => limit,
        }
    }

    /// The delay before retry number `attempt` in nanoseconds, jitter left
    /// aside. `c` and `limit` are the capped number of seconds and the cap.
    fn full_delay(&self, attempt: u32, c: &Double, limit: &Double) -> (n: u128)
        requires
            c@ == self@.capped(exponent_of(self@.factor, attempt as nat)),
            limit@ == seconds(self@.cap),
            c@ <= limit@,
        ensures
            n == self@.full_delay(attempt as nat),
            n <= self@.cap <= MAX_NANOS,
    {
        let base: u128 = self.base.as_nanos();
        let cap: u128 = self.cap.as_nanos();
        let retries: u32 = if attempt == 0 {
            0
        } else {
            attempt - 1
        };
        if self.factor.equals(2) {
            doubled(base, retries, cap)
        } else if self.factor.equals(1) || retries == 0 {
            if base <= cap {
                base
            } else {
                cap
            }
        } else if limit.at_most(c) {
            cap
        } else {
            match c.whole_nanos() {
                Some(n) => if n <= cap {
                    n
                } else {
                    cap
                },
                None => cap,
            }
        }
    }

    /// Delay before retry number `attempt` (1 = the wait after the first
    /// failure), where jitter drew `draw` out of `2^53`.
    pub fn delay_with(&self, attempt: u32, draw: u64) -> (d: Duration)
        requires
            draw < DRAWS,
        ensures
            nanos(d) == self@.delay(attempt as nat, draw as nat),
    {
        let retries: u32 = if attempt == 0 {
            0
        } else {
            attempt - 1
        };
        let most: u32 = if self.factor.equals(2) {
            FAR_EXPONENT
        } else {
            MAX_EXPONENT
        };
        let k: u32 = if retries <= most {
            retries
        } else {
            most
        };
        let limit = Double::seconds(self.cap.as_nanos());
        let c = self.capped(k, limit);
        let full: u128 = self.full_delay(attempt, &c, &limit);
        if !self.jitter {
            return from_nanos(full);
        }
        let n: u128 = match c.upper_half(draw).whole_nanos() {
            Some(n) => if n < full / 2 {
                full / 2
            } else if n > full {
                full
            } else {
                n
            },
            None => full,
        };
        from_nanos(n)
    }

    /// Delay before retry number `attempt` (1 = the wait after the first failure).
    ///
    /// With jitter on, the draw comes from [`rand`]; whatever it is, the delay
    /// is the one that [`delay_with`](Backoff::delay_with) gives for it.
    pub fn delay(&self, attempt: u32) -> (d: Duration)
        ensures
            exists|draw: nat|
                draw < DRAWS && nanos(d) == #[trigger] self@.delay(attempt as nat, draw),
            !self@.jitter ==> nanos(d) == self@.full_delay(attempt as nat),
            self@.jitter ==> self@.full_delay(attempt as nat) / 2 <= nanos(d)
                <= self@.full_delay(attempt as nat),
            nanos(d) <= self@.cap,
    {
        let draw: u64 = if self.jitter {
            random_bits() / 2048
        } else {
            0
        };
        let d = self.delay_with(attempt, draw);
        proof {
            assert(nanos(d) == self@.delay(attempt as nat, draw as nat));
            law_delay_at_most_cap(self@, attempt as nat, draw as nat);
            if self.jitter {
                law_jitter_keeps_upper_half(self@, attempt as nat, draw as nat);
            }
        }
        d
    }
}

impl Default for Backoff {
    fn default() -> (b: Backoff)
        ensures
            b@ == (BackoffView {
                base: 500_000_000,
                factor: FactorView::whole(2),
                cap: 30 * NANOS_PER_SEC as nat,
                jitter: true,
            }),
    {
        Backoff::exponential(Duration::new(0, 500_000_000))
    }
}

} // verus!

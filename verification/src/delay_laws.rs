//! That a delay is what its settings ask for: the base, times the factor to the
//! power of the retries, up to the cap.
use crate::accuracy::{
    half_unit, huge, law_powers_are_accurate, law_seconds_are_accurate, law_upper_half_is_accurate,
    law_whole_nanos_are_nearest, lemma_near_times, lemma_nearest_near, lemma_powered_none,
    lemma_product_near, lemma_real_power_side, lemma_unit, lesser, near, real_power, value,
};
use crate::backoff::{exponent_of, retries_before, BackoffView, FactorView};
use crate::double::{nearest, powered, product, seconds, upper_half, whole_nanos, ONE};
use crate::duration::MAX_NANOS;
use vstd::arithmetic::power2::{
    lemma2_to64, lemma2_to64_rest, lemma_pow2_adds, lemma_pow2_strictly_increases, pow2,
};
use vstd::prelude::*;

verus! {

/// `base * factor^k` in seconds is off by about a hundred steps of the last
/// digit at most, and out of range only where it is huge.
proof fn lemma_raw_near(v: BackoffView, k: nat)
    requires
        v.factor.finite,
        v.base <= MAX_NANOS,
        k <= 96,
    ensures
        ({
            let f = real_power(value(v.factor.size), k);
            let t = v.base as real / 1000000000real;
            match v.raw(k) {
                Some(r) => near(value(r), t * f, 100real, 1real / 4611686018427387904real)
                    && value(r) >= 0real,
                None => f >= huge() / 8real || t * f >= huge() / 8real,
            }
        }),
{
    let f = real_power(value(v.factor.size), k);
    let t = v.base as real / 1000000000real;
    let s = seconds(v.base);
    let pow = powered(Some(pow2(ONE as nat)), Some(v.factor.size), k);
    let g = huge();
    lemma_unit();
    law_powers_are_accurate(v.factor.size, k);
    law_seconds_are_accurate(v.base);
    let un = pow2(1074) as real;
    let sz = v.factor.size as real;
    assert(value(v.factor.size) >= 0real) by (nonlinear_arith)
        requires
            value(v.factor.size) == sz / un,
            sz >= 0real,
            un > 0real,
    ;
    lemma_real_power_side(value(v.factor.size), k);
    if pow is Some {
        let p = pow->0;
        lemma_product_near(s, p);
        let sv = value(s);
        let pv = value(p);
        let x = sv * pv;
        let kr = k as real;
        let big = value(v.factor.size) >= 1real;
        let b = if big {
            0real
        } else {
            1real / g
        };
        let w = 73786976294838206464real;
        assert(t <= w && t >= 0real);
        assert(0real < 1real / g <= 1real / (w * w)) by (nonlinear_arith)
            requires
                g >= w * w,
                w == 73786976294838206464real,
        ;
        assert(sv <= 2real * t) by (nonlinear_arith)
            requires
                sv <= t + t * 2real / 4503599627370496real + 0real,
                t >= 0real,
        ;
        assert(pv <= 2real * f + b) by (nonlinear_arith)
            requires
                pv <= f + f * kr / 4503599627370496real + b,
                0real <= kr <= 96real,
                f >= 0real,
        ;
        match product(Some(s), Some(p)) {
            Some(r) => {
                // Scaled down so that the base is below one.
                let a1 = sv / w;
                let t1 = t / w;
                let rv = value(r);
                let r1 = rv / w;
                let h1 = half_unit() / w;
                let rr = r as real;
                let h = 4503599627370496real;
                assert(rv >= 0real) by (nonlinear_arith)
                    requires
                        rv == rr / un,
                        rr >= 0real,
                        un > 0real,
                ;
                assert(near(a1, t1, 2real, 0real)) by {
                    assert(t1 - t1 * 2real / h - 0real <= a1 <= t1 + t1 * 2real / h + 0real)
                        by (nonlinear_arith)
                        requires
                            a1 == sv / w,
                            t1 == t / w,
                            t - t * 2real / h <= sv <= t + t * 2real / h,
                            w == 73786976294838206464real,
                            h == 4503599627370496real,
                    ;
                }
                let y = a1 * pv;
                assert(y == x / w && 0real <= t1 <= 1real && a1 >= 0real && r1 >= 0real && h1
                    >= 0real) by (nonlinear_arith)
                    requires
                        y == (sv / w) * pv,
                        a1 == sv / w,
                        x == sv * pv,
                        t1 == t / w,
                        0real <= t <= w,
                        sv >= 0real,
                        r1 == rv / w,
                        rv >= 0real,
                        h1 == half_unit() / w,
                        half_unit() > 0real,
                        w == 73786976294838206464real,
                ;
                assert(y - y / 9007199254740992real - h1 <= r1 <= y + y / 9007199254740992real + h1)
                    by (nonlinear_arith)
                    requires
                        y == x / w,
                        r1 == rv / w,
                        h1 == half_unit() / w,
                        x - x / 9007199254740992real - half_unit() <= rv <= x + x
                            / 9007199254740992real + half_unit(),
                        w == 73786976294838206464real,
                ;
                assert(b <= 1real);
                lemma_near_times(a1, t1, 2real, 0real, pv, f, kr, b, r1, h1);
                let m1 = t1 * f;
                let m = t * f;
                let c = 2real + kr + 1real;
                let e = 8real * (0real + b) + h1;
                assert(m1 == m / w && m >= 0real) by (nonlinear_arith)
                    requires
                        m1 == (t / w) * f,
                        m == t * f,
                        t >= 0real,
                        f >= 0real,
                        w == 73786976294838206464real,
                ;
                assert(h1 <= 1real / (w * w)) by (nonlinear_arith)
                    requires
                        h1 == half_unit() / w,
                        half_unit() * g * g <= 1real,
                        half_unit() > 0real,
                        g >= w * w,
                        w == 73786976294838206464real,
                {
                    assert(g * g >= w) by (nonlinear_arith)
                        requires
                            g >= w * w,
                            w == 73786976294838206464real,
                    ;
                    assert(half_unit() * (g * g) >= half_unit() * w) by (nonlinear_arith)
                        requires
                            g * g >= w,
                            half_unit() > 0real,
                    ;
                    assert(half_unit() * g * g == half_unit() * (g * g));
                    assert(half_unit() * w <= 1real);
                    assert(h1 * (w * w) <= 1real) by (nonlinear_arith)
                        requires
                            h1 == half_unit() / w,
                            half_unit() * w <= 1real,
                            w == 73786976294838206464real,
                    ;
                }
                assert(e * w <= 1real / 4611686018427387904real) by (nonlinear_arith)
                    requires
                        e == 8real * (0real + b) + h1,
                        b <= 1real / (w * w),
                        h1 <= 1real / (w * w),
                        w == 73786976294838206464real,
                ;
                lemma_scale_back(rv, m, c, e, w, r1, m1);
            },
            None => {
                assert(t * f >= g / 8real) by (nonlinear_arith)
                    requires
                        x >= g,
                        x == sv * pv,
                        0real <= sv <= 2real * t,
                        0real <= pv <= 2real * f + b,
                        0real <= b <= 1real / (w * w),
                        0real <= t <= w,
                        f >= 0real,
                        g >= w * w,
                        w == 73786976294838206464real,
                {
                    assert(x <= (2real * t) * (2real * f + b));
                    assert((2real * t) * (2real * f + b) == 4real * (t * f) + 2real * (t * b));
                    assert(t * b <= 1real) by (nonlinear_arith)
                        requires
                            0real <= t <= w,
                            0real <= b <= 1real / (w * w),
                            w == 73786976294838206464real,
                    ;
                }
            },
        }
    }
}

proof fn lemma_scale_back(rv: real, m: real, c: real, e: real, w: real, r1: real, m1: real)
    requires
        near(r1, m1, c, e),
        r1 == rv / w,
        m1 == m / w,
        m >= 0real,
        w == 73786976294838206464real,
        0real <= c <= 99real,
        e * w <= 1real / 4611686018427387904real,
    ensures
        near(rv, m, 100real, 1real / 4611686018427387904real),
{
    let h = 4503599627370496real;
    assert(m - m * 100real / h - e * w <= rv <= m + m * 100real / h + e * w) by (nonlinear_arith)
        requires
            m1 - m1 * c / h - e <= r1 <= m1 + m1 * c / h + e,
            r1 == rv / w,
            m1 == m / w,
            m >= 0real,
            w == 73786976294838206464real,
            h == 4503599627370496real,
            0real <= c <= 99real,
    {
        assert(r1 * w == rv && m1 * w == m);
        let d = m * c / h;
        assert((m1 * c / h) * w == d);
        assert(d <= m * 100real / h) by (nonlinear_arith)
            requires
                d == m * c / h,
                m >= 0real,
                0real <= c <= 99real,
                h == 4503599627370496real,
        ;
    }
}

/// The capped number of seconds, in nanoseconds, next to the cap.
proof fn lemma_capped_near(v: BackoffView, k: nat)
    requires
        v.factor.finite,
        !v.factor.negative || k % 2 == 0,
        1 <= v.base <= MAX_NANOS,
        v.cap <= MAX_NANOS,
        k <= 96,
    ensures
        ({
            let x = v.base as real * real_power(value(v.factor.size), k);
            let cap = v.cap as real;
            let c = value(v.capped(k)) * 1000000000real;
            let z = value(seconds(v.cap)) * 1000000000real;
            let off = x * 100real / 4503599627370496real + 1real / 1073741824real;
            &&& x >= 0real
            &&& cap - cap / 1125899906842624real <= z <= cap + cap / 1125899906842624real
            &&& 0real <= c <= z
            &&& v.capped(k) == seconds(v.cap) ==> c == z && z <= x + off
            &&& v.capped(k) != seconds(v.cap) ==> x - off <= c <= x + off && c < z
        }),
{
    let f = real_power(value(v.factor.size), k);
    let base = v.base as real;
    let t = base / 1000000000real;
    let x = base * f;
    let limit = seconds(v.cap);
    lemma_unit();
    lemma_raw_near(v, k);
    law_seconds_are_accurate(v.cap);
    let un = pow2(1074) as real;
    let sz = v.factor.size as real;
    assert(value(v.factor.size) >= 0real) by (nonlinear_arith)
        requires
            value(v.factor.size) == sz / un,
            sz >= 0real,
            un > 0real,
    ;
    lemma_real_power_side(value(v.factor.size), k);
    assert(x >= 0real && x == (t * f) * 1000000000real) by (nonlinear_arith)
        requires
            x == base * f,
            t == base / 1000000000real,
            base >= 0real,
            f >= 0real,
    ;
    let lr = limit as real;
    let cr = v.capped(k) as real;
    assert(cr <= lr ==> cr / un <= lr / un) by (nonlinear_arith)
        requires
            un > 0real,
    ;
    assert(cr < lr ==> cr / un < lr / un) by (nonlinear_arith)
        requires
            un > 0real,
    ;
    assert(cr / un >= 0real) by (nonlinear_arith)
        requires
            cr >= 0real,
            un > 0real,
    ;
    match v.raw(k) {
        Some(r) => {
            let rr = r as real;
            assert(rr >= lr ==> rr / un >= lr / un) by (nonlinear_arith)
                requires
                    un > 0real,
            ;
            let m = t * f;
            assert((m * 100real / 4503599627370496real) * 1000000000real == x * 100real
                / 4503599627370496real) by (nonlinear_arith)
                requires
                    x == m * 1000000000real,
            ;
        },
        None => {
            let g = huge();
            assert(x >= g / 8real) by (nonlinear_arith)
                requires
                    f >= g / 8real || t * f >= g / 8real,
                    x == base * f,
                    x == (t * f) * 1000000000real,
                    base >= 1real,
                    f >= 0real,
                    g > 0real,
            ;
        },
    }
}

/// Without jitter, the delay before retry number `attempt` is the base times
/// the factor to the power of the retries before it, or the cap if that is
/// less. It is off by at most a `2^45`th of that and one nanosecond.
///
/// The power stops at the 32nd, except for doubling, which goes on. A negative
/// factor counts where its power is positive. Attempt 0 counts as 1. Without a
/// base there is nothing to multiply; see [`law_nothing_stays_nothing`].
pub proof fn law_delay_is_base_times_power(v: BackoffView, attempt: nat)
    requires
        v.factor.finite,
        1 <= v.base <= MAX_NANOS,
        v.cap <= MAX_NANOS,
        v.factor.negative ==> attempt == 0 || attempt % 2 == 1 || attempt > 33,
    ensures
        ({
            let doubles = !v.factor.negative && value(v.factor.size) == 2real;
            let n = if attempt <= 1 {
                0nat
            } else if attempt <= 33 || doubles {
                (attempt - 1) as nat
            } else {
                32nat
            };
            let exact = v.base as real * real_power(value(v.factor.size), n);
            let right = lesser(exact, v.cap as real);
            let off = right / 35184372088832real + 1real;
            right - off <= v.full_delay(attempt) as real <= right + off
        }),
{
    let f = value(v.factor.size);
    let base = v.base as real;
    let cap = v.cap as real;
    let un = pow2(1074);
    let u = un as real;
    lemma_unit();
    let sz = v.factor.size as real;
    assert(f == 2real <==> sz == 2real * u) by (nonlinear_arith)
        requires
            f == sz / u,
            u > 0real,
    ;
    let n = if attempt <= 1 {
        0nat
    } else if attempt <= 33 || (!v.factor.negative && f == 2real) {
        (attempt - 1) as nat
    } else {
        32nat
    };
    let p = real_power(f, n);
    assert(f >= 0real) by (nonlinear_arith)
        requires
            f == sz / u,
            sz >= 0real,
            u > 0real,
    ;
    lemma_real_power_side(f, n);
    if v.factor.equals(2) {
        assert(f == 2real) by (nonlinear_arith)
            requires
                f == sz / u,
                sz == 2real * u,
                u > 0real,
        ;
        lemma_real_power_of_two(n);
        let q = pow2(n);
        let bq = v.base * q;
        assert(bq as real == base * (q as real)) by (nonlinear_arith)
            requires
                bq == v.base * q,
                base == v.base as real,
        ;
    } else if v.factor.equals(1) || retries_before(attempt) == 0 {
        if v.factor.equals(1) {
            assert(f == 1real) by (nonlinear_arith)
                requires
                    f == sz / u,
                    sz == u,
                    u > 0real,
            ;
        }
        assert(base * p == base) by (nonlinear_arith)
            requires
                p == 1real,
        ;
    } else {
        let k = exponent_of(v.factor, attempt);
        assert(k == n);
        lemma_capped_near(v, k);
        law_whole_nanos_are_nearest(v.capped(k));
    }
}

/// The law above for a whole factor `m`: the delays are about `base`, `base*m`,
/// `base*m*m`, ..., up to the cap.
pub proof fn law_whole_factor_multiplies(v: BackoffView, m: nat, attempt: nat)
    requires
        v.factor.equals(m),
        1 <= v.base <= MAX_NANOS,
        v.cap <= MAX_NANOS,
        1 <= attempt <= 33,
    ensures
        ({
            let exact = v.base as real * real_power(m as real, (attempt - 1) as nat);
            let right = lesser(exact, v.cap as real);
            let off = right / 35184372088832real + 1real;
            right - off <= v.full_delay(attempt) as real <= right + off
        }),
{
    lemma_whole_value(m);
    law_delay_is_base_times_power(v, attempt);
}

/// A whole number is worth itself as a factor.
proof fn lemma_whole_value(m: nat)
    ensures
        value(FactorView::whole(m).size) == m as real,
{
    lemma_unit();
    let un = pow2(1074);
    let u = un as real;
    let mr = m as real;
    let s = m * un;
    assert(s as real == mr * u) by (nonlinear_arith)
        requires
            s == m * un,
            u == un as real,
            mr == m as real,
    ;
    assert((mr * u) / u == mr) by (nonlinear_arith)
        requires
            u > 0real,
    ;
}

/// Where the power is negative there is nothing to wait for, unless it is huge.
pub proof fn law_negative_power_waits_nothing(v: BackoffView, attempt: nat)
    requires
        v.factor.finite,
        v.factor.negative,
        v.base <= MAX_NANOS,
        attempt >= 2,
        attempt % 2 == 0,
        attempt <= 32,
        real_power(value(v.factor.size), (attempt - 1) as nat) <= 1000000000000000000real,
    ensures
        v.full_delay(attempt) == 0,
{
    let k = exponent_of(v.factor, attempt);
    let f = real_power(value(v.factor.size), k);
    let t = v.base as real / 1000000000real;
    lemma_raw_near(v, k);
    assert(t * f <= 1000000000000000000real * 1000000000000000000000real) by (nonlinear_arith)
        requires
            0real <= t <= 1000000000000000000000real,
            f <= 1000000000000000000real,
    ;
    lemma_nothing_is_nothing();
    if seconds(v.cap) == 0 {
        lemma_only_nothing_is_nothing(v.cap);
    }
}

/// Only no time at all is no seconds.
proof fn lemma_only_nothing_is_nothing(n: nat)
    requires
        seconds(n) == 0,
    ensures
        n == 0,
{
    law_seconds_are_accurate(n);
    lemma_unit();
    let u = pow2(1074) as real;
    assert(0real / u == 0real) by (nonlinear_arith)
        requires
            u > 0real,
    ;
}

proof fn lemma_nothing_is_nothing()
    ensures
        whole_nanos(0) == 0,
{
    law_whole_nanos_are_nearest(0);
    lemma_unit();
    let u = pow2(1074) as real;
    assert(0real / u == 0real) by (nonlinear_arith)
        requires
            u > 0real,
    ;
}

/// Times no base, any factor makes no delay, unless its power is huge.
pub proof fn law_nothing_stays_nothing(v: BackoffView, attempt: nat)
    requires
        v.factor.finite,
        v.base == 0,
        real_power(value(v.factor.size), if attempt <= 1 {
            0nat
        } else if attempt <= 33 {
            (attempt - 1) as nat
        } else {
            32nat
        }) <= 1000000000000000000real,
    ensures
        v.full_delay(attempt) == 0,
{
    let k = exponent_of(v.factor, attempt);
    assert(0 * pow2(retries_before(attempt)) == 0);
    if !v.factor.equals(2) {
        let f = real_power(value(v.factor.size), k);
        let t = 0real / 1000000000real;
        lemma_raw_near(v, k);
        assert(0real * f == 0real) by (nonlinear_arith);
        law_seconds_are_accurate(0);
        lemma_unit();
        let u = pow2(1074) as real;
        let s = seconds(0);
        let sr = s as real;
        assert(sr == 0real) by (nonlinear_arith)
            requires
                sr / u == 0real,
                u > 0real,
        ;
        let pow = powered(Some(pow2(ONE as nat)), Some(v.factor.size), k);
        if pow is Some {
            lemma_product_near(0, pow->0);
            let n = nearest(0 * pow->0, pow2(1074));
            assert(0 * pow->0 == 0);
            lemma_nearest_of_nothing(pow2(1074));
        }
        lemma_nothing_is_nothing();
        if seconds(v.cap) == 0 {
        lemma_only_nothing_is_nothing(v.cap);
    }
    }
}

proof fn lemma_nearest_of_nothing(q: nat)
    requires
        q > 0,
    ensures
        nearest(0, q) == 0,
{
    lemma_nearest_near(0, q);
}

/// A factor that is no number makes every delay but the first the cap.
pub proof fn law_no_number_waits_the_cap(v: BackoffView, attempt: nat)
    requires
        !v.factor.finite,
        attempt >= 2,
    ensures
        v.full_delay(attempt) == v.cap,
{
    lemma_powered_none(Some(pow2(ONE as nat)), None, exponent_of(v.factor, attempt));
}

/// With jitter, the delay lies between half and all of the delay without as far
/// up as the draw says, off by at most a `2^43`rd of it and three nanoseconds:
/// a draw of nothing is half of it, and the draws are spread evenly.
pub proof fn law_jitter_follows_the_draw(v: BackoffView, attempt: nat, draw: nat)
    requires
        v.jitter,
        v.factor.finite,
        1 <= v.base <= MAX_NANOS,
        v.cap <= MAX_NANOS,
        v.factor.negative ==> attempt == 0 || attempt % 2 == 1 || attempt > 33,
        draw < 0x20_0000_0000_0000,
    ensures
        ({
            let d = v.full_delay(attempt) as real;
            let right = d / 2real + (d * draw as real) / 18014398509481984real;
            let off = d / 8796093022208real + 3real;
            right - off <= v.delay(attempt, draw) as real <= right + off
        }),
{
    let k = exponent_of(v.factor, attempt);
    let c = v.capped(k);
    let s = upper_half(c, draw);
    law_delay_is_base_times_power(v, attempt);
    lemma_full_next_to_capped(v, attempt);
    law_upper_half_is_accurate(c, draw);
    law_whole_nanos_are_nearest(s);
    lemma_unit();
    let u = pow2(1074) as real;
    let g = 1000000000real;
    let cr = c as real;
    let sr = s as real;
    let dr = draw as real;
    let full = v.full_delay(attempt) as real;
    let cn = (cr / u) * g;
    let sn = (sr / u) * g;
    let t = dr / 9007199254740992real;
    assert(0real <= t <= 1real) by (nonlinear_arith)
        requires
            t == dr / 9007199254740992real,
            0real <= dr <= 9007199254740992real,
    ;
    let ct = cn * t;
    let ft = full * t;
    assert((full * dr) / 18014398509481984real == ft / 2real) by (nonlinear_arith)
        requires
            ft == full * t,
            t == dr / 9007199254740992real,
    ;
    let tiny = 4real * g / u;
    assert(tiny <= 1real / 1024real && tiny >= 0real) by (nonlinear_arith)
        requires
            tiny == 4real * g / u,
            g == 1000000000real,
            u >= 4096000000000000real,
    ;
    assert(u >= 4096000000000000real) by {
        let h = huge();
        assert(h * h >= h) by (nonlinear_arith)
            requires
                h >= 1real,
        ;
    }
    assert(cn / 2real + ct / 2real - cn / 1125899906842624real - tiny <= sn <= cn / 2real + ct
        / 2real + cn / 1125899906842624real + tiny) by (nonlinear_arith)
        requires
            cn == (cr / u) * g,
            sn == (sr / u) * g,
            ct == cn * t,
            t == dr / 9007199254740992real,
            tiny == 4real * g / u,
            g == 1000000000real,
            u > 0real,
            cr / 2real + (cr * dr) / 18014398509481984real - (cr / 1125899906842624real + 4real)
                <= sr <= cr / 2real + (cr * dr) / 18014398509481984real + (cr
                / 1125899906842624real + 4real),
    {
        let a = cr / u;
        let b = sr / u;
        assert(cr == a * u && sr == b * u);
        let e = (cr * dr) / 18014398509481984real;
        assert(e == (a * t / 2real) * u);
        let q = 4real / u;
        assert(q * u == 4real);
        assert(b <= a / 2real + a * t / 2real + a / 1125899906842624real + q) by (nonlinear_arith)
            requires
                b * u <= (a * u) / 2real + (a * t / 2real) * u + ((a * u) / 1125899906842624real
                    + q * u),
                u > 0real,
        ;
        assert(b >= a / 2real + a * t / 2real - a / 1125899906842624real - q) by (nonlinear_arith)
            requires
                b * u >= (a * u) / 2real + (a * t / 2real) * u - ((a * u) / 1125899906842624real
                    + q * u),
                u > 0real,
        ;
        assert(tiny == q * g);
        assert(ct / 2real == (a * t / 2real) * g);
    }
    let off = full * 260real / 4503599627370496real + 2real;
    assert(ct - off <= ft <= ct + off) by (nonlinear_arith)
        requires
            ct == cn * t,
            ft == full * t,
            0real <= t <= 1real,
            cn - off <= full <= cn + off,
            off >= 0real,
    ;
    assert(0real <= ft <= full) by (nonlinear_arith)
        requires
            ft == full * t,
            0real <= t <= 1real,
            full >= 0real,
    ;
}

/// The delay without jitter is next to what jitter draws from.
proof fn lemma_full_next_to_capped(v: BackoffView, attempt: nat)
    requires
        v.factor.finite,
        1 <= v.base <= MAX_NANOS,
        v.cap <= MAX_NANOS,
        v.factor.negative ==> attempt == 0 || attempt % 2 == 1 || attempt > 33,
    ensures
        ({
            let full = v.full_delay(attempt) as real;
            let c = value(v.capped(exponent_of(v.factor, attempt))) * 1000000000real;
            let off = full * 260real / 4503599627370496real + 2real;
            c - off <= full <= c + off
        }),
{
    let k = exponent_of(v.factor, attempt);
    let f = value(v.factor.size);
    let un = pow2(1074);
    let u = un as real;
    let sz = v.factor.size as real;
    lemma_unit();
    lemma_capped_near(v, k);
    law_whole_nanos_are_nearest(v.capped(k));
    law_delay_is_base_times_power(v, attempt);
    assert(f == 2real <==> sz == 2real * u) by (nonlinear_arith)
        requires
            f == sz / u,
            u > 0real,
    ;
    if v.factor.equals(2) && retries_before(attempt) > 96 {
        // Both are at the cap.
        let n = retries_before(attempt);
        let base = v.base as real;
        lemma_real_power_of_two(n);
        lemma_real_power_of_two(96);
        lemma2_to64();
        lemma2_to64_rest();
        lemma_pow2_adds(64, 32);
        lemma_pow2_strictly_increases(96, n);
        let q = pow2(n) as real;
        let p = pow2(96) as real;
        assert(base * q >= q && base * p >= p) by (nonlinear_arith)
            requires
                base >= 1real,
                q > 0real,
                p > 0real,
        ;
    }
}

proof fn lemma_real_power_of_two(n: nat)
    ensures
        real_power(2real, n) == pow2(n) as real,
    decreases n,
{
    lemma2_to64();
    if n > 0 {
        lemma_real_power_of_two((n - 1) as nat);
        lemma_pow2_adds((n - 1) as nat, 1);
    }
}

/// What the bits of a factor mean. Clearing the sign bit takes only the sign
/// away. Bits below `2^53` count units. One more in the exponent doubles the
/// factor, for as long as there is an exponent to spare. And a factor is no
/// number exactly where the exponent is all ones.
pub proof fn law_bits_of_a_factor(bits: u64)
    ensures
        FactorView::of_bits(bits).negative <==> bits >= 0x8000_0000_0000_0000,
        FactorView::of_bits(bits).finite <==> (bits % 0x8000_0000_0000_0000)
            < 0x7ff0_0000_0000_0000,
        bits < 0x8000_0000_0000_0000 ==> FactorView::of_bits((bits + 0x8000_0000_0000_0000) as u64)
            == (FactorView { negative: true, ..FactorView::of_bits(bits) }),
        bits < 0x20_0000_0000_0000 ==> FactorView::of_bits(bits).size == bits,
        0x10_0000_0000_0000 <= bits < 0x7fe0_0000_0000_0000 ==> FactorView::of_bits(
            (bits + 0x10_0000_0000_0000) as u64,
        ).size == 2 * FactorView::of_bits(bits).size,
{
    let h = 0x10_0000_0000_0000int;
    let b = bits as int;
    let e = b / h;
    let m = b % h;
    lemma2_to64();
    assert((b + 0x8000_0000_0000_0000) / h == e + 2048 && (b + 0x8000_0000_0000_0000) % h == m);
    assert((b + h) / h == e + 1 && (b + h) % h == m);
    if 0x10_0000_0000_0000 <= bits < 0x7fe0_0000_0000_0000 {
        lemma_pow2_adds((e - 1) as nat, 1);
        let p = pow2((e - 1) as nat) as int;
        assert((h + m) * (p * 2) == 2 * ((h + m) * p)) by (nonlinear_arith);
    }
    if bits < 0x20_0000_0000_0000 && e == 1 {
        let one = pow2(0) as int;
        assert((h + m) * one == h + m) by (nonlinear_arith)
            requires
                one == 1,
        ;
    }
}

} // verus!

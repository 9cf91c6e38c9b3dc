//! Double-precision numbers, computed with integers.
//!
//! A number that is not negative is counted in units of `2^-1074`, the smallest
//! step of double precision, so that each of them is a whole number.
use crate::duration::{MAX_NANOS, NANOS_PER_SEC};
use crate::natural::{lemma_divide_more, Natural};
use vstd::arithmetic::div_mod::{
    lemma_fundamental_div_mod, lemma_fundamental_div_mod_converse, lemma_mod_bound,
};
use vstd::arithmetic::power2::{
    lemma2_to64, lemma2_to64_rest, lemma_pow2_adds, lemma_pow2_pos, lemma_pow2_strictly_increases,
    pow2,
};
use vstd::prelude::*;

verus! {

/// One more than the largest mantissa.
pub const MANTISSAS: u64 = 0x20_0000_0000_0000;

/// The number one is `2^ONE` units.
pub const ONE: u32 = 1074;

/// What reaches `2^TOP` units is out of range.
pub const TOP: u32 = 2098;

/// The largest power of two that a mantissa is scaled by.
pub const MAX_SCALE: u32 = 2045;

/// The whole number nearest to `p / d`; halfway between two, the even one.
pub open spec fn nearest_even(p: nat, d: nat) -> nat {
    let q = p / d;
    let r = p % d;
    if 2 * r < d || (2 * r == d && q % 2 == 0) {
        q
    } else {
        q + 1
    }
}

/// The distance between neighbouring numbers of double precision at `x` units:
/// a mantissa has 53 binary digits.
pub open spec fn spacing(x: nat) -> nat
    decreases x,
{
    if x < MANTISSAS {
        1
    } else {
        2 * spacing(x / 2)
    }
}

/// The number of double precision nearest to `p / q` units, were its range
/// unlimited; halfway between two, the one with the even mantissa.
pub open spec fn nearest(p: nat, q: nat) -> nat {
    let s = spacing(p / q);
    nearest_even(p, q * s) * s
}

/// `x`, if it is in range.
pub open spec fn in_range(x: nat) -> Option<nat> {
    if x < pow2(TOP as nat) {
        Some(x)
    } else {
        None
    }
}

/// `a * b` in double precision, if both are numbers and the product is in range.
pub open spec fn product(a: Option<nat>, b: Option<nat>) -> Option<nat> {
    match (a, b) {
        (Some(a), Some(b)) => in_range(nearest(a * b, pow2(ONE as nat))),
        _ => None,
    }
}

/// `r * a^k` in double precision, by repeated squaring.
pub open spec fn powered(r: Option<nat>, a: Option<nat>, k: nat) -> Option<nat>
    decreases k,
{
    if k == 0 {
        r
    } else {
        powered(
            if k % 2 == 1 {
                product(r, a)
            } else {
                r
            },
            product(a, a),
            k / 2,
        )
    }
}

/// `n` nanoseconds in seconds: the whole seconds plus the rest, in double
/// precision.
pub open spec fn seconds(n: nat) -> nat {
    let one = pow2(ONE as nat);
    let whole = nearest((n / NANOS_PER_SEC as nat) * one, 1);
    let rest = nearest((n % NANOS_PER_SEC as nat) * one, NANOS_PER_SEC as nat);
    nearest(whole + rest, 1)
}

/// `x`, a number of seconds, in whole nanoseconds.
pub open spec fn whole_nanos(x: nat) -> nat {
    nearest_even(x * NANOS_PER_SEC as nat, pow2(ONE as nat))
}

/// `x/2 + x/2 * draw/2^53` in double precision.
pub open spec fn upper_half(x: nat, draw: nat) -> nat {
    let half = nearest(x, 2);
    nearest(half + nearest(half * draw, pow2(53)), 1)
}

/// The distance is a power of two, and leaves a mantissa of 53 binary digits:
/// all of them wherever the distance is not the smallest there is.
pub proof fn law_spacing_leaves_a_mantissa(x: nat) -> (j: nat)
    ensures
        spacing(x) == pow2(j),
        x / pow2(j) < 0x20_0000_0000_0000,
        j > 0 ==> x / pow2(j) >= 0x10_0000_0000_0000,
{
    let j = lemma_spacing(x);
    if j > 0 {
        let y = x / pow2(j);
        assert(y >= 0x10_0000_0000_0000) by (nonlinear_arith)
            requires
                2 * y >= 0x20_0000_0000_0000,
        ;
    }
    j
}

/// The distance is a power of two, and the mantissa fits.
proof fn lemma_spacing(x: nat) -> (j: nat)
    ensures
        spacing(x) == pow2(j),
        x / pow2(j) < MANTISSAS,
        j > 0 ==> 2 * (x / pow2(j)) >= MANTISSAS,
    decreases x,
{
    lemma2_to64();
    if x < MANTISSAS {
        assert(x / 1 == x);
        0
    } else {
        let i = lemma_spacing(x / 2);
        lemma_pow2_adds(1, i);
        lemma_pow2_pos(i);
        lemma_divide_more(x, 2, pow2(i));
        if i == 0 {
            assert((x / 2) / 1 == x / 2);
        }
        i + 1
    }
}

/// No whole number is nearer to `p / d` than the nearest one, and where two are
/// equally near it is the even one.
pub proof fn law_nearest_even_is_nearest(p: nat, d: nat, other: nat)
    requires
        d > 0,
    ensures
        ({
            let m = nearest_even(p, d);
            let off = if m * d >= p {
                m * d - p
            } else {
                p - m * d
            };
            let other_off = if other * d >= p {
                other * d - p
            } else {
                p - other * d
            };
            &&& 2 * off <= d
            &&& off <= other_off
            &&& 2 * off == d ==> m % 2 == 0
        }),
{
    let m = nearest_even(p, d) as int;
    lemma_fundamental_div_mod(p as int, d as int);
    lemma_mod_bound(p as int, d as int);
    let w = (p / d) as int;
    let r = (p % d) as int;
    assert(w * d + r == p && (w + 1) * d == w * d + d) by (nonlinear_arith)
        requires
            p == d * w + r,
    ;
    let o = other as int;
    assert(o <= w ==> o * d <= w * d) by (nonlinear_arith)
        requires
            d > 0,
    ;
    assert(o >= w + 1 ==> o * d >= (w + 1) * d) by (nonlinear_arith)
        requires
            d > 0,
    ;
}

/// No number of double precision, with its mantissa of at most 53 binary
/// digits, is nearer to `p / q` units than the nearest one.
pub proof fn law_nearest_is_nearest(p: nat, q: nat, mantissa: nat, scale: nat)
    requires
        q > 0,
        mantissa < 0x20_0000_0000_0000,
    ensures
        ({
            let n = nearest(p, q);
            let other = mantissa * pow2(scale);
            let off = if n * q >= p {
                n * q - p
            } else {
                p - n * q
            };
            let other_off = if other * q >= p {
                other * q - p
            } else {
                p - other * q
            };
            off <= other_off
        }),
{
    let x = p / q;
    let j = lemma_spacing(x);
    let s = pow2(j);
    lemma_pow2_pos(j);
    let d = q * s;
    assert(d > 0) by (nonlinear_arith)
        requires
            d == q * s,
            q > 0,
            s > 0,
    ;
    let m = nearest_even(p, d) as int;
    let n = (m * s) as int;
    assert(n * q == m * d) by (nonlinear_arith)
        requires
            n == m * s,
            d == q * s,
    ;
    let other = (mantissa * pow2(scale)) as int;
    if scale >= j {
        let t = (scale - j) as nat;
        lemma_pow2_adds(t, j);
        let y = mantissa * pow2(t);
        law_nearest_even_is_nearest(p, d, y);
        let a = pow2(t) as int;
        assert(other * q == y * d) by (nonlinear_arith)
            requires
                other == mantissa * (a * s),
                y == mantissa * a,
                d == q * s,
        ;
    } else {
        // It is below a number that has the spacing and is no larger than `p / q`.
        lemma2_to64();
        let i = (j - 1) as nat;
        lemma_pow2_adds(i, 1);
        if scale < i {
            lemma_pow2_strictly_increases(scale, i);
        }
        lemma_pow2_pos(scale);
        let a = pow2(scale) as int;
        let b = pow2(i) as int;
        let low = 0x10_0000_0000_0000nat;
        assert(other <= low * s) by (nonlinear_arith)
            requires
                other == mantissa * a,
                0 <= mantissa <= 2 * low,
                0 < a <= b,
                s == b * 2,
        ;
        lemma_fundamental_div_mod(x as int, s as int);
        lemma_mod_bound(x as int, s as int);
        lemma_fundamental_div_mod(p as int, q as int);
        lemma_mod_bound(p as int, q as int);
        let w = (x / s) as int;
        let ls = (low * s) as int;
        assert(ls <= x) by (nonlinear_arith)
            requires
                ls == low * s,
                x == s * w + x as int % s as int,
                x as int % s as int >= 0,
                w >= low,
                s > 0,
        ;
        assert(other * q <= ls * q && ls * q <= x * q) by (nonlinear_arith)
            requires
                other <= ls <= x,
                q > 0,
        ;
        assert(x * q <= p) by (nonlinear_arith)
            requires
                p == q * x + p as int % q as int,
                p as int % q as int >= 0,
        ;
        law_nearest_even_is_nearest(p, d, low);
        assert(low * d == ls * q) by (nonlinear_arith)
            requires
                ls == low * s,
                d == q * s,
        ;
    }
}

/// As long as a full mantissa is left, halving the number halves the distance.
proof fn lemma_spacing_halves(x: nat, t: nat)
    requires
        2 * (x / pow2(t)) >= MANTISSAS,
    ensures
        spacing(x) == pow2(t) * spacing(x / pow2(t)),
    decreases t,
{
    lemma2_to64();
    if t == 0 {
        assert(x / 1 == x);
        let s = spacing(x) as int;
        let one = pow2(0) as int;
        assert(one * s == s) by (nonlinear_arith)
            requires
                one == 1,
        ;
    } else {
        let i = (t - 1) as nat;
        lemma_pow2_adds(i, 1);
        lemma_pow2_pos(i);
        lemma_divide_more(x, pow2(i), 2);
        let y = x / pow2(i);
        assert(x / pow2(t) == y / 2);
        lemma_spacing_halves(x, i);
        let p = pow2(i) as int;
        let s = spacing(y / 2) as int;
        assert(p * (2 * s) == (p * 2) * s) by (nonlinear_arith);
    }
}

/// Rounding to a number of double precision at most doubles, or adds one unit.
pub proof fn lemma_nearest_bound(p: nat, q: nat)
    requires
        q > 0,
    ensures
        nearest(p, q) <= 2 * (p / q) + 1,
{
    let x = p / q;
    let j = lemma_spacing(x);
    let s = pow2(j);
    lemma_pow2_pos(j);
    lemma_divide_more(p, q, s);
    lemma2_to64();
    lemma_fundamental_div_mod(x as int, s as int);
    lemma_mod_bound(x as int, s as int);
    let w = (x / s) as int;
    let r = (x % s) as int;
    assert((w + 1) * s <= 2 * x + 1) by (nonlinear_arith)
        requires
            x == s * w + r,
            r >= 0,
            s >= 1,
            s == 1 || w >= 1,
    ;
    let n = nearest_even(p, q * s) as int;
    assert(n * s <= (w + 1) * s) by (nonlinear_arith)
        requires
            n <= w + 1,
            s >= 1,
    ;
}

/// A number beyond the range stays there when rounded.
proof fn lemma_nearest_beyond(p: nat, q: nat)
    requires
        q > 0,
        p / q >= pow2(TOP as nat),
    ensures
        nearest(p, q) >= pow2(TOP as nat),
{
    let x = p / q;
    let j = lemma_spacing(x);
    let s = pow2(j);
    lemma_pow2_pos(j);
    lemma_divide_more(p, q, s);
    lemma2_to64_rest();
    lemma_fundamental_div_mod(x as int, s as int);
    lemma_mod_bound(x as int, s as int);
    lemma_pow2_adds(53, MAX_SCALE as nat);
    lemma_pow2_adds(52, (MAX_SCALE + 1) as nat);
    let w = (x / s) as int;
    let r = (x % s) as int;
    if j <= MAX_SCALE {
        if j < MAX_SCALE {
            lemma_pow2_strictly_increases(j, MAX_SCALE as nat);
        }
        let t = pow2(MAX_SCALE as nat) as int;
        assert(x < MANTISSAS * t) by (nonlinear_arith)
            requires
                x == s * w + r,
                r < s,
                w + 1 <= MANTISSAS,
                0 < s <= t,
        ;
        assert(false);
    }
    if j > MAX_SCALE + 1 {
        lemma_pow2_strictly_increases((MAX_SCALE + 1) as nat, j);
    }
    lemma_pow2_pos((MAX_SCALE + 1) as nat);
    let t = pow2((MAX_SCALE + 1) as nat) as int;
    let n = nearest_even(p, q * s) as int;
    assert(n * s >= 0x10_0000_0000_0000 * t) by (nonlinear_arith)
        requires
            n >= 0x10_0000_0000_0000,
            s >= t,
            t > 0,
    ;
}

/// The whole number nearest to `n / (d * 2^s)`, unless it is huge.
fn round_ratio(n: &Natural, d: u64, s: u32) -> (r: Option<u128>)
    requires
        d > 0,
    ensures
        match r {
            Some(v) => v == nearest_even(n@, d as nat * pow2(s as nat)),
            None => nearest_even(n@, d as nat * pow2(s as nat)) > MAX_NANOS,
        },
{
    let mut q = n.duplicate();
    q.multiply(2);
    let ghost twofold = q@;
    let rem: u64 = q.divide(d);
    let exact = q.shift_down(s);
    let ghost twice = q@ as int;
    proof {
        let p = pow2(s as nat);
        lemma_pow2_pos(s as nat);
        lemma_divide_more(twofold, d as nat, p);
        let w = d as nat * p;
        assert(w > 0) by (nonlinear_arith)
            requires
                w == d * p,
                d > 0,
                p > 0,
        ;
        let r2 = twofold as int % w as int;
        lemma_fundamental_div_mod(twofold as int, w as int);
        lemma_mod_bound(twofold as int, w as int);
        let whole = twice / 2;
        let half = twice % 2;
        let r = n@ - w * whole;
        assert(2 * r == w * half + r2) by (nonlinear_arith)
            requires
                2 * n@ == w * twice + r2,
                twice == 2 * whole + half,
                r == n@ - w * whole,
        ;
        assert(half == 0 ==> w * half == 0) by (nonlinear_arith);
        assert(half == 1 ==> w * half == w) by (nonlinear_arith);
        assert(whole * w + r == n@) by (nonlinear_arith)
            requires
                r == n@ - w * whole,
        ;
        lemma_fundamental_div_mod_converse(n@ as int, w as int, whole, r);
    }
    match q.to_u128() {
        Some(twice) => {
            let whole: u128 = twice / 2;
            if twice % 2 == 0 || (exact && rem == 0 && whole % 2 == 0) {
                Some(whole)
            } else {
                Some(whole + 1)
            }
        },
        None => None,
    }
}

/// A number of double precision that is not negative.
#[derive(Debug, Clone, Copy)]
pub struct Double {
    mantissa: u64,
    scale: u32,
}

impl View for Double {
    type V = nat;

    /// The number in units.
    closed spec fn view(&self) -> nat {
        self.mantissa as nat * pow2(self.scale as nat)
    }
}

/// What an optional number stands for.
pub open spec fn units(x: Option<Double>) -> Option<nat> {
    match x {
        Some(x) => Some(x@),
        None => None,
    }
}

/// The number of double precision nearest to `n / (d * 2^s)` units, if it is in
/// range.
fn round(n: &Natural, d: u64, s: u32) -> (r: Option<Double>)
    requires
        d > 0,
        s <= ONE,
    ensures
        units(r) == in_range(nearest(n@, d as nat * pow2(s as nat))),
{
    let ghost q0 = d as nat * pow2(s as nat);
    let ghost x = n@ / q0;
    let mut q = n.duplicate();
    q.divide(d);
    q.shift_down(s);
    let mut j: u32 = 0;
    proof {
        lemma2_to64();
        lemma2_to64_rest();
        lemma_pow2_pos(s as nat);
        lemma_divide_more(n@, d as nat, pow2(s as nat));
        let p = pow2(s as nat);
        assert(q0 > 0) by (nonlinear_arith)
            requires
                q0 == d * p,
                d > 0,
                p > 0,
        ;
        assert(x / 1 == x);
        let one = pow2(0) as int;
        let sp = spacing(x) as int;
        assert(one * sp == sp) by (nonlinear_arith)
            requires
                one == 1,
        ;
    }
    let mut small: Option<u128> = q.to_u128();
    while small.is_none()
        invariant
            j <= MAX_SCALE,
            q0 == d as nat * pow2(s as nat),
            q0 > 0,
            x == n@ / q0,
            q@ == x / pow2(j as nat),
            spacing(x) == pow2(j as nat) * spacing(q@),
            small == (if q@ <= u128::MAX {
                Some(q@ as u128)
            } else {
                None
            }),
        decreases q@,
    {
        if j > MAX_SCALE - 32 {
            proof {
                lemma_far_beyond(x, j as nat, 0x1_0000_0000_0000_0000 * 0x1_0000_0000_0000_0000);
                lemma_nearest_beyond(n@, q0);
            }
            return None;
        }
        let ghost y = q@;
        q.shift_down(32);
        proof {
            lemma2_to64();
            lemma_spacing_halves(y, 32);
            lemma_pow2_adds(j as nat, 32);
            lemma_pow2_pos(j as nat);
            lemma_divide_more(x, pow2(j as nat), pow2(32));
            let p = pow2(j as nat) as int;
            let t = pow2(32) as int;
            let sp = spacing(q@) as int;
            assert(p * (t * sp) == (p * t) * sp) by (nonlinear_arith);
        }
        j = j + 32;
        small = q.to_u128();
    }
    let mut v: u128 = match small {
        Some(v) => v,
        None => 0,
    };
    while v >= MANTISSAS as u128
        invariant
            j <= MAX_SCALE,
            q0 == d as nat * pow2(s as nat),
            q0 > 0,
            x == n@ / q0,
            v == x / pow2(j as nat),
            spacing(x) == pow2(j as nat) * spacing(v as nat),
        decreases v,
    {
        if j == MAX_SCALE {
            proof {
                lemma_far_beyond(x, j as nat, MANTISSAS as nat);
                lemma_nearest_beyond(n@, q0);
            }
            return None;
        }
        proof {
            lemma2_to64();
            lemma_pow2_adds(j as nat, 1);
            lemma_pow2_pos(j as nat);
            lemma_divide_more(x, pow2(j as nat), 2);
            let p = pow2(j as nat) as int;
            let sp = spacing((v / 2) as nat) as int;
            assert(p * (2 * sp) == (p * 2) * sp) by (nonlinear_arith);
        }
        v = v / 2;
        j = j + 1;
    }
    let ghost sp = pow2(j as nat);
    proof {
        assert(sp * 1 == sp);
        assert(spacing(x) == sp);
        lemma_pow2_pos(j as nat);
        lemma_divide_more(n@, q0, sp);
        lemma_pow2_adds(s as nat, j as nat);
        let p = pow2(s as nat) as int;
        assert((d * p) * sp == d * (p * sp)) by (nonlinear_arith);
        assert(nearest_even(n@, q0 * sp) <= MANTISSAS);
    }
    let m: u128 = match round_ratio(n, d, s + j) {
        Some(m) => m,
        None => 0,
    };
    proof {
        assert(nearest(n@, q0) == m as nat * sp);
        lemma2_to64_rest();
        lemma_pow2_adds(53, MAX_SCALE as nat);
        lemma_pow2_adds(1, j as nat);
        assert(pow2(1) == 2) by {
            lemma2_to64();
        }
        if j < MAX_SCALE {
            lemma_pow2_strictly_increases(j as nat, MAX_SCALE as nat);
        }
        let t = pow2(MAX_SCALE as nat) as int;
        let mm = m as int;
        let full = MANTISSAS as int;
        assert(mm < full ==> mm * sp < full * t) by (nonlinear_arith)
            requires
                0 < sp <= t,
                0 <= mm,
                full > 0,
        ;
        let half = 0x10_0000_0000_0000int;
        assert(full * sp == half * (2 * sp)) by (nonlinear_arith)
            requires
                full == 2 * half,
        ;
        if j < MAX_SCALE {
            assert(full * sp < full * t) by (nonlinear_arith)
                requires
                    sp < t,
                    full > 0,
            ;
        }
    }
    if m < MANTISSAS as u128 {
        Some(Double { mantissa: m as u64, scale: j })
    } else if j < MAX_SCALE {
        Some(Double { mantissa: 0x10_0000_0000_0000, scale: j + 1 })
    } else {
        None
    }
}

/// What is still large after being halved many times is out of range.
proof fn lemma_far_beyond(x: nat, j: nat, least: nat)
    requires
        x / pow2(j) >= least,
        (j == MAX_SCALE && least == MANTISSAS) || (j > MAX_SCALE - 32 && least
            == 0x1_0000_0000_0000_0000 * 0x1_0000_0000_0000_0000),
    ensures
        x >= pow2(TOP as nat),
{
    let p = pow2(j) as int;
    let w = x as int / p;
    lemma_pow2_pos(j);
    lemma_fundamental_div_mod(x as int, p);
    lemma_mod_bound(x as int, p);
    lemma2_to64();
    lemma2_to64_rest();
    let least = least as int;
    assert(x >= least * p) by (nonlinear_arith)
        requires
            x == p * w + x as int % p,
            x as int % p >= 0,
            w >= least,
            p > 0,
    ;
    if j == MAX_SCALE && least == MANTISSAS {
        lemma_pow2_adds(53, j);
    } else {
        lemma_pow2_adds(64, 64);
        lemma_pow2_adds(128, j);
        lemma_pow2_strictly_increases(TOP as nat, 128 + j);
    }
}

/// Seconds and what becomes of them are far from the end of the range.
proof fn lemma_small_in_range(x: nat, p: nat, q: nat)
    requires
        q > 0,
        x == nearest(p, q),
        p / q <= 0x1000_0000_0000_0000_0000int * pow2(ONE as nat),
    ensures
        in_range(x) == Some(x),
{
    lemma_nearest_bound(p, q);
    lemma2_to64();
    lemma2_to64_rest();
    lemma_pow2_pos(ONE as nat);
    lemma_pow2_adds(64, 32);
    lemma_pow2_adds(96, ONE as nat);
    lemma_pow2_strictly_increases(1170, TOP as nat);
    let one = pow2(ONE as nat) as int;
    assert(2 * (0x1000_0000_0000_0000_0000 * one) + 1 < (0x1_0000_0000_0000_0000
        * 0x1_0000_0000) * one) by (nonlinear_arith)
        requires
            one >= 1,
    ;
}

/// How large the parts of a number of seconds can be.
proof fn lemma_seconds_bound(n: nat)
    requires
        n <= MAX_NANOS,
    ensures
        ({
            let one = pow2(ONE as nat);
            let whole = n / NANOS_PER_SEC as nat;
            let rest = n % NANOS_PER_SEC as nat;
            let a = nearest(whole * one, 1);
            let b = nearest(rest * one, NANOS_PER_SEC as nat);
            &&& whole * one / 1 <= 0x1_0000_0000_0000_0000int * one
            &&& rest * one / NANOS_PER_SEC as nat <= one
            &&& (a + b) / 1 <= 0x4_0000_0000_0000_0000int * one
            &&& seconds(n) <= 0x9_0000_0000_0000_0000int * one
        }),
{
    let one = pow2(ONE as nat);
    let whole = n / NANOS_PER_SEC as nat;
    let rest = n % NANOS_PER_SEC as nat;
    let a = nearest(whole * one, 1);
    let b = nearest(rest * one, NANOS_PER_SEC as nat);
    let g = NANOS_PER_SEC as nat;
    lemma_pow2_pos(ONE as nat);
    lemma_nearest_bound(whole * one, 1);
    lemma_nearest_bound(rest * one, g);
    lemma_nearest_bound(a + b, 1);
    assert(whole * one <= 0x1_0000_0000_0000_0000 * one) by (nonlinear_arith)
        requires
            whole <= 0x1_0000_0000_0000_0000,
            one >= 1,
    ;
    let x = (rest * one) as int;
    let y = x / g as int;
    lemma_fundamental_div_mod(x, g as int);
    lemma_mod_bound(x, g as int);
    assert(y <= one) by (nonlinear_arith)
        requires
            x == rest * one,
            rest < g,
            x == g * y + x % g as int,
            x % g as int >= 0,
            g > 0,
            one >= 1,
    ;
}

/// How large the numbers drawn from the upper half can be.
proof fn lemma_upper_half_bound(x: nat, draw: nat)
    requires
        draw < MANTISSAS,
        x <= 0x9_0000_0000_0000_0000int * pow2(ONE as nat),
    ensures
        ({
            let half = nearest(x, 2);
            let part = nearest(half * draw, pow2(53));
            let top = 0x1000_0000_0000_0000_0000int * pow2(ONE as nat);
            &&& x / 2 <= top
            &&& half * draw / pow2(53) <= top
            &&& (half + part) / 1 <= top
        }),
{
    let one = pow2(ONE as nat) as int;
    let half = nearest(x, 2);
    let part = nearest(half * draw, pow2(53));
    lemma2_to64_rest();
    lemma_pow2_pos(ONE as nat);
    lemma_nearest_bound(x, 2);
    lemma_nearest_bound(half * draw, pow2(53));
    let g = pow2(53) as int;
    let z = (half * draw) as int;
    let y = z / g;
    lemma_fundamental_div_mod(z, g);
    lemma_mod_bound(z, g);
    assert(y <= half) by (nonlinear_arith)
        requires
            z == half * draw,
            draw <= g,
            z == g * y + z % g,
            z % g >= 0,
            g > 0,
            half >= 0,
    ;
}

impl Double {
    #[verifier::type_invariant]
    spec fn fits(self) -> bool {
        self.mantissa < MANTISSAS && self.scale <= MAX_SCALE
    }

    /// The number of `mantissa * 2^scale` units.
    pub fn new(mantissa: u64, scale: u32) -> (x: Double)
        requires
            mantissa < MANTISSAS,
            scale <= MAX_SCALE,
        ensures
            x@ == mantissa as nat * pow2(scale as nat),
    {
        Double { mantissa, scale }
    }

    /// The number in units.
    fn natural(&self) -> (n: Natural)
        ensures
            n@ == self@,
    {
        let mut n = Natural::new(self.mantissa as u128);
        n.shift_up(self.scale);
        n
    }

    /// Whether the number is at most `other`.
    pub fn at_most(&self, other: &Double) -> (r: bool)
        ensures
            r == (self@ <= other@),
    {
        proof {
            use_type_invariant(self);
            use_type_invariant(other);
        }
        let a: u64 = self.mantissa;
        let b: u64 = other.mantissa;
        if self.scale >= other.scale {
            let t: u32 = self.scale - other.scale;
            let mut n = Natural::new(a as u128);
            n.shift_up(t);
            proof {
                lemma_pow2_adds(t as nat, other.scale as nat);
                lemma_pow2_pos(other.scale as nat);
                let s = pow2(other.scale as nat) as int;
                let p = pow2(t as nat) as int;
                let y = a * p;
                assert(a * (p * s) == y * s) by (nonlinear_arith)
                    requires
                        y == a * p,
                ;
                assert(y * s <= b * s <==> y <= b) by (nonlinear_arith)
                    requires
                        s > 0,
                ;
            }
            match n.to_u128() {
                Some(v) => v <= b as u128,
                None => false,
            }
        } else {
            let t: u32 = other.scale - self.scale;
            let mut n = Natural::new(b as u128);
            n.shift_up(t);
            proof {
                lemma_pow2_adds(t as nat, self.scale as nat);
                lemma_pow2_pos(self.scale as nat);
                let s = pow2(self.scale as nat) as int;
                let p = pow2(t as nat) as int;
                let y = b * p;
                assert(b * (p * s) == y * s) by (nonlinear_arith)
                    requires
                        y == b * p,
                ;
                assert(a * s <= y * s <==> a <= y) by (nonlinear_arith)
                    requires
                        s > 0,
                ;
            }
            match n.to_u128() {
                Some(v) => a as u128 <= v,
                None => true,
            }
        }
    }

    /// The product, if it is in range.
    pub fn times(&self, other: &Double) -> (r: Option<Double>)
        ensures
            units(r) == product(Some(self@), Some(other@)),
    {
        proof {
            use_type_invariant(self);
            use_type_invariant(other);
        }
        let a: u64 = self.mantissa;
        let b: u64 = other.mantissa;
        assert(0 <= a * b < 0x1_0000_0000_0000_0000 * 0x1_0000_0000_0000_0000) by (nonlinear_arith)
            requires
                a < 0x1_0000_0000_0000_0000,
                b < 0x1_0000_0000_0000_0000,
        ;
        let mut n = Natural::new(a as u128 * b as u128);
        n.shift_up(self.scale + other.scale);
        proof {
            lemma_pow2_adds(self.scale as nat, other.scale as nat);
            let s = pow2(self.scale as nat) as int;
            let t = pow2(other.scale as nat) as int;
            assert((a * b) * (s * t) == (a * s) * (b * t)) by (nonlinear_arith);
            assert(1 * pow2(ONE as nat) == pow2(ONE as nat));
        }
        round(&n, 1, ONE)
    }

    /// The sum, if it is in range.
    pub fn plus(&self, other: &Double) -> (r: Option<Double>)
        ensures
            units(r) == in_range(nearest(self@ + other@, 1)),
    {
        proof {
            use_type_invariant(self);
            use_type_invariant(other);
            lemma2_to64();
        }
        let (hi, lo) = if self.scale >= other.scale {
            (*self, *other)
        } else {
            (*other, *self)
        };
        let t: u32 = hi.scale - lo.scale;
        let mut n = Natural::new(hi.mantissa as u128);
        n.shift_up(t);
        n.add_small(lo.mantissa);
        n.shift_up(lo.scale);
        proof {
            lemma_pow2_adds(t as nat, lo.scale as nat);
            let p = pow2(t as nat) as int;
            let s = pow2(lo.scale as nat) as int;
            let a = hi.mantissa as int;
            let b = lo.mantissa as int;
            assert((a * p + b) * s == a * (p * s) + b * s) by (nonlinear_arith);
        }
        round(&n, 1, 0)
    }

    /// `n` nanoseconds in seconds.
    pub fn seconds(n: u128) -> (x: Double)
        requires
            n <= MAX_NANOS,
        ensures
            x@ == seconds(n as nat),
            x@ <= 0x9_0000_0000_0000_0000int * pow2(ONE as nat),
    {
        let whole: u128 = n / NANOS_PER_SEC;
        let rest: u128 = n % NANOS_PER_SEC;
        let mut a = Natural::new(whole);
        a.shift_up(ONE);
        let mut b = Natural::new(rest);
        b.shift_up(ONE);
        proof {
            lemma2_to64();
            lemma_seconds_bound(n as nat);
            let g = NANOS_PER_SEC as nat;
            let one = pow2(ONE as nat) as int;
            lemma_pow2_pos(ONE as nat);
            assert(one <= 0x1000_0000_0000_0000_0000 * one && 0x1_0000_0000_0000_0000 * one
                <= 0x1000_0000_0000_0000_0000 * one && 0x4_0000_0000_0000_0000 * one
                <= 0x1000_0000_0000_0000_0000 * one) by (nonlinear_arith)
                requires
                    one > 0,
            ;
            let x = nearest(a@, 1);
            let y = nearest(b@, g);
            lemma_small_in_range(x, a@, 1);
            lemma_small_in_range(y, b@, g);
            lemma_small_in_range(nearest(x + y, 1), x + y, 1);
            assert(g * 1 == g);
        }
        match (round(&a, 1, 0), round(&b, 1_000_000_000, 0)) {
            (Some(a), Some(b)) => match a.plus(&b) {
                Some(x) => x,
                None => a,
            },
            _ => Double { mantissa: 0, scale: 0 },
        }
    }

    /// The number, one of seconds, in whole nanoseconds, unless it is huge.
    pub fn whole_nanos(&self) -> (r: Option<u128>)
        ensures
            match r {
                Some(v) => v == whole_nanos(self@),
                None => whole_nanos(self@) > MAX_NANOS,
            },
    {
        let mut n = self.natural();
        n.multiply(1_000_000_000);
        assert(1 * pow2(ONE as nat) == pow2(ONE as nat));
        round_ratio(&n, 1, ONE)
    }

    /// Half the number plus `draw/2^53` of the other half.
    pub fn upper_half(&self, draw: u64) -> (x: Double)
        requires
            draw < MANTISSAS,
            self@ <= 0x9_0000_0000_0000_0000int * pow2(ONE as nat),
        ensures
            x@ == upper_half(self@, draw as nat),
    {
        proof {
            lemma2_to64();
            lemma2_to64_rest();
            lemma_upper_half_bound(self@, draw as nat);
            let half = nearest(self@, 2);
            let part = nearest(half * draw as nat, pow2(53));
            lemma_small_in_range(half, self@, 2);
            lemma_small_in_range(part, half * draw as nat, pow2(53));
            lemma_small_in_range(nearest(half + part, 1), half + part, 1);
        }
        match round(&self.natural(), 1, 1) {
            Some(half) => {
                let mut n = half.natural();
                n.multiply(draw);
                match round(&n, 1, 53) {
                    Some(part) => match half.plus(&part) {
                        Some(x) => x,
                        None => half,
                    },
                    None => half,
                }
            },
            None => *self,
        }
    }
}

/// The product, if both are numbers and it is in range.
pub fn multiplied(a: &Option<Double>, b: &Option<Double>) -> (r: Option<Double>)
    ensures
        units(r) == product(units(*a), units(*b)),
{
    match (a, b) {
        (Some(a), Some(b)) => a.times(b),
        _ => None,
    }
}

/// `a^k` by repeated squaring, if it is a number and in range.
pub fn power_of(a: Option<Double>, k: u32) -> (r: Option<Double>)
    ensures
        units(r) == powered(Some(pow2(ONE as nat)), units(a), k as nat),
{
    proof {
        lemma2_to64();
        let p = pow2(ONE as nat) as int;
        assert(1 * p == p);
    }
    let mut r: Option<Double> = Some(Double { mantissa: 1, scale: ONE });
    let mut square: Option<Double> = a;
    let mut left: u32 = k;
    while left > 0
        invariant
            powered(units(r), units(square), left as nat) == powered(
                Some(pow2(ONE as nat)),
                units(a),
                k as nat,
            ),
        decreases left,
    {
        if left % 2 == 1 {
            r = multiplied(&r, &square);
        }
        square = multiplied(&square, &square);
        left = left / 2;
    }
    r
}

} // verus!

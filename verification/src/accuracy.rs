//! How close double precision comes to the numbers that it stands for.
//!
//! Everything here is about real numbers: what a count of units is worth, and
//! how far each rounding can be off.
use crate::double::{
    law_spacing_leaves_a_mantissa, nearest, nearest_even, powered, product, seconds, spacing,
    upper_half, whole_nanos, ONE,
};
use crate::duration::NANOS_PER_SEC;
use vstd::arithmetic::div_mod::{lemma_fundamental_div_mod, lemma_mod_bound};
use vstd::arithmetic::power2::{
    lemma2_to64, lemma2_to64_rest, lemma_pow2_adds, lemma_pow2_pos, lemma_pow2_strictly_increases,
    pow2,
};
use vstd::prelude::*;

verus! {

/// `x` to the power `k`.
pub open spec fn real_power(x: real, k: nat) -> real
    decreases k,
{
    if k == 0 {
        1real
    } else {
        x * real_power(x, (k - 1) as nat)
    }
}

/// What a count of units of `2^-1074` is worth.
pub open spec fn value(units: nat) -> real {
    units as real / pow2(1074) as real
}

/// The lesser of two numbers.
pub open spec fn lesser(a: real, b: real) -> real {
    if a <= b {
        a
    } else {
        b
    }
}

/// Whether `a` is off from `x` by at most `c * 2^-52` of `x` and `b` more.
pub open spec fn near(a: real, x: real, c: real, b: real) -> bool {
    x - x * c / 4503599627370496real - b <= a <= x + x * c / 4503599627370496real + b
}

/// Half a unit.
pub open spec fn half_unit() -> real {
    1real / (2real * pow2(1074) as real)
}

/// A power of two that is far beyond every `Duration`, and far within the range
/// of double precision.
pub open spec fn huge() -> real {
    0x1_0000_0000_0000_0000_0000_0000_0000_0000_0000_0000_0000_0000_0000int as real
}

pub proof fn lemma_unit()
    ensures
        pow2(1074) as real >= huge() * huge(),
        pow2(1074) > 0,
        pow2(1024) as real >= huge() * huge(),
        pow2(1074) * pow2(1024) == pow2(2098),
        half_unit() > 0real,
        half_unit() * huge() * huge() <= 1real,
{
    lemma2_to64();
    lemma_pow2_adds(64, 64);
    lemma_pow2_adds(128, 64);
    lemma_pow2_adds(192, 16);
    lemma_pow2_adds(208, 208);
    lemma_pow2_strictly_increases(416, 1024);
    lemma_pow2_strictly_increases(416, 1074);
    lemma_pow2_adds(1074, 1024);
    let h = pow2(208) as int;
    assert(h == 0x1_0000_0000_0000_0000_0000_0000_0000_0000_0000_0000_0000_0000_0000);
    assert((h * h) as real == (h as real) * (h as real)) by (nonlinear_arith);
    let u = pow2(1074) as real;
    let g = huge();
    assert(1real / (2real * u) > 0real && 1real / (2real * u) * g * g <= 1real) by (nonlinear_arith)
        requires
            u >= g * g,
            g >= 1real,
    ;
}

/// A number of double precision is off from what it rounds by at most a 2^53rd
/// of it, or half a unit more where it is small.
pub proof fn lemma_nearest_near(p: nat, q: nat)
    requires
        q > 0,
    ensures
        ({
            let x = p as real / q as real;
            let n = nearest(p, q) as real;
            let off = x / 9007199254740992real;
            &&& x >= 0real
            &&& x - off - 1real / 2real <= n <= x + off + 1real / 2real
            &&& x >= 9007199254740992real ==> x - off <= n <= x + off
            &&& p == 0 ==> n == 0real
        }),
{
    let f = p / q;
    let j = law_spacing_leaves_a_mantissa(f);
    let s = spacing(f);
    lemma_pow2_pos(j);
    let d = q * s;
    assert(d > 0) by (nonlinear_arith)
        requires
            d == q * s,
            q > 0,
            s > 0,
    ;
    let m = nearest_even(p, d);
    lemma_fundamental_div_mod(p as int, d as int);
    lemma_mod_bound(p as int, d as int);
    let w = (p / d) as int;
    let r = (p % d) as int;
    assert(2 * (m * d) <= 2 * p + d && 2 * p <= 2 * (m * d) + d) by (nonlinear_arith)
        requires
            p == d * w + r,
            0 <= r < d,
            (m == w && 2 * r <= d) || (m == w + 1 && 2 * r >= d),
    ;
    let n = (m * s) as int;
    assert(m * d == n * q) by (nonlinear_arith)
        requires
            d == q * s,
            n == m * s,
    ;
    let pr = p as real;
    let qr = q as real;
    let nr = n as real;
    let sr = s as real;
    let x = pr / qr;
    assert((n * q) as real == nr * qr) by (nonlinear_arith)
        requires
            nr == n as real,
            qr == q as real,
    ;
    assert((q * s) as real == qr * sr) by (nonlinear_arith)
        requires
            sr == s as real,
            qr == q as real,
    ;
    assert(x * qr == pr) by (nonlinear_arith)
        requires
            x == pr / qr,
            qr > 0real,
    ;
    assert(nr <= x + sr / 2real && x <= nr + sr / 2real) by (nonlinear_arith)
        requires
            2real * (nr * qr) <= 2real * pr + qr * sr,
            2real * pr <= 2real * (nr * qr) + qr * sr,
            x * qr == pr,
            qr > 0real,
    ;
    lemma_fundamental_div_mod(p as int, q as int);
    lemma_mod_bound(p as int, q as int);
    let t = (p % q) as int;
    assert((q * f) as real == qr * (f as real)) by (nonlinear_arith)
        requires
            qr == q as real,
    ;
    let fr = f as real;
    assert(fr <= x < fr + 1real) by (nonlinear_arith)
        requires
            x * qr == qr * fr + t as real,
            0real <= (t as real),
            (t as real) < qr,
            qr > 0real,
    ;
    if j > 0 {
        lemma_fundamental_div_mod(f as int, s as int);
        lemma_mod_bound(f as int, s as int);
        let g = (f / s) as int;
        assert(f >= 0x10_0000_0000_0000 * s) by (nonlinear_arith)
            requires
                f == s * g + f as int % s as int,
                f as int % s as int >= 0,
                g >= 0x10_0000_0000_0000,
                s > 0,
        ;
    } else {
        lemma2_to64();
        assert(f / 1 == f);
    }
    if p == 0 {
        assert(0nat / q == 0);
        assert(m == 0) by {
            assert(0int == d * w + r);
            assert(w == 0 && r == 0) by (nonlinear_arith)
                requires
                    0 == d * w + r,
                    0 <= r < d,
                    w >= 0,
            ;
        }
        assert(0 * s == 0);
    }
}

/// What rounding a product does to its worth.
pub proof fn lemma_product_near(a: nat, b: nat)
    ensures
        ({
            let x = value(a) * value(b);
            let n = value(nearest(a * b, pow2(1074)));
            let off = x / 9007199254740992real;
            &&& x >= 0real
            &&& value(a) >= 0real
            &&& value(b) >= 0real
            &&& x - off - half_unit() <= n <= x + off + half_unit()
            &&& x * huge() >= 1real ==> x - off <= n <= x + off
            &&& product(Some(a), Some(b)) is None ==> x >= huge()
            &&& product(Some(a), Some(b)) matches Some(r) ==> r == nearest(a * b, pow2(1074))
            &&& x <= huge() / 4real ==> product(Some(a), Some(b)) is Some
        }),
{
    lemma_unit();
    let un = pow2(1074);
    let u = un as real;
    let p = a * b;
    lemma_nearest_near(p, un);
    let ar = a as real;
    let br = b as real;
    assert(p as real == ar * br) by (nonlinear_arith)
        requires
            p == a * b,
            ar == a as real,
            br == b as real,
    ;
    let xu = p as real / u;
    let nu = nearest(p, un) as real;
    let x = value(a) * value(b);
    let n = nu / u;
    let h = huge();
    assert(x == xu / u && value(a) >= 0real && value(b) >= 0real && x >= 0real)
        by (nonlinear_arith)
        requires
            x == (ar / u) * (br / u),
            value(a) == ar / u,
            value(b) == br / u,
            xu == (ar * br) / u,
            ar >= 0real,
            br >= 0real,
            u > 0real,
    ;
    let k = 9007199254740992real;
    assert(x - x / k - 1real / (2real * u) <= n <= x + x / k + 1real / (2real * u))
        by (nonlinear_arith)
        requires
            x == xu / u,
            n == nu / u,
            xu - xu / k - 1real / 2real <= nu <= xu + xu / k + 1real / 2real,
            u > 0real,
            k == 9007199254740992real,
    ;
    if x * h >= 1real {
        assert(xu >= k) by (nonlinear_arith)
            requires
                x == xu / u,
                x * h >= 1real,
                u >= h * h,
                h >= k,
                k > 0real,
        {
            assert(xu == x * u);
            assert(x * u >= x * (h * h)) by (nonlinear_arith)
                requires
                    u >= h * h,
                    x * h >= 1real,
                    h > 0real,
            ;
            assert(x * (h * h) == (x * h) * h);
            assert((x * h) * h >= h) by (nonlinear_arith)
                requires
                    x * h >= 1real,
                    h > 0real,
            ;
        }
        assert(x - x / k <= n <= x + x / k) by (nonlinear_arith)
            requires
                x == xu / u,
                n == nu / u,
                xu - xu / k <= nu <= xu + xu / k,
                u > 0real,
                k == 9007199254740992real,
        ;
    }
    let v = pow2(1024) as real;
    let top = pow2(2098);
    assert(top as real == u * v) by (nonlinear_arith)
        requires
            top == un * pow2(1024),
            u == un as real,
            v == pow2(1024) as real,
    ;
    let w = 1real / (2real * u);
    assert(w <= 1real) by (nonlinear_arith)
        requires
            w == 1real / (2real * u),
            u >= 1real,
    ;
    assert(nu >= u * v ==> n >= v) by (nonlinear_arith)
        requires
            n == nu / u,
            u > 0real,
    ;
    assert(n < v ==> nu < u * v) by (nonlinear_arith)
        requires
            n == nu / u,
            u > 0real,
    ;
    assert(h * h >= 4real * h) by (nonlinear_arith)
        requires
            h >= 4real,
    ;
}

/// Rounding a product of numbers that are near keeps it near.
pub proof fn lemma_near_times(
    a: real,
    x: real,
    c: real,
    b: real,
    d: real,
    y: real,
    e: real,
    f: real,
    r: real,
    t: real,
)
    requires
        near(a, x, c, b),
        near(d, y, e, f),
        0real <= c <= 256real,
        0real <= e <= 256real,
        0real <= b <= 1real,
        0real <= f <= 1real,
        a >= 0real,
        d >= 0real,
        x >= 0real,
        y >= 0real,
        t >= 0real,
        r >= 0real,
        (b == 0real && f == 0real) || (x <= 1real && y <= 1real),
        a * d - (a * d) / 9007199254740992real - t <= r <= a * d + (a * d) / 9007199254740992real
            + t,
    ensures
        near(r, x * y, c + e + 1real, 8real * (b + f) + t),
{
    let h = 4503599627370496real;
    let u = c / h;
    let w = e / h;
    let v = 1real / (2real * h);
    let m = x * y;
    let s = b + f;
    let p = a * d;
    assert(x * c / h == x * u && y * e / h == y * w) by (nonlinear_arith)
        requires
            u == c / h,
            w == e / h,
            h == 4503599627370496real,
    ;
    assert(m * (c + e + 1real) / h == m * (u + w + 2real * v)) by (nonlinear_arith)
        requires
            u == c / h,
            w == e / h,
            v == 1real / (2real * h),
            h == 4503599627370496real,
    ;
    assert(p / 9007199254740992real == p * v) by (nonlinear_arith)
        requires
            v == 1real / (2real * h),
            h == 4503599627370496real,
    ;
    assert(0real <= u <= 256real / h && 0real <= w <= 256real / h) by (nonlinear_arith)
        requires
            u == c / h,
            w == e / h,
            h == 4503599627370496real,
            0real <= c <= 256real,
            0real <= e <= 256real,
    ;
    assert(m >= 0real) by (nonlinear_arith)
        requires
            m == x * y,
            x >= 0real,
            y >= 0real,
    ;
    // Upper bound.
    let hi_a = x + x * u + b;
    let hi_d = y + y * w + f;
    assert(p <= hi_a * hi_d) by (nonlinear_arith)
        requires
            p == a * d,
            0real <= a <= hi_a,
            0real <= d <= hi_d,
    ;
    let xx = x + x * u;
    let yy = y + y * w;
    assert(hi_a * hi_d == xx * yy + xx * f + b * yy + b * f) by (nonlinear_arith)
        requires
            hi_a == xx + b,
            hi_d == yy + f,
    ;
    assert(xx * yy == m * ((1real + u) * (1real + w))) by (nonlinear_arith)
        requires
            xx == x + x * u,
            yy == y + y * w,
            m == x * y,
    ;
    assert(xx * f + b * yy + b * f <= 3real * s) by {
        if b == 0real && f == 0real {
            assert(xx * f == 0real && b * yy == 0real && b * f == 0real) by (nonlinear_arith)
                requires
                    b == 0real,
                    f == 0real,
            ;
        } else {
            assert(xx <= 2real && yy <= 2real) by (nonlinear_arith)
                requires
                    xx == x + x * u,
                    yy == y + y * w,
                    0real <= x <= 1real,
                    0real <= y <= 1real,
                    0real <= u <= 1real,
                    0real <= w <= 1real,
            ;
            assert(xx * f <= 2real * f && b * yy <= 2real * b && b * f <= f) by (nonlinear_arith)
                requires
                    xx <= 2real,
                    yy <= 2real,
                    0real <= b <= 1real,
                    0real <= f,
            ;
        }
    }
    let g = (1real + u) * (1real + w);
    assert(1real <= g && g * (1real + v) <= 1real + u + w + 2real * v) by (nonlinear_arith)
        requires
            g == (1real + u) * (1real + w),
            0real <= u <= 256real / h,
            0real <= w <= 256real / h,
            v == 1real / (2real * h),
            h == 4503599627370496real,
    ;
    assert(p <= m * g + 3real * s);
    assert(p * (1real + v) <= m * (g * (1real + v)) + 4real * s) by (nonlinear_arith)
        requires
            p <= m * g + 3real * s,
            0real <= v <= 1real / 16real,
            s >= 0real,
    ;
    assert(m * (g * (1real + v)) <= m * (1real + u + w + 2real * v)) by (nonlinear_arith)
        requires
            g * (1real + v) <= 1real + u + w + 2real * v,
            m >= 0real,
    ;
    assert(m * (1real + u + w + 2real * v) == m + m * (u + w + 2real * v)) by (nonlinear_arith);
    assert(p + p * v == p * (1real + v)) by (nonlinear_arith);
    // Lower bound.
    let lo_a = x - x * u - b;
    let lo_d = y - y * w - f;
    let x1 = x - x * u;
    let y1 = y - y * w;
    assert(0real <= x1 <= x && 0real <= y1 <= y) by (nonlinear_arith)
        requires
            x1 == x - x * u,
            y1 == y - y * w,
            x >= 0real,
            y >= 0real,
            0real <= u <= 1real,
            0real <= w <= 1real,
    ;
    assert(x1 * y1 >= m * (1real - u - w)) by (nonlinear_arith)
        requires
            x1 == x - x * u,
            y1 == y - y * w,
            m == x * y,
            x >= 0real,
            y >= 0real,
            u >= 0real,
            w >= 0real,
    {
        assert(x1 * y1 == m * (1real - u - w) + m * (u * w));
        assert(m * (u * w) >= 0real);
    }
    assert(p >= x1 * y1 - s) by {
        if b == 0real && f == 0real {
            assert(p >= x1 * y1) by (nonlinear_arith)
                requires
                    p == a * d,
                    a >= x1,
                    d >= y1,
                    x1 >= 0real,
                    y1 >= 0real,
            ;
        } else if lo_a >= 0real && lo_d >= 0real {
            assert(p >= lo_a * lo_d) by (nonlinear_arith)
                requires
                    p == a * d,
                    a >= lo_a,
                    d >= lo_d,
                    lo_a >= 0real,
                    lo_d >= 0real,
            ;
            assert(lo_a * lo_d >= x1 * y1 - s) by (nonlinear_arith)
                requires
                    lo_a == x1 - b,
                    lo_d == y1 - f,
                    0real <= x1 <= 1real,
                    0real <= y1 <= 1real,
                    b >= 0real,
                    f >= 0real,
                    s == b + f,
            ;
        } else {
            assert(p >= 0real) by (nonlinear_arith)
                requires
                    p == a * d,
                    a >= 0real,
                    d >= 0real,
            ;
            assert(x1 * y1 <= s) by (nonlinear_arith)
                requires
                    x1 < b || y1 < f,
                    0real <= x1 <= 1real,
                    0real <= y1 <= 1real,
                    b >= 0real,
                    f >= 0real,
                    s == b + f,
            ;
        }
    }
    assert(p >= m * (1real - u - w) - s);
    assert(p * (1real - v) >= m * (1real - u - w) * (1real - v) - s) by (nonlinear_arith)
        requires
            p >= m * (1real - u - w) - s,
            0real <= v <= 1real,
            s >= 0real,
    ;
    let q = 1real - u - w;
    assert((m * q) * (1real - v) >= m * (q - 2real * v)) by (nonlinear_arith)
        requires
            m >= 0real,
            v >= 0real,
            q <= 1real,
    {
        assert((m * q) * (1real - v) == m * q - (m * q) * v);
        assert((m * q) * v <= m * v) by (nonlinear_arith)
            requires
                m >= 0real,
                v >= 0real,
                q <= 1real,
        ;
        assert(m * (q - 2real * v) == m * q - 2real * (m * v));
        assert(m * v >= 0real);
    }
    assert(m * (q - 2real * v) == m - m * (u + w + 2real * v)) by (nonlinear_arith)
        requires
            q == 1real - u - w,
    ;
    assert(p - p * v == p * (1real - v)) by (nonlinear_arith);
}

/// One multiplication, where both numbers are at least one or both at most one.
proof fn lemma_step_near(r: nat, a: nat, x: real, y: real, c: nat, e: nat, b: real, big: bool)
    requires
        near(value(r), x, c as real, b),
        near(value(a), y, e as real, b),
        c <= 200,
        e <= 200,
        0real <= b <= 1real,
        big ==> x >= 1real && y >= 1real && b == 0real,
        !big ==> 0real <= x <= 1real && 0real <= y <= 1real,
    ensures
        match product(Some(r), Some(a)) {
            Some(n) => near(
                value(n),
                x * y,
                (c + e + 1) as real,
                if big {
                    0real
                } else {
                    16real * b + half_unit()
                },
            ),
            None => big && x * y >= huge() / 8real,
        },
{
    lemma_product_near(r, a);
    lemma_unit();
    let h = 4503599627370496real;
    let rv = value(r);
    let av = value(a);
    let p = rv * av;
    let g = huge();
    let cr = c as real;
    let er = e as real;
    assert(x * cr / h <= x / 4real && y * er / h <= y / 4real) by (nonlinear_arith)
        requires
            0real <= cr <= 200real,
            0real <= er <= 200real,
            x >= 0real,
            y >= 0real,
            h == 4503599627370496real,
    ;
    let xy = x * y;
    if big {
        assert(p <= 4real * xy && p >= 1real / 4real) by (nonlinear_arith)
            requires
                p == rv * av,
                xy == x * y,
                x / 2real <= rv <= 2real * x,
                y / 2real <= av <= 2real * y,
                x >= 1real,
                y >= 1real,
        ;
        assert(p * g >= 1real) by (nonlinear_arith)
            requires
                p >= 1real / 4real,
                g >= 4real,
        ;
    } else {
        assert(p <= 9real) by (nonlinear_arith)
            requires
                p == rv * av,
                0real <= rv <= 3real,
                0real <= av <= 3real,
        ;
    }
    match product(Some(r), Some(a)) {
        Some(n) => {
            let t = if big {
                0real
            } else {
                half_unit()
            };
            let un = pow2(1074) as real;
            let nr = n as real;
            assert(nr / un >= 0real) by (nonlinear_arith)
                requires
                    nr >= 0real,
                    un > 0real,
            ;
            lemma_near_times(rv, x, cr, b, av, y, er, b, value(n), t);
        },
        None => {},
    }
}

pub proof fn lemma_powered_none(r: Option<nat>, a: Option<nat>, k: nat)
    ensures
        powered(None, a, k) is None,
        k > 0 ==> powered(r, None, k) is None,
    decreases k,
{
    if k > 0 {
        lemma_powered_none(r, product(a, a), k / 2);
        lemma_powered_none(r, None, k / 2);
    }
}

proof fn lemma_real_power_square(y: real, m: nat)
    ensures
        real_power(y * y, m) == real_power(y, 2 * m),
    decreases m,
{
    reveal_with_fuel(real_power, 3);
    if m > 0 {
        lemma_real_power_square(y, (m - 1) as nat);
        let p = real_power(y, (2 * m - 2) as nat);
        assert(real_power(y, (2 * m - 1) as nat) == y * p);
        assert(real_power(y, 2 * m) == y * real_power(y, (2 * m - 1) as nat));
        assert((y * y) * p == y * (y * p)) by (nonlinear_arith);
    }
}

/// Powers of a number of at least one, or at most one, stay on that side.
pub proof fn lemma_real_power_side(y: real, m: nat)
    requires
        y >= 0real,
    ensures
        real_power(y, m) >= 0real,
        y >= 1real ==> real_power(y, m) >= 1real,
        y <= 1real ==> real_power(y, m) <= 1real,
        y > 0real ==> real_power(y, m) > 0real,
    decreases m,
{
    if m > 0 {
        lemma_real_power_side(y, (m - 1) as nat);
        let p = real_power(y, (m - 1) as nat);
        assert(y * p >= 0real && (y >= 1real && p >= 1real ==> y * p >= 1real) && (y <= 1real && p
            <= 1real ==> y * p <= 1real) && (y > 0real && p > 0real ==> y * p > 0real))
            by (nonlinear_arith)
            requires
                y >= 0real,
                p >= 0real,
        ;
    }
}

/// How far a power by repeated squaring can be off.
proof fn lemma_powered_near(
    r: nat,
    a: nat,
    x: real,
    y: real,
    c: nat,
    e: nat,
    b: real,
    big: bool,
    k: nat,
    left: nat,
)
    requires
        k < pow2(left),
        near(value(r), x, c as real, b),
        near(value(a), y, e as real, b),
        c + k * (e + 1) <= 200,
        b >= 0real,
        big ==> x >= 1real && y >= 1real && b == 0real,
        !big ==> 0real <= x <= 1real && 0real <= y <= 1real && real_power(17real, left) * (b
            + half_unit()) <= 1real,
    ensures
        match powered(Some(r), Some(a), k) {
            Some(n) => near(
                value(n),
                x * real_power(y, k),
                (c + k * (e + 1)) as real,
                if big {
                    0real
                } else {
                    real_power(17real, left) * (b + half_unit())
                },
            ),
            None => big && x * real_power(y, k) >= huge() / 8real,
        },
    decreases k,
{
    lemma_unit();
    lemma2_to64();
    lemma_real_power_side(17real, left);
    let h = half_unit();
    let w = real_power(17real, left);
    assert(b <= w * (b + h)) by (nonlinear_arith)
        requires
            w >= 1real,
            b >= 0real,
            h > 0real,
    ;
    let yk = real_power(y, k);
    if k == 0 {
        assert(x * 1real == x) by (nonlinear_arith);
        assert(0 * (e + 1) == 0);
    } else {
        assert(k * (e + 1) >= e + 1) by (nonlinear_arith)
            requires
                k >= 1,
        ;
        assert(left > 0);
        let l = (left - 1) as nat;
        lemma_pow2_adds(1, l);
        let w1 = real_power(17real, l);
        assert(w == 17real * w1);
        lemma_real_power_side(17real, l);
        let b2 = if big {
            0real
        } else {
            16real * b + h
        };
        if !big {
            assert(w1 * (b2 + h) <= w * (b + h) && b2 <= w * (b + h)) by (nonlinear_arith)
                requires
                    w == 17real * w1,
                    w1 >= 1real,
                    b2 == 16real * b + h,
                    b >= 0real,
                    h > 0real,
            ;
        }
        lemma_step_near(r, a, x, y, c, e, b, big);
        let m = k / 2;
        let xy = x * y;
        let yy = y * y;
        lemma_real_power_square(y, m);
        lemma_real_power_side(y, k);
        lemma_real_power_side(y, (k - 1) as nat);
        let q = real_power(y, (k - 1) as nat);
        assert(yk == y * q);
        assert(big ==> x * (y * q) >= xy) by (nonlinear_arith)
            requires
                xy == x * y,
                big ==> x >= 1real && y >= 1real && q >= 1real,
        ;
        assert(big ==> xy >= 1real && yy >= 1real) by (nonlinear_arith)
            requires
                xy == x * y,
                yy == y * y,
                big ==> x >= 1real && y >= 1real,
        ;
        assert(!big ==> 0real <= xy <= 1real && 0real <= yy <= 1real) by (nonlinear_arith)
            requires
                xy == x * y,
                yy == y * y,
                !big ==> 0real <= x <= 1real && 0real <= y <= 1real,
        ;
        let square = product(Some(a), Some(a));
        if m > 0 {
            assert(k * (e + 1) >= 2 * (e + 1)) by (nonlinear_arith)
                requires
                    k >= 2,
            ;
            lemma_step_near(a, a, y, y, e, e, b, big);
            lemma_real_power_side(y, (k - 2) as nat);
            let q2 = real_power(y, (k - 2) as nat);
            assert(q == y * q2);
            assert(big ==> x * (y * (y * q2)) >= yy) by (nonlinear_arith)
                requires
                    yy == y * y,
                    big ==> x >= 1real && y >= 1real && q2 >= 1real,
            {
                if big {
                    assert(x * (y * (y * q2)) == (x * q2) * (y * y));
                    assert(x * q2 >= 1real);
                }
            }
        }
        let ym = real_power(yy, m);
        if k % 2 == 1 {
            let first = product(Some(r), Some(a));
            lemma_powered_none(first, square, m);
            assert(k == 2 * m + 1);
            assert(ym == q);
            assert(xy * ym == x * yk) by (nonlinear_arith)
                requires
                    xy == x * y,
                    yk == y * ym,
            ;
            let res = powered(Some(r), Some(a), k);
            assert(res == powered(first, square, m));
            if first is Some && m == 0 {
                assert(1 * (e + 1) == e + 1);
                assert(ym == 1real);
                assert(xy * 1real == xy) by (nonlinear_arith);
            } else if first is Some && square is Some {
                let c2 = (c + e + 1) as nat;
                let e2 = (e + e + 1) as nat;
                assert(c2 + m * (e2 + 1) == c + k * (e + 1)) by (nonlinear_arith)
                    requires
                        k == 2 * m + 1,
                        c2 == c + e + 1,
                        e2 == e + e + 1,
                ;
                lemma_powered_near(first->0, square->0, xy, yy, c2, e2, b2, big, m, l);
            } else if first is Some {
                assert(res is None);
            }
        } else {
            lemma_powered_none(Some(r), square, m);
            assert(powered(Some(r), Some(a), k) == powered(Some(r), square, m));
            assert(k == 2 * m);
            assert(x * ym == x * yk);
            if square is Some {
                let e2 = (e + e + 1) as nat;
                assert(c + m * (e2 + 1) == c + k * (e + 1)) by (nonlinear_arith)
                    requires
                        k == 2 * m,
                        e2 == e + e + 1,
                ;
                lemma_powered_near(r, square->0, x, yy, c, e2, b2, big, m, l);
            }
        }
    }
}

/// Powers in double precision are off by a few steps of the last digit at most,
/// and out of range only where the power is huge.
pub proof fn law_powers_are_accurate(size: nat, k: nat)
    requires
        k <= 96,
    ensures
        match powered(Some(pow2(ONE as nat)), Some(size), k) {
            Some(n) => near(
                value(n),
                real_power(value(size), k),
                k as real,
                1real / huge(),
            ),
            None => real_power(value(size), k) >= huge() / 8real,
        },
        value(size) >= 1real ==> (powered(Some(pow2(ONE as nat)), Some(size), k) matches Some(n)
            ==> near(value(n), real_power(value(size), k), k as real, 0real)),
{
    lemma_unit();
    lemma2_to64();
    let one = pow2(1074);
    let u = one as real;
    let f = value(size);
    let sr = size as real;
    assert(value(one) == 1real) by (nonlinear_arith)
        requires
            value(one) == u / u,
            u > 0real,
    ;
    assert(f >= 0real) by (nonlinear_arith)
        requires
            f == sr / u,
            sr >= 0real,
            u > 0real,
    ;
    let p = real_power(f, k);
    assert(1real * p == p) by (nonlinear_arith);
    reveal_with_fuel(real_power, 8);
    let g = huge();
    let h = half_unit();
    let w = real_power(17real, 7);
    assert(w == 410338673real);
    assert(w * (0real + h) <= 1real / g && 1real / g <= 1real && 1real / g > 0real)
        by (nonlinear_arith)
        requires
            w == 410338673real,
            h * g * g <= 1real,
            h > 0real,
            g >= 410338673real,
    {
        assert((w * h) * g <= (h * g) * g) by (nonlinear_arith)
            requires
                w <= g,
                h > 0real,
                g > 0real,
        ;
        assert((w * h) * g <= 1real);
    }
    assert(near(1real, 1real, 0real, 0real));
    assert(f * 0real / 4503599627370496real == 0real) by (nonlinear_arith);
    assert(k * (0 + 1) == k) by (nonlinear_arith);
    lemma_powered_near(one, size, 1real, f, 0, 0, 0real, f >= 1real, k, 7);
}

/// What a time is in seconds is off by two steps of the last digit at most.
pub proof fn law_seconds_are_accurate(n: nat)
    ensures
        near(value(seconds(n)), n as real / 1000000000real, 2real, 0real),
        value(seconds(n)) >= 0real,
{
    lemma_unit();
    let one = pow2(1074);
    let u = one as real;
    let g = NANOS_PER_SEC as nat;
    let whole = n / g;
    let rest = n % g;
    let a = nearest(whole * one, 1);
    let b = nearest(rest * one, g);
    lemma_nearest_near(whole * one, 1);
    lemma_nearest_near(rest * one, g);
    lemma_nearest_near(a + b, 1);
    let wr = whole as real;
    let rr = rest as real;
    assert((whole * one) as real == wr * u && (rest * one) as real == rr * u) by (nonlinear_arith)
        requires
            wr == whole as real,
            rr == rest as real,
            u == one as real,
    ;
    let z = n as real;
    let t = (n as real / 1000000000real) * u;
    let x = wr * u;
    let y = (rr * u) / 1000000000real;
    assert(t == x + y) by (nonlinear_arith)
        requires
            t == (z / 1000000000real) * u,
            z == wr * 1000000000real + rr,
            x == wr * u,
            y == (rr * u) / 1000000000real,
    ;
    assert(x == 0real || x >= u) by (nonlinear_arith)
        requires
            x == wr * u,
            wr == 0real || wr >= 1real,
            u > 0real,
    ;
    assert(y == 0real || y >= u / 1000000000real) by (nonlinear_arith)
        requires
            y == (rr * u) / 1000000000real,
            rr == 0real || rr >= 1real,
            u > 0real,
    ;
    let h = huge();
    assert(h * h >= 1000000000000real * 9007199254740992real) by (nonlinear_arith)
        requires
            h >= 9007199254740992real,
    ;
    assert(whole == 0 ==> whole * one == 0);
    assert(rest == 0 ==> rest * one == 0);
    let s = seconds(n) as real;
    let k = t / 2251799813685248real;
    assert(t - k <= s <= t + k);
    let v = s / u;
    let e = z / 1000000000real;
    assert(e - e * 2real / 4503599627370496real <= v <= e + e * 2real / 4503599627370496real && v
        >= 0real) by (nonlinear_arith)
        requires
            v == s / u,
            t == e * u,
            k == t / 2251799813685248real,
            t - k <= s <= t + k,
            s >= 0real,
            u > 0real,
    ;
}

/// What a number of seconds is in nanoseconds is off by half a nanosecond at
/// most.
pub proof fn law_whole_nanos_are_nearest(x: nat)
    ensures
        value(x) * 1000000000real - 1real / 2real <= whole_nanos(x) as real <= value(x)
            * 1000000000real + 1real / 2real,
{
    lemma_unit();
    let one = pow2(1074);
    let u = one as real;
    let p = x * NANOS_PER_SEC as nat;
    let m = nearest_even(p, one) as int;
    lemma_fundamental_div_mod(p as int, one as int);
    lemma_mod_bound(p as int, one as int);
    let w = (p / one) as int;
    let r = (p % one) as int;
    assert(2 * (m * one) <= 2 * p + one && 2 * p <= 2 * (m * one) + one) by (nonlinear_arith)
        requires
            p == one * w + r,
            0 <= r < one,
            (m == w && 2 * r <= one) || (m == w + 1 && 2 * r >= one),
    ;
    let mr = m as real;
    let xr = x as real;
    assert((m * one) as real == mr * u) by (nonlinear_arith)
        requires
            mr == m as real,
            u == one as real,
    ;
    let v = xr / u;
    assert(v * 1000000000real - 1real / 2real <= mr <= v * 1000000000real + 1real / 2real)
        by (nonlinear_arith)
        requires
            v == xr / u,
            2real * (mr * u) <= 2real * (xr * 1000000000real) + u,
            2real * (xr * 1000000000real) <= 2real * (mr * u) + u,
            u > 0real,
    ;
}

/// What is drawn from the upper half of a number lies as far up as the draw
/// says, off by a few steps of the last digit and a few units at most.
pub proof fn law_upper_half_is_accurate(x: nat, draw: nat)
    requires
        draw < 0x20_0000_0000_0000,
    ensures
        ({
            let c = x as real;
            let at = c / 2real + (c * draw as real) / 18014398509481984real;
            let off = c / 1125899906842624real + 4real;
            at - off <= upper_half(x, draw) as real <= at + off
        }),
{
    lemma2_to64_rest();
    let k = 9007199254740992real;
    let half = nearest(x, 2);
    lemma_nearest_near(x, 2);
    let p = half * draw;
    lemma_nearest_near(p, pow2(53));
    let part = nearest(p, pow2(53));
    lemma_nearest_near(half + part, 1);
    let c = x as real;
    let d = draw as real;
    let hr = half as real;
    let t = d / k;
    assert(p as real == hr * d) by (nonlinear_arith)
        requires
            p == half * draw,
            hr == half as real,
            d == draw as real,
    ;
    assert(0real <= t <= 1real && (hr * d) / k == hr * t && (c * d) / (2real * k) == (c / 2real)
        * t) by (nonlinear_arith)
        requires
            t == d / k,
            0real <= d <= k,
            k == 9007199254740992real,
    ;
    let ht = hr * t;
    let ct = (c / 2real) * t;
    let off = c / 2real / k + 1real / 2real;
    assert(ct - off <= ht <= ct + off && 0real <= ht <= hr && ct <= c / 2real) by (nonlinear_arith)
        requires
            ht == hr * t,
            ct == (c / 2real) * t,
            0real <= t <= 1real,
            c / 2real - off <= hr <= c / 2real + off,
            hr >= 0real,
            c >= 0real,
            off >= 0real,
    ;
}

} // verus!

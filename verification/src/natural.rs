//! Natural numbers of any size, with just the operations that rounding a
//! product, a sum or a quotient needs.
use vstd::arithmetic::div_mod::{
    lemma_div_denominator, lemma_fundamental_div_mod, lemma_fundamental_div_mod_converse,
    lemma_mod_bound,
};
use vstd::arithmetic::mul::{lemma_mul_inequality, lemma_mul_is_commutative};
use vstd::arithmetic::power2::{lemma2_to64, lemma_pow2_adds, lemma_pow2_pos, pow2};
use vstd::prelude::*;

verus! {

/// One more than the largest limb.
pub const LIMB: u128 = 0x1_0000_0000_0000_0000;

/// `b` to the power `k`.
pub open spec fn power(b: nat, k: nat) -> nat
    decreases k,
{
    if k == 0 {
        1
    } else {
        b * power(b, (k - 1) as nat)
    }
}

/// The number that a sequence of limbs stands for, least significant first.
pub open spec fn limbs_value(s: Seq<u64>) -> nat
    decreases s.len(),
{
    if s.len() == 0 {
        0
    } else {
        s[0] as nat + LIMB as nat * limbs_value(s.drop_first())
    }
}

proof fn lemma_push(s: Seq<u64>, x: u64)
    ensures
        limbs_value(s.push(x)) == limbs_value(s) + power(LIMB as nat, s.len()) * x,
    decreases s.len(),
{
    reveal_with_fuel(limbs_value, 2);
    let b = LIMB as nat;
    if s.len() == 0 {
        assert(s.push(x).drop_first() =~= Seq::<u64>::empty());
        let one = power(b, 0);
        assert(one * x == x) by (nonlinear_arith)
            requires
                one == 1,
        ;
    } else {
        assert(s.push(x).drop_first() =~= s.drop_first().push(x));
        lemma_push(s.drop_first(), x);
        let rest = limbs_value(s.drop_first());
        let p = power(b, (s.len() - 1) as nat);
        assert(power(b, s.len()) == b * p);
        assert(b * (rest + p * x) == b * rest + (b * p) * x) by (nonlinear_arith);
    }
}

proof fn lemma_skip(s: Seq<u64>, i: int)
    requires
        0 <= i < s.len(),
    ensures
        limbs_value(s.skip(i)) == s[i] + LIMB * limbs_value(s.skip(i + 1)),
{
    assert(s.skip(i).drop_first() =~= s.skip(i + 1));
}

/// Limbs that are all zero stand for zero, and only they do.
proof fn lemma_zero(s: Seq<u64>)
    ensures
        limbs_value(s) == 0 <==> forall|i: int| 0 <= i < s.len() ==> s[i] == 0,
    decreases s.len(),
{
    if s.len() > 0 {
        lemma_zero(s.drop_first());
        let rest = limbs_value(s.drop_first());
        assert(rest > 0 ==> LIMB as nat * rest > 0) by (nonlinear_arith);
        assert(s.drop_first() =~= s.skip(1));
        if forall|i: int| 0 <= i < s.len() ==> s[i] == 0 {
            assert(forall|i: int| 0 <= i < s.len() - 1 ==> s.drop_first()[i] == s[i + 1]);
            assert(limbs_value(s) == 0);
        }
        if limbs_value(s) == 0 {
            assert(s[0] == 0 && rest == 0);
            assert forall|i: int| 0 <= i < s.len() implies s[i] == 0 by {
                if i > 0 {
                    assert(s.drop_first()[i - 1] == s[i]);
                }
            }
        }
    }
}

/// A natural number.
pub struct Natural {
    limbs: Vec<u64>,
}

impl View for Natural {
    type V = nat;

    closed spec fn view(&self) -> nat {
        limbs_value(self.limbs@)
    }
}

impl Natural {
    /// The number `n`.
    pub fn new(n: u128) -> (r: Natural)
        ensures
            r@ == n,
    {
        let mut limbs: Vec<u64> = Vec::new();
        limbs.push((n % LIMB) as u64);
        limbs.push((n / LIMB) as u64);
        proof {
            reveal_with_fuel(limbs_value, 3);
            assert(limbs@.drop_first().drop_first() =~= Seq::<u64>::empty());
            assert(limbs@.drop_first()[0] == (n / LIMB) as u64);
        }
        Natural { limbs }
    }

    /// A second copy of the same number.
    pub fn duplicate(&self) -> (r: Natural)
        ensures
            r@ == self@,
    {
        let limbs = self.limbs.clone();
        assert(limbs@ =~= self.limbs@);
        Natural { limbs }
    }

    /// Multiplies by `d`.
    pub fn multiply(&mut self, d: u64)
        ensures
            final(self)@ == old(self)@ * d,
    {
        let ghost s = self.limbs@;
        let mut out: Vec<u64> = Vec::new();
        let mut carry: u64 = 0;
        let mut i: usize = 0;
        assert(s.skip(0) =~= s);
        assert(power(LIMB as nat, 0) == 1);
        assert(1 * (0 + d * limbs_value(s)) == d * limbs_value(s)) by (nonlinear_arith);
        assert(power(LIMB as nat, 0) * (0 + d * limbs_value(s)) == d * limbs_value(s));
        while i < self.limbs.len()
            invariant
                self.limbs@ == s,
                i <= s.len(),
                out@.len() == i,
                limbs_value(out@) + power(LIMB as nat, i as nat) * (carry + d * limbs_value(
                    s.skip(i as int),
                )) == d * limbs_value(s),
            decreases s.len() - i,
        {
            let x: u64 = self.limbs[i];
            assert(d * x + carry <= 0xffff_ffff_ffff_ffff * 0xffff_ffff_ffff_ffff
                + 0xffff_ffff_ffff_ffff) by {
                lemma_mul_inequality(d as int, 0xffff_ffff_ffff_ffff, x as int);
                lemma_mul_inequality(x as int, 0xffff_ffff_ffff_ffff, 0xffff_ffff_ffff_ffff);
            }
            assert(d * x >= 0) by (nonlinear_arith);
            let cur: u128 = d as u128 * x as u128 + carry as u128;
            let low: u64 = (cur % LIMB) as u64;
            let high: u64 = (cur / LIMB) as u64;
            proof {
                let p = power(LIMB as nat, i as nat);
                let rest = limbs_value(s.skip(i as int + 1));
                lemma_skip(s, i as int);
                lemma_push(out@, low);
                assert(power(LIMB as nat, (i + 1) as nat) == LIMB as nat * p);
                assert(cur == low + LIMB * high);
                let b = LIMB as int;
                assert(p * (carry + d * (x + b * rest)) == p * low + (b * p) * (high + d * rest))
                    by (nonlinear_arith)
                    requires
                        d * x + carry == low + b * high,
                ;
            }
            out.push(low);
            carry = high;
            i = i + 1;
        }
        assert(s.skip(s.len() as int) =~= Seq::<u64>::empty());
        proof {
            lemma_push(out@, carry);
            assert(d * 0 == 0);
            lemma_mul_is_commutative(d as int, limbs_value(s) as int);
        }
        out.push(carry);
        self.limbs = out;
    }

    /// Divides by `d`, dropping the remainder, which is returned.
    pub fn divide(&mut self, d: u64) -> (rem: u64)
        requires
            d > 0,
        ensures
            final(self)@ == old(self)@ / d as nat,
            rem == old(self)@ % d as nat,
    {
        let ghost s = self.limbs@;
        let mut i: usize = self.limbs.len();
        let mut rem: u64 = 0;
        assert(s.skip(s.len() as int) =~= Seq::<u64>::empty());
        assert(d * 0 == 0);
        while i > 0
            invariant
                d > 0,
                rem < d,
                i <= s.len(),
                self.limbs@.len() == s.len(),
                forall|j: int| 0 <= j < i ==> self.limbs@[j] == s[j],
                limbs_value(s.skip(i as int)) == d * limbs_value(self.limbs@.skip(i as int)) + rem,
            decreases i,
        {
            let ghost before = self.limbs@;
            i = i - 1;
            let x: u64 = self.limbs[i];
            assert(rem * LIMB + x < d * LIMB) by (nonlinear_arith)
                requires
                    rem < d,
                    x < LIMB,
            ;
            assert(d * LIMB <= 0xffff_ffff_ffff_ffff * LIMB) by (nonlinear_arith)
                requires
                    d <= 0xffff_ffff_ffff_ffff,
            ;
            let cur: u128 = rem as u128 * LIMB + x as u128;
            assert(cur / d as u128 <= 0xffff_ffff_ffff_ffff) by (nonlinear_arith)
                requires
                    cur < d * LIMB,
                    d > 0,
                    LIMB == 0x1_0000_0000_0000_0000,
            ;
            let q: u64 = (cur / d as u128) as u64;
            let r: u64 = (cur % d as u128) as u64;
            self.limbs.set(i, q);
            proof {
                lemma_fundamental_div_mod(cur as int, d as int);
                lemma_mod_bound(cur as int, d as int);
                lemma_skip(s, i as int);
                lemma_skip(self.limbs@, i as int);
                assert(self.limbs@.skip(i + 1) =~= before.skip(i + 1));
                let rest = limbs_value(before.skip(i + 1));
                let b = LIMB as int;
                assert(x + b * (d * rest + rem) == d * (q + b * rest) + r) by (nonlinear_arith)
                    requires
                        rem * b + x == d * q + r,
                ;
            }
            rem = r;
        }
        proof {
            assert(s.skip(0) =~= s);
            assert(self.limbs@.skip(0) =~= self.limbs@);
            lemma_mul_is_commutative(d as int, self@ as int);
            lemma_fundamental_div_mod_converse(
                limbs_value(s) as int,
                d as int,
                self@ as int,
                rem as int,
            );
        }
        rem
    }

    /// Adds `x`.
    pub fn add_small(&mut self, x: u64)
        ensures
            final(self)@ == old(self)@ + x,
    {
        let ghost s = self.limbs@;
        let mut out: Vec<u64> = Vec::new();
        let mut carry: u64 = x;
        let mut i: usize = 0;
        proof {
            assert(s.skip(0) =~= s);
            let one = power(LIMB as nat, 0) as int;
            let rest = limbs_value(s) + x;
            assert(one * rest == rest) by (nonlinear_arith)
                requires
                    one == 1,
            ;
        }
        while i < self.limbs.len()
            invariant
                self.limbs@ == s,
                i <= s.len(),
                out@.len() == i,
                limbs_value(out@) + power(LIMB as nat, i as nat) * (limbs_value(s.skip(i as int))
                    + carry) == limbs_value(s) + x,
            decreases s.len() - i,
        {
            let cur: u128 = self.limbs[i] as u128 + carry as u128;
            let low: u64 = (cur % LIMB) as u64;
            let high: u64 = (cur / LIMB) as u64;
            proof {
                let p = power(LIMB as nat, i as nat) as int;
                let rest = limbs_value(s.skip(i as int + 1)) as int;
                let b = LIMB as int;
                let y = s[i as int] as int;
                let c = carry as int;
                lemma_skip(s, i as int);
                lemma_push(out@, low);
                assert(power(LIMB as nat, (i + 1) as nat) == LIMB as nat * p);
                assert(p * ((y + b * rest) + c) == p * low + (b * p) * (rest + high))
                    by (nonlinear_arith)
                    requires
                        y + c == low + b * high,
                ;
            }
            out.push(low);
            carry = high;
            i = i + 1;
        }
        proof {
            assert(s.skip(s.len() as int) =~= Seq::<u64>::empty());
            lemma_push(out@, carry);
        }
        out.push(carry);
        self.limbs = out;
    }

    /// Multiplies by `2^t`.
    pub fn shift_up(&mut self, t: u32)
        ensures
            final(self)@ == old(self)@ * pow2(t as nat),
    {
        let ghost v = self@;
        let mut left: u32 = t;
        proof {
            lemma2_to64();
            let one = pow2(0) as int;
            assert(v * one == v) by (nonlinear_arith)
                requires
                    one == 1,
            ;
        }
        while left >= 32
            invariant
                left <= t,
                self@ == v * pow2((t - left) as nat),
            decreases left,
        {
            self.multiply(0x1_0000_0000);
            proof {
                lemma2_to64();
                lemma_pow2_adds((t - left) as nat, 32);
                let p = pow2((t - left) as nat) as int;
                assert((v * p) * 0x1_0000_0000 == v * (p * 0x1_0000_0000)) by (nonlinear_arith);
            }
            left = left - 32;
        }
        while left > 0
            invariant
                left <= t,
                self@ == v * pow2((t - left) as nat),
            decreases left,
        {
            self.multiply(2);
            proof {
                lemma2_to64();
                lemma_pow2_adds((t - left) as nat, 1);
                let p = pow2((t - left) as nat) as int;
                assert((v * p) * 2 == v * (p * 2)) by (nonlinear_arith);
            }
            left = left - 1;
        }
    }

    /// Whether the number is zero.
    pub fn is_zero(&self) -> (r: bool)
        ensures
            r == (self@ == 0),
    {
        proof {
            lemma_zero(self.limbs@);
        }
        let mut i: usize = 0;
        while i < self.limbs.len()
            invariant
                i <= self.limbs@.len(),
                forall|j: int| 0 <= j < i ==> self.limbs@[j] == 0,
                self@ == 0 <==> forall|j: int| 0 <= j < self.limbs@.len() ==> self.limbs@[j] == 0,
            decreases self.limbs@.len() - i,
        {
            if self.limbs[i] != 0 {
                return false;
            }
            i = i + 1;
        }
        true
    }

    /// The number as a machine integer, if it fits into one.
    pub fn to_u128(&self) -> (r: Option<u128>)
        ensures
            r == (if self@ <= u128::MAX {
                Some(self@ as u128)
            } else {
                None
            }),
    {
        let mut rest = self.duplicate();
        let low: u64 = rest.split();
        let high: u64 = rest.split();
        if rest.is_zero() {
            Some(low as u128 + LIMB * high as u128)
        } else {
            None
        }
    }

    /// Removes and returns the lowest limb.
    fn split(&mut self) -> (low: u64)
        ensures
            old(self)@ == low + LIMB * final(self)@,
    {
        if self.limbs.len() == 0 {
            0
        } else {
            proof {
                assert(self.limbs@.remove(0) =~= self.limbs@.drop_first());
            }
            self.limbs.remove(0)
        }
    }

    /// Divides by `2^t`, rounding down. The result says whether nothing was
    /// rounded off.
    pub fn shift_down(&mut self, t: u32) -> (exact: bool)
        ensures
            final(self)@ == old(self)@ / pow2(t as nat),
            exact == (old(self)@ % pow2(t as nat) == 0),
    {
        let ghost v = self@;
        let mut left: u32 = t;
        let mut exact: bool = true;
        proof {
            lemma2_to64();
            assert(v / 1 == v && v % 1 == 0);
        }
        while left >= 32
            invariant
                left <= t,
                self@ == v / pow2((t - left) as nat),
                exact == (v % pow2((t - left) as nat) == 0),
            decreases left,
        {
            let r: u64 = self.divide(0x1_0000_0000);
            proof {
                lemma2_to64();
                lemma_shift_more(v, (t - left) as nat, 32);
            }
            exact = exact && r == 0;
            left = left - 32;
        }
        while left > 0
            invariant
                left <= t,
                self@ == v / pow2((t - left) as nat),
                exact == (v % pow2((t - left) as nat) == 0),
            decreases left,
        {
            let r: u64 = self.divide(2);
            proof {
                lemma2_to64();
                lemma_shift_more(v, (t - left) as nat, 1);
            }
            exact = exact && r == 0;
            left = left - 1;
        }
        exact
    }
}

/// Dividing by `2^a` and then by `2^b` is dividing by `2^(a + b)`, and is
/// exact when both steps are.
proof fn lemma_shift_more(v: nat, a: nat, b: nat)
    ensures
        v / pow2(a + b) == (v / pow2(a)) / pow2(b),
        v % pow2(a + b) == 0 <==> v % pow2(a) == 0 && (v / pow2(a)) % pow2(b) == 0,
{
    lemma_pow2_pos(a);
    lemma_pow2_pos(b);
    lemma_pow2_adds(a, b);
    lemma_divide_more(v, pow2(a), pow2(b));
}

/// Dividing by `a` and then by `b` is dividing by `a * b`, and is exact when
/// both steps are.
pub proof fn lemma_divide_more(v: nat, a: nat, b: nat)
    requires
        a > 0,
        b > 0,
    ensures
        v / (a * b) == (v / a) / b,
        v % (a * b) == 0 <==> v % a == 0 && (v / a) % b == 0,
{
    let p = a as int;
    let q = b as int;
    let x = v as int;
    lemma_div_denominator(x, p, q);
    lemma_fundamental_div_mod(x, p);
    lemma_fundamental_div_mod(x / p, q);
    lemma_mod_bound(x, p);
    lemma_mod_bound(x / p, q);
    let d = x / p;
    let r = p * (d % q) + x % p;
    assert(x == (p * q) * (d / q) + r) by (nonlinear_arith)
        requires
            x == p * d + x % p,
            d == q * (d / q) + d % q,
            r == p * (d % q) + x % p,
    ;
    assert(0 <= r < p * q) by (nonlinear_arith)
        requires
            0 <= d % q <= q - 1,
            0 <= x % p < p,
            r == p * (d % q) + x % p,
    ;
    lemma_mul_is_commutative(p * q, d / q);
    lemma_fundamental_div_mod_converse(x, p * q, d / q, r);
    assert(d % q > 0 ==> p * (d % q) > 0) by (nonlinear_arith)
        requires
            p > 0,
    ;
    assert(d % q == 0 ==> p * (d % q) == 0) by (nonlinear_arith);
}

} // verus!

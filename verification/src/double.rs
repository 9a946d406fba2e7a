//! Numbers in double precision, told in whole numbers.
//!
//! Every finite double that is not negative is a whole number of units, of which two to
//! the power 1074 make one. It has no more than 53 significant bits, and is below the
//! limit; what would be rounded beyond that is infinite.

use vstd::arithmetic::div_mod::{
    lemma_div_denominator, lemma_fundamental_div_mod, lemma_fundamental_div_mod_converse,
    lemma_mod_breakdown,
};
use vstd::arithmetic::power2::{
    lemma2_to64, lemma2_to64_rest, lemma_pow2_adds, lemma_pow2_pos, lemma_pow2_strictly_increases,
    lemma_pow2_unfold, pow2,
};
use vstd::prelude::*;

use crate::big::{base, base_pow, Big};
use crate::decimal::{
    all_zero, digits_value, lemma_pow10_add, lemma_pow10_pos, pow10, Decimal,
};

verus! {

/// How many times a unit is halved from one.
pub const UNIT_BITS: u128 = 1074;

/// One, in units.
pub open spec fn one() -> nat {
    pow2(1074)
}

/// From here on a number is infinite, in units: two to the power 1024.
pub open spec fn limit() -> nat {
    pow2(2098)
}

/// The whole number nearest to `p / q`; the even one of two that are equally near.
pub open spec fn nearest(p: nat, q: nat) -> nat {
    if 2 * (p % q) < q || (2 * (p % q) == q && (p / q) % 2 == 0) {
        p / q
    } else {
        p / q + 1
    }
}

/// The whole number nearest to `p / q`; the greater one of two that are equally near.
pub open spec fn nearest_up(p: nat, q: nat) -> nat {
    if 2 * (p % q) < q {
        p / q
    } else {
        p / q + 1
    }
}

/// How many of its low bits a number has to drop to be left with 53.
pub open spec fn surplus(n: nat) -> nat
    decreases n,
{
    if n < 0x20_0000_0000_0000 {
        0
    } else {
        1 + surplus(n / 2)
    }
}

/// The double nearest to `p / q` units, were there no limit.
pub open spec fn fitted(p: nat, q: nat) -> nat {
    let k = surplus(p / q);
    nearest(p, q * pow2(k)) * pow2(k)
}

/// The double nearest to a decimal number, were there no limit: its digits read as a whole
/// number, times ten to the power `exponent`.
pub open spec fn double_of(digits: Seq<u8>, exponent: int) -> nat {
    if exponent >= 0 {
        fitted(digits_value(digits) * pow10(exponent as nat) * one(), 1)
    } else {
        fitted(digits_value(digits) * one(), pow10((-exponent) as nat))
    }
}

/// `m` is the whole part of `p / q`; `half` says that at least a half is left over, and
/// `more` that it is not just a half or nothing.
pub open spec fn split(p: nat, q: nat, m: nat, half: bool, more: bool) -> bool {
    &&& q > 0
    &&& m == p / q
    &&& half == (2 * (p % q) >= q)
    &&& more == if half {
        2 * (p % q) > q
    } else {
        p % q > 0
    }
}

/// A split for twice the divisor.
proof fn lemma_split_halved(p: nat, q: nat, m: nat, half: bool, more: bool)
    requires
        split(p, q, m, half, more),
    ensures
        split(p, 2 * q, m / 2, m % 2 == 1, half || more),
{
    let r = p % q;
    let b = m % 2;
    let h = m / 2;
    lemma_fundamental_div_mod(p as int, q as int);
    assert(0 <= r < q) by {
        vstd::arithmetic::div_mod::lemma_mod_bound(p as int, q as int);
    }
    let left = b * q + r;
    assert(p == h * (2 * q) + left) by (nonlinear_arith)
        requires
            p == q * m + r,
            m == 2 * h + b,
            left == b * q + r,
    ;
    assert(left < 2 * q && (b == 1 ==> left == q + r) && (b == 0 ==> left == r)) by (nonlinear_arith)
        requires
            r < q,
            b < 2,
            left == b * q + r,
    ;
    lemma_fundamental_div_mod_converse(p as int, 2 * q as int, h as int, left as int);
}

/// A whole number is split by one.
proof fn lemma_split_whole(p: nat)
    ensures
        split(p, 1, p, false, false),
{
    lemma_fundamental_div_mod_converse(p as int, 1, p as int, 0);
}

/// A split from the whole part of twice the quotient, and whether anything is left over.
proof fn lemma_split_cut(p: nat, q: nat)
    requires
        q > 0,
    ensures
        split(p, q, (2 * p) / q / 2, ((2 * p) / q) % 2 == 1, (2 * p) % q != 0),
{
    let n = (2 * p) / q;
    let s = (2 * p) % q;
    let m = n / 2;
    let b = n % 2;
    lemma_fundamental_div_mod(2 * p as int, q as int);
    vstd::arithmetic::div_mod::lemma_mod_bound(2 * p as int, q as int);
    let r = p - m * q;
    assert(2 * r == b * q + s) by (nonlinear_arith)
        requires
            2 * p == q * n + s,
            n == 2 * m + b,
            r == p - m * q,
    ;
    assert(b * q <= q && (b == 1 ==> b * q == q) && (b == 0 ==> b * q == 0)) by (nonlinear_arith)
        requires
            b < 2,
    ;
    lemma_fundamental_div_mod_converse(p as int, q as int, m as int, r);
}

/// What is rounded by a split.
proof fn lemma_split_nearest(p: nat, q: nat, m: nat, half: bool, more: bool)
    requires
        split(p, q, m, half, more),
    ensures
        nearest(p, q) == if half && (more || m % 2 == 1) {
            m + 1
        } else {
            m
        },
        nearest_up(p, q) == if half {
            m + 1
        } else {
            m
        },
{
}

/// The whole part of a number that has so many bits has no more to drop.
proof fn lemma_surplus_bound(n: nat, bits: nat)
    requires
        n < pow2(bits),
    ensures
        surplus(n) <= bits,
    decreases bits,
{
    if n >= 0x20_0000_0000_0000 {
        if bits == 0 {
            lemma2_to64();
        } else {
            lemma_pow2_unfold(bits);
            lemma_surplus_bound(n / 2, (bits - 1) as nat);
        }
    }
}

/// A power of the base is one of two.
proof fn lemma_base_bits(k: nat)
    ensures
        base_pow(k) == pow2(32 * k),
    decreases k,
{
    lemma2_to64();
    if k > 0 {
        lemma_base_bits((k - 1) as nat);
        lemma_pow2_adds(32, 32 * (k - 1) as nat);
    }
}

/// A number that is rounded to 53 bits is no less than half of what it was.
proof fn lemma_fitted_low(p: nat)
    ensures
        2 * fitted(p, 1) >= p,
{
    lemma_fundamental_div_mod_converse(p as int, 1, p as int, 0);
    let k = surplus(p);
    let w = pow2(k);
    lemma_pow2_pos(k);
    let m = p / w;
    lemma_fundamental_div_mod(p as int, w as int);
    vstd::arithmetic::div_mod::lemma_mod_bound(p as int, w as int);
    let r = p % w;
    if k == 0 {
        lemma2_to64();
        assert(1 * w == 1);
        lemma_split_whole(p);
        lemma_split_nearest(p, 1, p, false, false);
        assert(fitted(p, 1) == p) by (nonlinear_arith)
            requires
                fitted(p, 1) == nearest(p, 1) * w,
                nearest(p, 1) == p,
                w == 1,
        ;
    } else {
        lemma_surplus_low(p);
        let n = nearest(p, w);
        assert(1 * w == w);
        assert(2 * (n * w) >= p) by (nonlinear_arith)
            requires
                n >= m,
                m >= 1,
                p == w * m + r,
                r < w,
        ;
    }
}

/// What is left of a number that drops bits has 53.
proof fn lemma_surplus_low(n: nat)
    requires
        surplus(n) > 0,
    ensures
        0x10_0000_0000_0000 <= n / pow2(surplus(n)) < 0x20_0000_0000_0000,
    decreases n,
{
    let k = surplus(n);
    lemma_pow2_unfold(k);
    lemma_pow2_pos((k - 1) as nat);
    let w = pow2((k - 1) as nat);
    lemma_div_denominator(n as int, 2, w as int);
    assert(surplus(n / 2) == k - 1);
    if k == 1 {
        lemma2_to64();
        assert(n / 2 / 1 == n / 2);
    } else {
        lemma_surplus_low(n / 2);
    }
}

/// A double that is not negative: so many times a power of two, in units.
pub struct Double {
    m: u64,
    k: u128,
}

impl View for Double {
    type V = nat;

    closed spec fn view(&self) -> nat {
        self.m as nat * pow2(self.k as nat)
    }
}

impl Double {
    /// There are no more than 53 bits, and all of them where there is a power.
    pub closed spec fn wf(self) -> bool {
        &&& self.m <= 0x20_0000_0000_0000
        &&& self.k > 0 ==> self.m >= 0x10_0000_0000_0000
        &&& self.k <= 0x100_0000_0000_0000_0000_0000
    }

    /// Zero.
    pub fn zero() -> (d: Self)
        ensures
            d.wf(),
            d@ == 0,
    {
        let d: Double = Double { m: 0, k: 0 };
        assert(0 * pow2(0) == 0);
        d
    }

    /// Rounds a number that is split.
    fn fit(n: Big, half: bool, more: bool, Ghost(p): Ghost<nat>, Ghost(q): Ghost<nat>) -> (d: Self)
        requires
            split(p, q, n@, half, more),
        ensures
            d.wf(),
            d@ == fitted(p, q),
    {
        let mut n: Big = n;
        let mut half: bool = half;
        let mut more: bool = more;
        let mut k: u128 = 0;
        let len: usize = n.len();
        let ghost all = surplus(p / q);
        proof {
            lemma_base_bits(len as nat);
            lemma_surplus_bound(n@, 32 * len as nat);
            lemma2_to64();
            assert(q * pow2(0) == q) by (nonlinear_arith)
                requires
                    pow2(0) == 1,
            ;
        }
        loop
            invariant
                split(p, q * pow2(k as nat), n@, half, more),
                k + surplus(n@) == all,
                all <= 32 * len,
                all == surplus(p / q),
                k > 0 ==> n@ >= 0x10_0000_0000_0000,
            decreases all - k,
        {
            let small: Option<u128> = n.low();
            if let Some(v) = small {
                if v < 0x20_0000_0000_0000 {
                    let m: u64 = v as u64;
                    proof {
                        lemma_split_nearest(p, q * pow2(k as nat), n@, half, more);
                    }
                    let up: bool = half && (more || m % 2 == 1);
                    return Double {
                        m: if up {
                            m + 1
                        } else {
                            m
                        },
                        k,
                    };
                }
            }
            proof {
                lemma_split_halved(p, q * pow2(k as nat), n@, half, more);
                lemma_pow2_unfold((k + 1) as nat);
                let w = pow2(k as nat);
                assert(2 * (q * w) == q * (2 * w)) by (nonlinear_arith);
            }
            let bit: u32 = n.divide(2);
            more = half || more;
            half = bit == 1;
            k = k + 1;
        }
    }

    /// The number in units.
    fn units(&self) -> (b: Big)
        ensures
            b@ == self@,
    {
        let mut b: Big = Big::new(self.m);
        shift_up(&mut b, self.k);
        b
    }

    /// The double nearest to a decimal number's magnitude; nothing where that is infinite
    /// for its exponent alone.
    pub fn read(d: &Decimal) -> (r: Option<Self>)
        requires
            d.wf(),
        ensures
            match r {
                Some(x) => x.wf() && x@ == double_of(d.digits@, d.exponent as int),
                None => double_of(d.digits@, d.exponent as int) >= limit() && d.exponent > 0,
            },
    {
        let ghost v = digits_value(d.digits@);
        let ghost e = d.exponent as int;
        if d.is_zero() {
            proof {
                lemma_zero_value(d.digits@);
                assert(0 * pow10(e as nat) == 0);
                assert(0 * one() == 0);
                lemma_pow10_pos((-e) as nat);
                lemma_fitted_zero(1);
                lemma_fitted_zero(pow10((-e) as nat));
            }
            return Some(Double::zero());
        }
        proof {
            lemma_value_bounds(d.digits@);
            lemma_some_value(d.digits@);
        }
        if d.exponent > 400 {
            proof {
                lemma_far_above(v, e as nat);
            }
            return None;
        }
        if d.exponent + (d.digits.len() as i128) < -400 {
            proof {
                lemma_far_below(v, d.digits@.len(), (-e) as nat);
            }
            return Some(Double::zero());
        }
        let mut n: Big = whole(&d.digits);
        if d.exponent >= 0 {
            tens_up(&mut n, d.exponent as u128);
            shift_up(&mut n, UNIT_BITS);
            let ghost p = n@;
            proof {
                lemma_split_whole(p);
            }
            Some(Double::fit(n, false, false, Ghost(p), Ghost(1)))
        } else {
            shift_up(&mut n, UNIT_BITS);
            let ghost p = n@;
            let ghost q = pow10((-e) as nat);
            n.times(2, 0);
            let rest: bool = tens_down(&mut n, (-d.exponent) as u128);
            proof {
                lemma_pow10_pos((-e) as nat);
                assert(p * 2 == 2 * p);
                lemma_split_cut(p, q);
            }
            let bit: u32 = n.divide(2);
            Some(Double::fit(n, bit == 1, rest, Ghost(p), Ghost(q)))
        }
    }

    /// The double nearest to this times `f`.
    pub fn times(&self, f: u32) -> (r: Self)
        requires
            self.wf(),
        ensures
            r.wf(),
            r@ == fitted(self@ * f as nat, 1),
    {
        let mut n: Big = self.units();
        n.times(f, 0);
        let ghost p = n@;
        proof {
            lemma_split_whole(p);
        }
        Double::fit(n, false, false, Ghost(p), Ghost(1))
    }

    /// The double nearest to this over `d`.
    pub fn over(&self, d: u32) -> (r: Self)
        requires
            self.wf(),
            d > 0,
        ensures
            r.wf(),
            r@ == fitted(self@, d as nat),
    {
        let mut n: Big = self.units();
        let ghost p = n@;
        n.times(2, 0);
        let rest: u32 = n.divide(d);
        proof {
            assert(p * 2 == 2 * p);
            lemma_split_cut(p, d as nat);
        }
        let bit: u32 = n.divide(2);
        Double::fit(n, bit == 1, rest != 0, Ghost(p), Ghost(d as nat))
    }

    /// The double nearest to the sum of two.
    pub fn plus(&self, other: &Double) -> (r: Self)
        requires
            self.wf(),
            other.wf(),
        ensures
            r.wf(),
            r@ == fitted(self@ + other@, 1),
    {
        let n: Big = self.units().plus(&other.units());
        let ghost p = n@;
        proof {
            lemma_split_whole(p);
        }
        Double::fit(n, false, false, Ghost(p), Ghost(1))
    }

    /// Whether this is zero.
    pub fn is_zero(&self) -> (r: bool)
        ensures
            r == (self@ == 0),
    {
        proof {
            lemma_pow2_pos(self.k as nat);
            let w = pow2(self.k as nat);
            assert(self.m as nat * w == 0 <==> self.m == 0) by (nonlinear_arith)
                requires
                    w > 0,
            ;
        }
        self.m == 0
    }

    /// Whether this is infinite.
    pub fn is_infinite(&self) -> (r: bool)
        requires
            self.wf(),
        ensures
            r == (self@ >= limit()),
    {
        proof {
            let w = pow2(self.k as nat);
            lemma_pow2_pos(self.k as nat);
            lemma2_to64_rest();
            if self.k >= 2046 {
                lemma_pow2_adds(52, self.k as nat);
                assert(self.m * w >= pow2(52) * w) by (nonlinear_arith)
                    requires
                        self.m >= pow2(52),
                ;
                if self.k > 2046 {
                    lemma_pow2_strictly_increases(2098, (52 + self.k) as nat);
                }
            } else {
                lemma_pow2_adds(53, self.k as nat);
                if self.m < 0x20_0000_0000_0000 {
                    assert(self.m * w < pow2(53) * w) by (nonlinear_arith)
                        requires
                            self.m < pow2(53),
                            w > 0,
                    ;
                }
                if self.k < 2045 {
                    lemma_pow2_strictly_increases((53 + self.k) as nat, 2098);
                    assert(self.m * w <= pow2(53) * w) by (nonlinear_arith)
                        requires
                            self.m <= pow2(53),
                    ;
                }
            }
        }
        self.k >= 2046 || (self.k == 2045 && self.m == 0x20_0000_0000_0000)
    }

    /// The nearest whole number to this times `f`, the even one of two, where it has no
    /// more than 128 bits.
    pub fn rounded(&self, f: u32) -> (r: Option<u128>)
        ensures
            match r {
                Some(n) => n == nearest(self@ * f as nat, one()),
                None => nearest(self@ * f as nat, one()) > u128::MAX,
            },
    {
        let mut n: Big = self.units();
        n.times(f, 0);
        let ghost p = n@;
        let (half, more): (bool, bool) = shift_down(&mut n, UNIT_BITS, Ghost(p));
        proof {
            lemma_split_nearest(p, one(), n@, half, more);
        }
        match n.low() {
            Some(m) => {
                if half && (more || m % 2 == 1) {
                    m.checked_add(1)
                } else {
                    Some(m)
                }
            },
            None => None,
        }
    }

    /// The nearest whole number to this, the greater one of two, where it has no more than
    /// 128 bits.
    pub fn rounded_up(&self) -> (r: Option<u128>)
        ensures
            match r {
                Some(n) => n == nearest_up(self@, one()),
                None => nearest_up(self@, one()) > u128::MAX,
            },
    {
        let mut n: Big = self.units();
        let ghost p = n@;
        let (half, more): (bool, bool) = shift_down(&mut n, UNIT_BITS, Ghost(p));
        proof {
            lemma_split_nearest(p, one(), n@, half, more);
        }
        match n.low() {
            Some(m) => {
                if half {
                    m.checked_add(1)
                } else {
                    Some(m)
                }
            },
            None => None,
        }
    }
}

/// Multiplies by two, `k` times.
fn shift_up(b: &mut Big, k: u128)
    ensures
        final(b)@ == old(b)@ * pow2(k as nat),
{
    let ghost v = b@;
    let mut i: u128 = 0;
    proof {
        lemma2_to64();
        assert(v * pow2(0) == v) by (nonlinear_arith)
            requires
                pow2(0) == 1,
        ;
    }
    while i < k
        invariant
            i <= k,
            b@ == v * pow2(i as nat),
        decreases k - i,
    {
        proof {
            lemma_pow2_unfold((i + 1) as nat);
            let w = pow2(i as nat);
            assert((v * w) * 2 == v * (2 * w)) by (nonlinear_arith);
        }
        b.times(2, 0);
        i = i + 1;
    }
}

/// Divides by two, `k` times. Says what is left over of a number that was whole.
fn shift_down(b: &mut Big, k: u128, Ghost(p): Ghost<nat>) -> (r: (bool, bool))
    requires
        old(b)@ == p,
    ensures
        split(p, pow2(k as nat), final(b)@, r.0, r.1),
{
    let mut half: bool = false;
    let mut more: bool = false;
    let mut i: u128 = 0;
    proof {
        lemma2_to64();
        lemma_split_whole(p);
    }
    while i < k
        invariant
            i <= k,
            split(p, pow2(i as nat), b@, half, more),
        decreases k - i,
    {
        proof {
            lemma_split_halved(p, pow2(i as nat), b@, half, more);
            lemma_pow2_unfold((i + 1) as nat);
        }
        let bit: u32 = b.divide(2);
        more = half || more;
        half = bit == 1;
        i = i + 1;
    }
    (half, more)
}

/// Multiplies by ten, `k` times.
fn tens_up(b: &mut Big, k: u128)
    ensures
        final(b)@ == old(b)@ * pow10(k as nat),
{
    let ghost v = b@;
    let mut i: u128 = 0;
    proof {
        assert(v * pow10(0) == v) by (nonlinear_arith)
            requires
                pow10(0) == 1,
        ;
    }
    while i < k
        invariant
            i <= k,
            b@ == v * pow10(i as nat),
        decreases k - i,
    {
        proof {
            let w = pow10(i as nat);
            assert(pow10((i + 1) as nat) == 10 * w);
            assert((v * w) * 10 == v * (10 * w)) by (nonlinear_arith);
        }
        b.times(10, 0);
        i = i + 1;
    }
}

/// Divides by ten, `k` times. Says whether anything is left over.
fn tens_down(b: &mut Big, k: u128) -> (rest: bool)
    ensures
        final(b)@ == old(b)@ / pow10(k as nat),
        rest == (old(b)@ % pow10(k as nat) != 0),
{
    let ghost v = b@;
    let mut rest: bool = false;
    let mut i: u128 = 0;
    proof {
        lemma_fundamental_div_mod_converse(v as int, 1, v as int, 0);
    }
    while i < k
        invariant
            i <= k,
            b@ == v / pow10(i as nat),
            rest == (v % pow10(i as nat) != 0),
        decreases k - i,
    {
        proof {
            let w = pow10(i as nat);
            lemma_pow10_pos(i as nat);
            assert(pow10((i + 1) as nat) == w * 10) by (nonlinear_arith)
                requires
                    pow10((i + 1) as nat) == 10 * w,
            ;
            lemma_div_denominator(v as int, w as int, 10);
            lemma_mod_breakdown(v as int, w as int, 10);
            vstd::arithmetic::div_mod::lemma_mod_bound(v as int, w as int);
            let t = (v / w) % 10;
            assert(w * t == 0 <==> t == 0) by (nonlinear_arith)
                requires
                    w >= 1,
                    t >= 0,
            ;
            assert(w * t >= 0) by (nonlinear_arith)
                requires
                    w >= 1,
                    t >= 0,
            ;
        }
        let digit: u32 = b.divide(10);
        rest = rest || digit != 0;
        i = i + 1;
    }
    rest
}

/// The whole number that digits denote.
fn whole(digits: &Vec<u8>) -> (b: Big)
    ensures
        b@ == digits_value(digits@),
{
    let mut b: Big = Big::new(0);
    let mut i: usize = 0;
    assert(digits@.take(0) == Seq::<u8>::empty());
    while i < digits.len()
        invariant
            i <= digits@.len(),
            b@ == digits_value(digits@.take(i as int)),
        decreases digits@.len() - i,
    {
        assert(digits@.take(i + 1).drop_last() == digits@.take(i as int));
        b.times(10, digits[i] as u32);
        i = i + 1;
    }
    assert(digits@.take(digits@.len() as int) == digits@);
    b
}

/// Nothing rounds to nothing.
pub proof fn lemma_fitted_zero(q: nat)
    requires
        q > 0,
    ensures
        fitted(0, q) == 0,
{
    lemma_fundamental_div_mod_converse(0, q as int, 0, 0);
    lemma2_to64();
    let w = q * pow2(0);
    assert(w == q) by (nonlinear_arith)
        requires
            w == q * pow2(0),
            pow2(0) == 1,
    ;
    assert(0 * pow2(0) == 0);
}

proof fn lemma_zero_value(d: Seq<u8>)
    requires
        all_zero(d),
    ensures
        digits_value(d) == 0,
    decreases d.len(),
{
    if d.len() > 0 {
        assert forall|i: int| 0 <= i < d.drop_last().len() implies (#[trigger] d.drop_last()[i])
            == 0 by {
            assert(d.drop_last()[i] == d[i]);
        }
        lemma_zero_value(d.drop_last());
    }
}

proof fn lemma_some_value(d: Seq<u8>)
    requires
        !all_zero(d),
    ensures
        digits_value(d) >= 1,
    decreases d.len(),
{
    if d.last() == 0 {
        let i = choose|i: int| 0 <= i < d.len() && (#[trigger] d[i]) != 0;
        assert(d.drop_last()[i] == d[i]);
        lemma_some_value(d.drop_last());
    }
}

proof fn lemma_value_bounds(d: Seq<u8>)
    requires
        forall|i: int| 0 <= i < d.len() ==> (#[trigger] d[i]) < 10,
    ensures
        digits_value(d) < pow10(d.len()),
    decreases d.len(),
{
    if d.len() > 0 {
        assert forall|i: int| 0 <= i < d.drop_last().len() implies (#[trigger] d.drop_last()[i])
            < 10 by {
            assert(d.drop_last()[i] == d[i]);
        }
        lemma_value_bounds(d.drop_last());
        assert(d[d.len() - 1] < 10);
    }
}

/// Ten is more than the third power of two.
proof fn lemma_tens_exceed(k: nat)
    ensures
        pow2(3 * k) <= pow10(k),
    decreases k,
{
    lemma2_to64();
    if k > 0 {
        lemma_tens_exceed((k - 1) as nat);
        lemma_pow2_adds(3, 3 * (k - 1) as nat);
        assert(pow2(3) == 8);
        assert(3 + 3 * (k - 1) == 3 * k);
        let a = pow2(3 * (k - 1) as nat);
        let b = pow10((k - 1) as nat);
        assert(8 * a <= 10 * b) by (nonlinear_arith)
            requires
                a <= b,
        ;
    }
}

/// A number with a great exponent is infinite.
proof fn lemma_far_above(v: nat, e: nat)
    requires
        v >= 1,
        e > 400,
    ensures
        fitted(v * pow10(e) * one(), 1) >= limit(),
{
    lemma_tens_exceed(400);
    lemma_pow10_add(400, (e - 400) as nat);
    lemma_pow10_pos((e - 400) as nat);
    let a = pow10(400);
    let b = pow10((e - 400) as nat);
    let w = one();
    lemma_pow2_pos(1074);
    let t = pow2(1200);
    let p = v * pow10(e) * w;
    assert(v * (a * b) >= a) by (nonlinear_arith)
        requires
            v >= 1,
            b >= 1,
            a >= 0,
    ;
    let x = v * pow10(e);
    assert(x * w >= t * w) by (nonlinear_arith)
        requires
            x >= t,
            w >= 0,
    ;
    lemma_pow2_adds(1200, 1074);
    lemma_fitted_low(p);
    lemma_pow2_adds(2098, 1);
    lemma2_to64();
    lemma_pow2_strictly_increases(2099, 2274);
}

/// A number with a great negative exponent is nothing.
proof fn lemma_far_below(v: nat, len: nat, j: nat)
    requires
        v < pow10(len),
        len + 400 < j,
    ensures
        fitted(v * one(), pow10(j)) == 0,
{
    let w = one();
    let q = pow10(j);
    let p = v * w;
    lemma_tens_exceed(358);
    lemma_pow10_add(len, (j - len) as nat);
    lemma_pow10_add(358, (j - len - 358) as nat);
    lemma_pow10_add(1, (j - len - 359) as nat);
    lemma_pow10_pos((j - len - 359) as nat);
    lemma_pow10_pos(358);
    let a = pow10(len);
    let b = pow10(358);
    let c = pow10((j - len - 358) as nat);
    assert(pow10(1) == 10 * pow10(0));
    assert(c >= 10);
    assert(2 * p < q) by (nonlinear_arith)
        requires
            p == v * w,
            v < a,
            w <= b,
            q == a * (b * c),
            c >= 10,
            b >= 1,
    ;
    lemma_fundamental_div_mod_converse(p as int, q as int, 0, p as int);
    lemma2_to64();
    let unit = pow2(0);
    assert(q * unit == q && 0 * unit == 0) by (nonlinear_arith)
        requires
            unit == 1,
    ;
}

/// A number of so many bits drops none of the bits below.
proof fn lemma_surplus_within(n: nat, j: nat)
    requires
        n < 0x20_0000_0000_0000 * pow2(j),
    ensures
        surplus(n) <= j,
    decreases j,
{
    if n >= 0x20_0000_0000_0000 {
        lemma2_to64();
        if j == 0 {
            assert(pow2(0) == 1);
        } else {
            lemma_pow2_unfold(j);
            let p = pow2((j - 1) as nat);
            assert(n / 2 < 0x20_0000_0000_0000 * p) by (nonlinear_arith)
                requires
                    n < 0x20_0000_0000_0000 * (2 * p),
            ;
            lemma_surplus_within(n / 2, (j - 1) as nat);
        }
    }
}

/// A whole number is zero as a double just where it is zero, and one of no more than 53
/// bits is itself.
pub proof fn lemma_whole_is_kept(n: nat)
    ensures
        fitted(n * one(), 1) == 0 <==> n == 0,
        n < 0x20_0000_0000_0000 ==> fitted(n * one(), 1) == n * one(),
{
    let p = n * one();
    let k = surplus(p / 1);
    lemma_pow2_pos(1074);
    assert(p / 1 == p);
    lemma_pow2_pos(k);
    let q = 1 * pow2(k);
    if n == 0 {
        assert(p == 0) by (nonlinear_arith)
            requires
                p == n * one(),
                n == 0,
        ;
        lemma_fitted_zero(1);
    } else {
        assert(p >= one()) by (nonlinear_arith)
            requires
                p == n * one(),
                n >= 1,
        ;
        lemma_surplus_least(p);
        assert(p / q >= 1) by {
            vstd::arithmetic::div_mod::lemma_div_is_ordered(q as int, p as int, q as int);
            vstd::arithmetic::div_mod::lemma_div_by_self(q as int);
        }
        let m = nearest(p, q);
        assert(m >= 1);
        assert(m * pow2(k) >= 1) by (nonlinear_arith)
            requires
                m >= 1,
                pow2(k) >= 1,
        ;
        if n < 0x20_0000_0000_0000 {
            assert(p < 0x20_0000_0000_0000 * pow2(1074)) by (nonlinear_arith)
                requires
                    p == n * one(),
                    one() == pow2(1074),
                    n < 0x20_0000_0000_0000,
                    pow2(1074) > 0,
            ;
            lemma_surplus_within(p, 1074);
            lemma_pow2_adds(k, (1074 - k) as nat);
            let h = n * pow2((1074 - k) as nat);
            assert(p == h * q + 0) by (nonlinear_arith)
                requires
                    p == n * one(),
                    one() == pow2(k) * pow2((1074 - k) as nat),
                    h == n * pow2((1074 - k) as nat),
                    q == 1 * pow2(k),
            ;
            lemma_fundamental_div_mod_converse(p as int, q as int, h as int, 0);
            assert(nearest(p, q) == h);
        }
    }
}

/// What is left of a number once its surplus is dropped is no nothing.
proof fn lemma_surplus_least(n: nat)
    requires
        n >= 1,
    ensures
        pow2(surplus(n)) <= n,
    decreases n,
{
    lemma2_to64();
    if n >= 0x20_0000_0000_0000 {
        lemma_surplus_least(n / 2);
        lemma_pow2_unfold(surplus(n));
    }
}

} // verus!

//! Whole numbers of any size.

use vstd::prelude::*;

verus! {

/// What a limb counts up to.
pub open spec fn base() -> nat {
    0x1_0000_0000
}

/// The number that limbs denote, the least significant first.
pub open spec fn value_of(limbs: Seq<u32>) -> nat
    decreases limbs.len(),
{
    if limbs.len() == 0 {
        0
    } else {
        limbs[0] as nat + base() * value_of(limbs.skip(1))
    }
}

/// The base to the power `k`.
pub open spec fn base_pow(k: nat) -> nat
    decreases k,
{
    if k == 0 {
        1
    } else {
        base() * base_pow((k - 1) as nat)
    }
}

/// A limb on top adds its multiple of the power.
proof fn lemma_push(limbs: Seq<u32>, x: u32)
    ensures
        value_of(limbs.push(x)) == value_of(limbs) + x * base_pow(limbs.len()),
    decreases limbs.len(),
{
    let all = limbs.push(x);
    assert(value_of(all) == all[0] as nat + base() * value_of(all.skip(1)));
    if limbs.len() == 0 {
        assert(all.skip(1) == Seq::<u32>::empty());
        assert(value_of(all.skip(1)) == 0);
        assert(x * base_pow(0) == x) by (nonlinear_arith)
            requires
                base_pow(0) == 1,
        ;
    } else {
        let rest = limbs.skip(1);
        lemma_push(rest, x);
        assert(all.skip(1) == rest.push(x));
        assert(all[0] == limbs[0]);
        assert(base_pow(limbs.len()) == base() * base_pow(rest.len()));
        let p = base_pow(rest.len());
        let v = value_of(rest);
        assert(base() * (v + x * p) == base() * v + x * (base() * p)) by (nonlinear_arith);
    }
}

/// The first limbs, and the others at their power.
proof fn lemma_parts(limbs: Seq<u32>, k: int)
    requires
        0 <= k <= limbs.len(),
    ensures
        value_of(limbs) == value_of(limbs.take(k)) + base_pow(k as nat) * value_of(limbs.skip(k)),
    decreases k,
{
    if k == 0 {
        assert(limbs.take(0) == Seq::<u32>::empty());
        assert(limbs.skip(0) == limbs);
        assert(base_pow(0) * value_of(limbs) == value_of(limbs)) by (nonlinear_arith)
            requires
                base_pow(0) == 1,
        ;
    } else {
        let rest = limbs.skip(1);
        lemma_parts(rest, k - 1);
        assert(rest.take(k - 1) == limbs.take(k).skip(1));
        assert(rest.skip(k - 1) == limbs.skip(k));
        let a = value_of(rest.take(k - 1));
        let p = base_pow((k - 1) as nat);
        let b = value_of(limbs.skip(k));
        assert(base() * (a + p * b) == base() * a + (base() * p) * b) by (nonlinear_arith);
    }
}

/// Limbs that are all zero denote zero.
proof fn lemma_zeros(limbs: Seq<u32>)
    requires
        forall|i: int| 0 <= i < limbs.len() ==> (#[trigger] limbs[i]) == 0,
    ensures
        value_of(limbs) == 0,
    decreases limbs.len(),
{
    if limbs.len() > 0 {
        assert forall|i: int| 0 <= i < limbs.skip(1).len() implies (#[trigger] limbs.skip(1)[i])
            == 0 by {
            assert(limbs.skip(1)[i] == limbs[i + 1]);
        }
        lemma_zeros(limbs.skip(1));
    }
}

/// Limbs of which one is not zero denote a number from its power on.
proof fn lemma_some(limbs: Seq<u32>, i: int)
    requires
        0 <= i < limbs.len(),
        limbs[i] != 0,
    ensures
        value_of(limbs) >= base_pow(i as nat),
{
    lemma_parts(limbs, i);
    let rest = limbs.skip(i);
    assert(rest[0] == limbs[i]);
    assert(value_of(rest) >= 1);
    let p = base_pow(i as nat);
    let v = value_of(rest);
    assert(p * v >= p) by (nonlinear_arith)
        requires
            v >= 1,
            p >= 0,
    ;
}

/// So many limbs denote a number below their power.
pub proof fn lemma_bound(limbs: Seq<u32>)
    ensures
        value_of(limbs) < base_pow(limbs.len()),
    decreases limbs.len(),
{
    if limbs.len() > 0 {
        lemma_bound(limbs.skip(1));
        let v = value_of(limbs.skip(1));
        let p = base_pow((limbs.len() - 1) as nat);
        assert(limbs[0] as nat + base() * v < base() * p) by (nonlinear_arith)
            requires
                v + 1 <= p,
                limbs[0] < base(),
                base() == 0x1_0000_0000,
        ;
    }
}

/// A whole number.
pub struct Big {
    limbs: Vec<u32>,
}

impl View for Big {
    type V = nat;

    closed spec fn view(&self) -> nat {
        value_of(self.limbs@)
    }
}

impl Big {
    /// How many limbs there are.
    pub closed spec fn spec_len(self) -> nat {
        self.limbs@.len()
    }

    /// How many limbs there are. The number is below their power.
    pub fn len(&self) -> (n: usize)
        ensures
            n == self.spec_len(),
            self@ < base_pow(n as nat),
    {
        proof {
            lemma_bound(self.limbs@);
        }
        self.limbs.len()
    }

    /// A number of 64 bits.
    pub fn new(n: u64) -> (b: Self)
        ensures
            b@ == n,
    {
        let low: u32 = (n % 0x1_0000_0000) as u32;
        let high: u32 = (n / 0x1_0000_0000) as u32;
        let mut limbs: Vec<u32> = Vec::new();
        limbs.push(low);
        limbs.push(high);
        assert(limbs@.skip(1).skip(1) == Seq::<u32>::empty());
        assert(limbs@.skip(1)[0] == high);
        assert(value_of(limbs@.skip(1)) == high) by {
            assert(value_of(limbs@.skip(1).skip(1)) == 0);
        }
        Big { limbs }
    }

    /// Multiplies by `f`, and adds `more`.
    pub fn times(&mut self, f: u32, more: u32)
        ensures
            final(self)@ == old(self)@ * f + more,
    {
        let ghost all = self.limbs@;
        let n: usize = self.limbs.len();
        let mut out: Vec<u32> = Vec::new();
        let mut carry: u64 = more as u64;
        let mut i: usize = 0;
        proof {
            assert(all.take(0) == Seq::<u32>::empty());
            assert(0 * f == 0);
            assert(carry * base_pow(0) == carry) by (nonlinear_arith)
                requires
                    base_pow(0) == 1,
            ;
        }
        while i < n
            invariant
                i <= n == all.len(),
                self.limbs@ == all,
                out@.len() == i,
                carry < 0x1_0000_0000,
                value_of(all.take(i as int)) * f + more == value_of(out@) + carry * base_pow(
                    i as nat,
                ),
            decreases n - i,
        {
            let x: u32 = self.limbs[i];
            assert(x * f <= 0xffff_ffff * 0xffff_ffff) by (nonlinear_arith)
                requires
                    x <= 0xffff_ffff,
                    f <= 0xffff_ffff,
            ;
            let sum: u64 = x as u64 * f as u64 + carry;
            let low: u32 = (sum % 0x1_0000_0000) as u32;
            let high: u64 = sum / 0x1_0000_0000;
            proof {
                let p = base_pow(i as nat);
                let v = value_of(all.take(i as int));
                let o = value_of(out@);
                assert(all.take(i + 1) == all.take(i as int).push(x));
                lemma_push(all.take(i as int), x);
                lemma_push(out@, low);
                assert(base_pow((i + 1) as nat) == base() * p);
                assert(sum == high * 0x1_0000_0000 + low);
                assert((v + x * p) * f + more == (o + low * p) + high * (base() * p))
                    by (nonlinear_arith)
                    requires
                        v * f + more == o + carry * p,
                        x * f + carry == high * base() + low,
                ;
            }
            out.push(low);
            carry = high;
            i = i + 1;
        }
        proof {
            assert(all.take(n as int) == all);
            lemma_push(out@, carry as u32);
        }
        if carry > 0 {
            out.push(carry as u32);
        } else {
            assert(carry * base_pow(n as nat) == 0) by (nonlinear_arith)
                requires
                    carry == 0,
            ;
        }
        self.limbs = out;
    }

    /// Divides by `d`. Returns the remainder.
    pub fn divide(&mut self, d: u32) -> (r: u32)
        requires
            d > 0,
        ensures
            final(self)@ == old(self)@ / d as nat,
            r == old(self)@ % d as nat,
            final(self).spec_len() == old(self).spec_len(),
    {
        let ghost all = self.limbs@;
        let n: usize = self.limbs.len();
        let mut rest: u64 = 0;
        let mut i: usize = n;
        assert(all.skip(n as int) == Seq::<u32>::empty());
        assert(value_of(all.skip(n as int)) == 0);
        while i > 0
            invariant
                i <= n == all.len(),
                self.limbs@.len() == n,
                d > 0,
                rest < d,
                forall|j: int| 0 <= j < i ==> (#[trigger] self.limbs@[j]) == all[j],
                value_of(all.skip(i as int)) == d * value_of(self.limbs@.skip(i as int)) + rest,
            decreases i,
        {
            let ghost cur = self.limbs@;
            let k: usize = i - 1;
            let x: u32 = self.limbs[k];
            assert(x == all[k as int]);
            assert(rest * 0x1_0000_0000 + x <= u64::MAX) by (nonlinear_arith)
                requires
                    rest < d,
                    d <= 0xffff_ffff,
                    x <= 0xffff_ffff,
            ;
            let sum: u64 = rest * 0x1_0000_0000 + x as u64;
            let part: u64 = sum / d as u64;
            assert(part <= 0xffff_ffff && sum == part * d + sum % d as u64) by (nonlinear_arith)
                requires
                    rest + 1 <= d,
                    sum == rest * 0x1_0000_0000 + x,
                    x <= 0xffff_ffff,
                    part == sum / d as u64,
                    d > 0,
            ;
            let ghost held = rest;
            rest = sum % d as u64;
            self.limbs.set(k, part as u32);
            proof {
                let now = self.limbs@;
                assert(all.skip(k as int).skip(1) == all.skip(i as int));
                assert(now.skip(k as int).skip(1) == cur.skip(i as int));
                assert(all.skip(k as int)[0] == x);
                assert(now.skip(k as int)[0] == part as u32);
                let hi = value_of(cur.skip(i as int));
                let top = value_of(all.skip(i as int));
                assert(x + base() * top == d * (part + base() * hi) + rest) by (nonlinear_arith)
                    requires
                        top == d * hi + held,
                        held * base() + x == part * d + rest,
                ;
            }
            i = k;
        }
        assert(all.skip(0) == all);
        assert(self.limbs@.skip(0) == self.limbs@);
        proof {
            let q = value_of(self.limbs@);
            assert(d * q == q * d) by (nonlinear_arith);
            vstd::arithmetic::div_mod::lemma_fundamental_div_mod_converse(
                value_of(all) as int,
                d as int,
                q as int,
                rest as int,
            );
        }
        rest as u32
    }

    /// The sum with another number.
    pub fn plus(&self, other: &Big) -> (r: Big)
        ensures
            r@ == self@ + other@,
    {
        let ghost a = self.limbs@;
        let ghost b = other.limbs@;
        let x: usize = self.limbs.len();
        let y: usize = other.limbs.len();
        let n: usize = if x < y {
            y
        } else {
            x
        };
        let ghost wa = a + Seq::new((n - x) as nat, |i: int| 0u32);
        let ghost wb = b + Seq::new((n - y) as nat, |i: int| 0u32);
        let mut out: Vec<u32> = Vec::new();
        let mut carry: u64 = 0;
        let mut i: usize = 0;
        proof {
            lemma_padded(a, (n - x) as nat);
            lemma_padded(b, (n - y) as nat);
            assert(wa.take(0) == Seq::<u32>::empty());
            assert(wb.take(0) == Seq::<u32>::empty());
            assert(0 * base_pow(0) == 0);
        }
        while i < n
            invariant
                i <= n,
                a == self.limbs@,
                b == other.limbs@,
                x == a.len(),
                y == b.len(),
                x <= n,
                y <= n,
                wa == a + Seq::new((n - x) as nat, |i: int| 0u32),
                wb == b + Seq::new((n - y) as nat, |i: int| 0u32),
                out@.len() == i,
                carry <= 1,
                value_of(wa.take(i as int)) + value_of(wb.take(i as int)) == value_of(out@)
                    + carry * base_pow(i as nat),
            decreases n - i,
        {
            let p: u32 = if i < x {
                self.limbs[i]
            } else {
                0
            };
            let q: u32 = if i < y {
                other.limbs[i]
            } else {
                0
            };
            assert(p == wa[i as int] && q == wb[i as int]);
            let sum: u64 = p as u64 + q as u64 + carry;
            let low: u32 = (sum % 0x1_0000_0000) as u32;
            let high: u64 = sum / 0x1_0000_0000;
            proof {
                let w = base_pow(i as nat);
                let va = value_of(wa.take(i as int));
                let vb = value_of(wb.take(i as int));
                let o = value_of(out@);
                assert(wa.take(i + 1) == wa.take(i as int).push(p));
                assert(wb.take(i + 1) == wb.take(i as int).push(q));
                lemma_push(wa.take(i as int), p);
                lemma_push(wb.take(i as int), q);
                lemma_push(out@, low);
                assert(base_pow((i + 1) as nat) == base() * w);
                assert((va + p * w) + (vb + q * w) == (o + low * w) + high * (base() * w))
                    by (nonlinear_arith)
                    requires
                        va + vb == o + carry * w,
                        p + q + carry == high * base() + low,
                ;
            }
            out.push(low);
            carry = high;
            i = i + 1;
        }
        proof {
            assert(wa.take(n as int) == wa);
            assert(wb.take(n as int) == wb);
            lemma_push(out@, carry as u32);
        }
        if carry > 0 {
            out.push(carry as u32);
        } else {
            assert(carry * base_pow(n as nat) == 0) by (nonlinear_arith)
                requires
                    carry == 0,
            ;
        }
        Big { limbs: out }
    }

    /// The number, where it has no more than 128 bits.
    pub fn low(&self) -> (r: Option<u128>)
        ensures
            match r {
                Some(n) => n == self@,
                None => self@ > u128::MAX,
            },
    {
        let ghost all = self.limbs@;
        let n: usize = self.limbs.len();
        let mut i: usize = n;
        while i > 4
            invariant
                i <= n == all.len(),
                self.limbs@ == all,
                i >= 4 || i == n,
                forall|j: int| i <= j < n ==> (#[trigger] all[j]) == 0,
            decreases i,
        {
            if self.limbs[i - 1] != 0 {
                proof {
                    lemma_some(all, i - 1);
                    lemma_pow_grows(4, (i - 1) as nat);
                    reveal_with_fuel(base_pow, 5);
                }
                return None;
            }
            i = i - 1;
        }
        let top: usize = i;
        let ghost head = all.take(top as int);
        proof {
            lemma_parts(all, top as int);
            assert forall|j: int| 0 <= j < all.skip(top as int).len() implies (#[trigger] all.skip(
                top as int,
            )[j]) == 0 by {
                assert(all.skip(top as int)[j] == all[top + j]);
            }
            lemma_zeros(all.skip(top as int));
            assert(base_pow(top as nat) * 0 == 0);
            lemma_bound(head);
            lemma_pow_grows(top as nat, 4);
            reveal_with_fuel(base_pow, 5);
            assert(head.skip(top as int) == Seq::<u32>::empty());
        }
        let mut v: u128 = 0;
        while i > 0
            invariant
                i <= top <= 4,
                top <= n == all.len(),
                self.limbs@ == all,
                head == all.take(top as int),
                v == value_of(head.skip(i as int)),
                value_of(head) <= u128::MAX,
            decreases i,
        {
            proof {
                assert(head.skip(i - 1)[0] == all[i - 1]);
                assert(head.skip(i - 1).skip(1) == head.skip(i as int));
                lemma_parts(head, i - 1);
                lemma_pow_grows(0, (i - 1) as nat);
                let p = base_pow((i - 1) as nat);
                let w = value_of(head.skip(i - 1));
                assert(p * w >= w) by (nonlinear_arith)
                    requires
                        p >= 1,
                        w >= 0,
                ;
            }
            v = v * 0x1_0000_0000 + self.limbs[i - 1] as u128;
            i = i - 1;
        }
        assert(head.skip(0) == head);
        Some(v)
    }
}

/// The power grows.
pub proof fn lemma_pow_grows(a: nat, b: nat)
    requires
        a <= b,
    ensures
        1 <= base_pow(a) <= base_pow(b),
    decreases b,
{
    if b > 0 {
        if a < b {
            lemma_pow_grows(a, (b - 1) as nat);
        } else {
            lemma_pow_grows((b - 1) as nat, (b - 1) as nat);
        }
    }
}

/// Zeros on top change nothing.
proof fn lemma_padded(limbs: Seq<u32>, k: nat)
    ensures
        value_of(limbs + Seq::new(k, |i: int| 0u32)) == value_of(limbs),
{
    let zeros = Seq::new(k, |i: int| 0u32);
    let all = limbs + zeros;
    lemma_parts(all, limbs.len() as int);
    assert(all.take(limbs.len() as int) == limbs);
    assert(all.skip(limbs.len() as int) == zeros);
    lemma_zeros(zeros);
    assert(base_pow(limbs.len()) * 0 == 0);
}

} // verus!

//! A span of time with nanosecond resolution.

use vstd::prelude::*;

verus! {

/// Nanoseconds in one second.
pub const NANOS_PER_SEC: u32 = 1_000_000_000;

/// A span of time: whole seconds and a fraction below one second.
///
/// Its view is its length in nanoseconds.
#[derive(Debug, Clone, Copy, PartialEq, Eq, PartialOrd, Ord, Hash, Structural)]
pub struct Duration {
    secs: u64,
    nanos: u32,
}

/// The longest representable span, in nanoseconds.
pub open spec fn max_nanos() -> nat {
    (u64::MAX as nat) * 1_000_000_000 + 999_999_999
}

/// The lesser of two naturals.
pub open spec fn min_nat(a: nat, b: nat) -> nat {
    if a <= b {
        a
    } else {
        b
    }
}

/// The greater of two naturals.
pub open spec fn max_nat(a: nat, b: nat) -> nat {
    if a <= b {
        b
    } else {
        a
    }
}

/// How std prints a span of so many nanoseconds for debugging.
pub uninterp spec fn printed_span(nanos: nat) -> Seq<char>;

impl View for Duration {
    type V = nat;

    closed spec fn view(&self) -> nat {
        self.secs as nat * 1_000_000_000 + self.nanos as nat
    }
}

impl Duration {
    #[verifier::type_invariant]
    spec fn wf(self) -> bool {
        self.nanos < 1_000_000_000
    }

    /// The `Debug` form of `std::time::Duration`, such as `60s` or `1.5s`.
    #[verifier::external_body]
    pub(crate) fn debug_text(&self) -> (text: String)
        ensures
            text@ == printed_span(self@),
    {
        format!("{:?}", std::time::Duration::new(self.secs, self.nanos))
    }

    /// A span of `nanos` nanoseconds.
    pub fn from_total_nanos(nanos: u128) -> (d: Duration)
        requires
            nanos <= max_nanos(),
        ensures
            d@ == nanos,
    {
        Duration { secs: (nanos / 1_000_000_000) as u64, nanos: (nanos % 1_000_000_000) as u32 }
    }

    /// The length in nanoseconds.
    pub fn as_nanos(&self) -> (n: u128)
        ensures
            n == self@,
            n <= max_nanos(),
    {
        proof {
            use_type_invariant(self);
        }
        self.secs as u128 * 1_000_000_000 + self.nanos as u128
    }

    /// The length in whole milliseconds.
    pub fn as_millis(&self) -> (n: u128)
        ensures
            n == self@ / 1_000_000,
    {
        self.as_nanos() / 1_000_000
    }

    /// A span of `secs` seconds.
    pub fn from_secs(secs: u64) -> (d: Duration)
        ensures
            d@ == secs * 1_000_000_000,
    {
        Duration { secs, nanos: 0 }
    }

    /// A span of `millis` milliseconds.
    pub fn from_millis(millis: u64) -> (d: Duration)
        ensures
            d@ == millis * 1_000_000,
    {
        Duration::from_total_nanos(millis as u128 * 1_000_000)
    }

    /// The empty span.
    pub fn zero() -> (d: Duration)
        ensures
            d@ == 0,
    {
        Duration { secs: 0, nanos: 0 }
    }

    /// Whether `self` is shorter than `other`.
    pub fn shorter_than(&self, other: &Duration) -> (r: bool)
        ensures
            r == (self@ < other@),
    {
        self.as_nanos() < other.as_nanos()
    }

    /// The shorter of the two.
    pub fn min(self, other: Duration) -> (r: Duration)
        ensures
            r@ == min_nat(self@, other@),
            r == self || r == other,
    {
        if other.shorter_than(&self) {
            other
        } else {
            self
        }
    }

    /// The longer of the two.
    pub fn max(self, other: Duration) -> (r: Duration)
        ensures
            r@ == max_nat(self@, other@),
            r == self || r == other,
    {
        if other.shorter_than(&self) {
            self
        } else {
            other
        }
    }

    /// `factor` times this span, or the longest span where that is too long.
    pub fn saturating_mul(self, factor: u32) -> (r: Duration)
        ensures
            r@ == min_nat(self@ * factor as nat, max_nanos()),
    {
        let n: u128 = self.as_nanos();
        let limit: u128 = 18_446_744_073_709_551_615u128 * 1_000_000_000 + 999_999_999;
        assert(n * factor <= u128::MAX) by (nonlinear_arith)
            requires
                n <= 18_446_744_073_709_551_615u128 * 1_000_000_000 + 999_999_999,
                factor <= 4_294_967_295,
        ;
        let product: u128 = n * factor as u128;
        if product < limit {
            Duration::from_total_nanos(product)
        } else {
            Duration::from_total_nanos(limit)
        }
    }

    /// The sum of two spans, or the longest span where that is too long.
    pub fn saturating_add(self, other: Duration) -> (r: Duration)
        ensures
            r@ == min_nat(self@ + other@, max_nanos()),
    {
        let limit: u128 = 18_446_744_073_709_551_615u128 * 1_000_000_000 + 999_999_999;
        let sum: u128 = self.as_nanos() + other.as_nanos();
        if sum < limit {
            Duration::from_total_nanos(sum)
        } else {
            Duration::from_total_nanos(limit)
        }
    }

    /// What is left of this span once `other` has passed; empty where nothing is.
    pub fn saturating_sub(self, other: Duration) -> (r: Duration)
        ensures
            r@ == if self@ <= other@ { 0 } else { (self@ - other@) as nat },
    {
        let a: u128 = self.as_nanos();
        let b: u128 = other.as_nanos();
        if a <= b {
            Duration::zero()
        } else {
            Duration::from_total_nanos(a - b)
        }
    }
}

/// Spans are measured in nanoseconds: seconds, milliseconds and what is read back of them
/// agree.
pub proof fn law_spans_agree_on_their_length(n: u64, secs: Duration, millis: Duration, back: u128)
    requires
        call_ensures(Duration::from_secs, (n,), secs),
        call_ensures(Duration::from_millis, (n,), millis),
        call_ensures(Duration::as_millis, (&millis,), back),
    ensures
        back == n,
        secs@ == 1000 * millis@,
        millis@ == n * 1_000_000,
{
    assert(n * 1_000_000 / 1_000_000 == n) by (nonlinear_arith);
}

/// Sums, products and differences of spans are those of their lengths, as far as a span
/// can hold them: a sum is never shorter than its parts, a product with one is the span,
/// and what is left of a span, with what passed, is the span.
pub proof fn law_spans_are_reckoned_with(
    a: Duration,
    b: Duration,
    k: u32,
    sum: Duration,
    product: Duration,
    left: Duration,
    short: Duration,
    long: Duration,
)
    requires
        call_ensures(Duration::saturating_add, (a, b), sum),
        call_ensures(Duration::saturating_mul, (a, k), product),
        call_ensures(Duration::saturating_sub, (a, b), left),
        call_ensures(Duration::min, (a, b), short),
        call_ensures(Duration::max, (a, b), long),
    ensures
        a@ + b@ <= 18_446_744_073_709_551_615_999_999_999 ==> sum@ == a@ + b@,
        a@ + b@ > 18_446_744_073_709_551_615_999_999_999 ==> sum@
            == 18_446_744_073_709_551_615_999_999_999,
        a@ * k <= 18_446_744_073_709_551_615_999_999_999 ==> product@ == a@ * k,
        a@ * k > 18_446_744_073_709_551_615_999_999_999 ==> product@
            == 18_446_744_073_709_551_615_999_999_999,
        b@ <= a@ ==> left@ + b@ == a@,
        a@ <= b@ ==> left@ == 0,
        short@ <= a@ && short@ <= b@ && (short == a || short == b),
        long@ >= a@ && long@ >= b@ && (long == a || long == b),
{
}


} // verus!

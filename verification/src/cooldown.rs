//! Provider-advised cooldowns, learned from the rate-limit headers of responses.

use vstd::prelude::*;

use crate::decimal::{
    digit, digit_run, digits_of, digits_value, is_digit, lemma_digit_run, numeral_of,
    read_numeral, unsigned_part, Decimal, Numeral, NumeralView,
};
use crate::double::{double_of, fitted, limit, nearest, one, Double};
use crate::duration::{max_nanos, max_nat, min_nat, Duration};
use crate::text::{chars_of, str_eq, trim, trim_bounds};

verus! {

/// The longest cooldown that a single response can ask for, in seconds: a malformed
/// or hostile header must not strand a worker.
pub const MAX_COOLDOWN_SECS: u64 = 120;

/// The longest cooldown in nanoseconds.
pub open spec fn max_cooldown_nanos() -> nat {
    120_000_000_000
}

/// How a unit counts in seconds: a factor and a divisor.
pub open spec fn unit_of(unit: Seq<char>) -> Option<(nat, nat)> {
    if unit == "h"@ {
        Some((3600, 1))
    } else if unit == "m"@ {
        Some((60, 1))
    } else if unit == "s"@ {
        Some((1, 1))
    } else if unit == "ms"@ {
        Some((1, 1000))
    } else {
        None
    }
}

/// An ASCII letter.
pub open spec fn is_letter(c: char) -> bool {
    ('a' <= c && c <= 'z') || ('A' <= c && c <= 'Z')
}

fn letter(c: char) -> (r: bool)
    ensures
        r == is_letter(c),
{
    ('a' <= c && c <= 'z') || ('A' <= c && c <= 'Z')
}

/// A character of a number: a digit or a point.
pub open spec fn is_numeric(c: char) -> bool {
    is_digit(c) || c == '.'
}

/// The length of the run of numeric characters at the start of `s`.
pub open spec fn numeric_run(s: Seq<char>) -> nat
    decreases s.len(),
{
    if s.len() > 0 && is_numeric(s[0]) {
        1 + numeric_run(s.skip(1))
    } else {
        0
    }
}

/// The length of the run of letters at the start of `s`.
pub open spec fn letter_run(s: Seq<char>) -> nat
    decreases s.len(),
{
    if s.len() > 0 && is_letter(s[0]) {
        1 + letter_run(s.skip(1))
    } else {
        0
    }
}

/// The seconds of one segment, a number and a unit, as a double.
pub open spec fn segment_seconds(number: Seq<char>, unit: Seq<char>) -> Option<nat> {
    match (numeral_of(number), unit_of(unit)) {
        (NumeralView::Finite(_, digits, exponent), Some((factor, divisor))) => Some(
            fitted(double_of(digits, exponent) * factor, divisor),
        ),
        _ => None,
    }
}

/// `sum` with the segments of `s` added one by one, in seconds as doubles, and whether
/// there is any. A number at the end with no unit behind it does not count.
pub open spec fn segments(s: Seq<char>, sum: nat, any: bool) -> Option<(nat, bool)>
    decreases s.len(),
    via segments_shrink
{
    let n = numeric_run(s);
    let number = s.take(n as int);
    let rest = s.skip(n as int);
    let k = letter_run(rest);
    let unit = rest.take(k as int);
    if rest.len() == 0 {
        Some((sum, any))
    } else {
        match segment_seconds(number, unit) {
            Some(f) => if k == 0 {
                None
            } else {
                segments(rest.skip(k as int), fitted(sum + f, 1), true)
            },
            None => None,
        }
    }
}

#[via_fn]
proof fn segments_shrink(s: Seq<char>, sum: nat, any: bool) {
    lemma_numeric_run(s);
    lemma_letter_run(s.skip(numeric_run(s) as int));
}

/// The nanoseconds that a reset value asks for: a bare number of seconds, which is finite
/// as a double, or a run of segments in hours, minutes, seconds and milliseconds. A span
/// too long to represent counts as the longest one.
pub open spec fn reset_nanos(value: Seq<char>) -> Option<nat> {
    let s = trim(value);
    let seconds = if s.len() == 0 {
        None
    } else {
        match numeral_of(s) {
            NumeralView::Finite(negative, digits, exponent) => {
                let n = double_of(digits, exponent);
                if n >= limit() || (negative && n > 0) {
                    None
                } else {
                    Some(n)
                }
            },
            NumeralView::Nan => None,
            NumeralView::Infinite(_) => None,
            NumeralView::Invalid => match segments(s, 0, false) {
                Some((n, any)) => if any {
                    Some(n)
                } else {
                    None
                },
                None => None,
            },
        }
    };
    match seconds {
        Some(n) => Some(min_nat(nearest(n * 1_000_000_000, one()), max_nanos())),
        None => None,
    }
}

proof fn lemma_numeric_run(s: Seq<char>)
    ensures
        numeric_run(s) <= s.len(),
        forall|i: int| 0 <= i < numeric_run(s) ==> is_numeric(#[trigger] s[i]),
    decreases s.len(),
{
    if s.len() > 0 && is_numeric(s[0]) {
        lemma_numeric_run(s.skip(1));
        assert forall|i: int| 0 <= i < numeric_run(s) implies is_numeric(#[trigger] s[i]) by {
            if i > 0 {
                assert(s.skip(1)[i - 1] == s[i]);
            }
        }
    }
}

/// A number without an exponent part has no positive one.
proof fn lemma_no_exponent(s: Seq<char>)
    requires
        forall|i: int| 0 <= i < s.len() ==> is_numeric(#[trigger] s[i]),
    ensures
        numeral_of(s) matches NumeralView::Finite(_, _, e) ==> e <= 0,
{
    assert(unsigned_part(s) == s);
    let whole = digit_run(s);
    lemma_digit_run(s);
    let rest = s.skip(whole as int);
    if rest.len() > 0 {
        assert(rest[0] == s[whole as int]);
        if rest[0] == '.' {
            let frac = digit_run(rest.skip(1));
            lemma_digit_run(rest.skip(1));
            let tail = rest.skip(1 + frac as int);
            if tail.len() > 0 {
                assert(tail[0] == s[whole as int + 1 + frac as int]);
            }
        }
    }
}

proof fn lemma_letter_run(s: Seq<char>)
    ensures
        letter_run(s) <= s.len(),
    decreases s.len(),
{
    if s.len() > 0 && is_letter(s[0]) {
        lemma_letter_run(s.skip(1));
    }
}

fn run_numeric(s: &[char], from: usize) -> (end: usize)
    requires
        from <= s@.len(),
    ensures
        from <= end <= s@.len(),
        end - from == numeric_run(s@.skip(from as int)),
{
    let mut i: usize = from;
    while i < s.len() && (digit(s[i]) || s[i] == '.')
        invariant
            from <= i <= s@.len(),
            numeric_run(s@.skip(from as int)) == (i - from) + numeric_run(s@.skip(i as int)),
        decreases s@.len() - i,
    {
        assert(s@.skip(i as int)[0] == s@[i as int]);
        assert(s@.skip(i as int).skip(1) == s@.skip(i + 1));
        i = i + 1;
    }
    proof {
        if i < s@.len() {
            assert(s@.skip(i as int)[0] == s@[i as int]);
        }
    }
    i
}

fn run_letters(s: &[char], from: usize) -> (end: usize)
    requires
        from <= s@.len(),
    ensures
        from <= end <= s@.len(),
        end - from == letter_run(s@.skip(from as int)),
{
    let mut i: usize = from;
    while i < s.len() && letter(s[i])
        invariant
            from <= i <= s@.len(),
            letter_run(s@.skip(from as int)) == (i - from) + letter_run(s@.skip(i as int)),
        decreases s@.len() - i,
    {
        assert(s@.skip(i as int)[0] == s@[i as int]);
        assert(s@.skip(i as int).skip(1) == s@.skip(i + 1));
        i = i + 1;
    }
    proof {
        if i < s@.len() {
            assert(s@.skip(i as int)[0] == s@[i as int]);
        }
    }
    i
}

/// A copy of `s[from..to]`.
fn part(s: &[char], from: usize, to: usize) -> (r: Vec<char>)
    requires
        from <= to <= s@.len(),
    ensures
        r@ == s@.subrange(from as int, to as int),
{
    let mut out: Vec<char> = Vec::new();
    let mut i: usize = from;
    while i < to
        invariant
            from <= i <= to <= s@.len(),
            out@ == s@.subrange(from as int, i as int),
        decreases to - i,
    {
        out.push(s[i]);
        i = i + 1;
        assert(s@.subrange(from as int, i as int) == s@.subrange(from as int, i - 1).push(s@[i - 1]));
    }
    out
}

fn read_unit(unit: &Vec<char>) -> (r: Option<(u32, u32)>)
    ensures
        match r {
            Some((factor, divisor)) => unit_of(unit@) == Some((factor as nat, divisor as nat))
                && divisor > 0 && (divisor > 1 ==> factor == 1),
            None => unit_of(unit@) is None,
        },
{
    proof {
        reveal_strlit("h");
        reveal_strlit("m");
        reveal_strlit("s");
        reveal_strlit("ms");
    }
    if unit.len() == 1 {
        if unit[0] == 'h' {
            assert(unit@ == "h"@);
            return Some((3600, 1));
        }
        if unit[0] == 'm' {
            assert(unit@ == "m"@);
            assert("m"@ != "h"@) by {
                assert("m"@[0] == 'm' && "h"@[0] == 'h');
            }
            return Some((60, 1));
        }
        if unit[0] == 's' {
            assert(unit@ == "s"@);
            assert("s"@ != "h"@ && "s"@ != "m"@) by {
                assert("s"@[0] == 's' && "m"@[0] == 'm' && "h"@[0] == 'h');
            }
            return Some((1, 1));
        }
        assert(unit@[0] != "h"@[0] && unit@[0] != "m"@[0] && unit@[0] != "s"@[0]);
        assert("ms"@.len() == 2);
    } else if unit.len() == 2 && unit[0] == 'm' && unit[1] == 's' {
        assert(unit@ == "ms"@);
        assert("h"@.len() == 1 && "m"@.len() == 1 && "s"@.len() == 1);
        return Some((1, 1000));
    } else {
        assert("h"@.len() == 1 && "m"@.len() == 1 && "s"@.len() == 1 && "ms"@.len() == 2);
        assert(unit@.len() == 2 ==> unit@ != "ms"@) by {
            assert("ms"@[0] == 'm' && "ms"@[1] == 's');
        }
    }
    None
}

/// The seconds of a segment whose number is `d`.
fn segment_of(d: &Decimal, factor: u32, divisor: u32) -> (r: Double)
    requires
        d.wf(),
        d.exponent <= 0,
        divisor > 0,
        divisor > 1 ==> factor == 1,
    ensures
        r.wf(),
        r@ == fitted(
            double_of(d.digits@, d.exponent as int) * factor as nat,
            divisor as nat,
        ),
{
    match Double::read(d) {
        Some(n) => {
            assert(n@ * 1 == n@);
            if divisor > 1 {
                n.over(divisor)
            } else {
                n.times(factor)
            }
        },
        None => Double::zero(),
    }
}

fn sum_segments(s: &[char]) -> (r: Option<(Double, bool)>)
    ensures
        match r {
            Some((n, any)) => n.wf() && segments(s@, 0, false) == Some((n@, any)),
            None => segments(s@, 0, false) is None,
        },
{
    let mut sum: Double = Double::zero();
    let mut any: bool = false;
    let mut at: usize = 0;
    assert(s@.skip(0) == s@);
    loop
        invariant
            at <= s@.len(),
            sum.wf(),
            segments(s@.skip(at as int), sum@, any) == segments(s@, 0, false),
        decreases s@.len() - at,
    {
        let ghost cur = s@.skip(at as int);
        proof {
            lemma_numeric_run(cur);
            lemma_letter_run(cur.skip(numeric_run(cur) as int));
        }
        let n: usize = run_numeric(s, at);
        let ghost rest = cur.skip(numeric_run(cur) as int);
        assert(rest == s@.skip(n as int));
        if n == s.len() {
            return Some((sum, any));
        }
        let k: usize = run_letters(s, n);
        let number: Vec<char> = part(s, at, n);
        let unit: Vec<char> = part(s, n, k);
        assert(number@ == cur.take(numeric_run(cur) as int));
        assert(unit@ == rest.take(letter_run(rest) as int));
        if k == n {
            assert(segments(cur, sum@, any) is None);
            return None;
        }
        match read_numeral(number.as_slice()) {
            Numeral::Finite(d) => {
                match read_unit(&unit) {
                    Some((factor, divisor)) => {
                        proof {
                            assert forall|i: int| 0 <= i < number@.len() implies is_numeric(
                                #[trigger] number@[i],
                            ) by {
                                assert(number@[i] == cur[i]);
                            }
                            lemma_no_exponent(number@);
                            assert(rest.skip(letter_run(rest) as int) == s@.skip(k as int));
                        }
                        let f: Double = segment_of(&d, factor, divisor);
                        sum = sum.plus(&f);
                        any = true;
                        at = k;
                    },
                    None => {
                        return None;
                    },
                }
            },
            _ => {
                return None;
            },
        }
    }
}

/// A number of seconds as a span, or the longest one where that is less.
fn duration_of(seconds: &Double) -> (d: Duration)
    ensures
        d@ == min_nat(nearest(seconds@ * 1_000_000_000, one()), max_nanos()),
{
    let limit: u128 = 18_446_744_073_709_551_615u128 * 1_000_000_000 + 999_999_999;
    match seconds.rounded(1_000_000_000) {
        Some(n) => {
            if n <= limit {
                Duration::from_total_nanos(n)
            } else {
                Duration::from_total_nanos(limit)
            }
        },
        None => Duration::from_total_nanos(limit),
    }
}

/// A rate-limit reset value as a span. Such values look like `1s`, `6m0s`,
/// `2m59.56s`, or a bare number of seconds.
pub fn parse_reset_duration(s: &str) -> (r: Option<Duration>)
    ensures
        match r {
            Some(d) => reset_nanos(s@) == Some(d@),
            None => reset_nanos(s@) is None,
        },
{
    let all: Vec<char> = chars_of(s);
    let (a, b) = trim_bounds(all.as_slice());
    let t: Vec<char> = part(all.as_slice(), a, b);
    if t.len() == 0 {
        return None;
    }
    match read_numeral(t.as_slice()) {
        Numeral::Finite(d) => {
            match Double::read(&d) {
                Some(n) => {
                    if n.is_infinite() || (d.negative && !n.is_zero()) {
                        None
                    } else {
                        Some(duration_of(&n))
                    }
                },
                None => None,
            }
        },
        Numeral::Nan => None,
        Numeral::Infinite(_) => None,
        Numeral::Invalid => {
            match sum_segments(t.as_slice()) {
                Some((n, any)) => {
                    if any {
                        Some(duration_of(&n))
                    } else {
                        None
                    }
                },
                None => None,
            }
        },
    }
}

/// A count of whole seconds: digits with an optional plus sign, within 64 bits.
pub open spec fn whole_seconds(value: Seq<char>) -> Option<nat> {
    let t = trim(value);
    let u = if t.len() > 0 && t[0] == '+' {
        t.skip(1)
    } else {
        t
    };
    if u.len() > 0 && digit_run(u) == u.len() && digits_value(digits_of(u)) <= u64::MAX {
        Some(digits_value(digits_of(u)))
    } else {
        None
    }
}


proof fn lemma_no_digit_run(u: Seq<char>, i: int)
    requires
        0 <= i < u.len(),
        !is_digit(u[i]),
    ensures
        digit_run(u) <= i,
    decreases u.len(),
{
    if is_digit(u[0]) {
        assert(u.skip(1)[i - 1] == u[i]);
        lemma_no_digit_run(u.skip(1), i - 1);
    }
}

proof fn lemma_full_digit_run(u: Seq<char>)
    requires
        forall|i: int| 0 <= i < u.len() ==> is_digit(#[trigger] u[i]),
    ensures
        digit_run(u) == u.len(),
    decreases u.len(),
{
    if u.len() > 0 {
        assert forall|i: int| 0 <= i < u.skip(1).len() implies is_digit(
            #[trigger] u.skip(1)[i],
        ) by {
            assert(u.skip(1)[i] == u[i + 1]);
        }
        lemma_full_digit_run(u.skip(1));
    }
}

proof fn lemma_value_grows(d: Seq<u8>, i: int, j: int)
    requires
        0 <= i <= j <= d.len(),
    ensures
        digits_value(d.take(i)) <= digits_value(d.take(j)),
    decreases j - i,
{
    if i < j {
        lemma_value_grows(d, i, j - 1);
        assert(d.take(j).drop_last() == d.take(j - 1));
    }
}

/// A count of whole seconds.
pub fn parse_whole_seconds(value: &str) -> (r: Option<u64>)
    ensures
        match r {
            Some(n) => whole_seconds(value@) == Some(n as nat),
            None => whole_seconds(value@) is None,
        },
{
    let all: Vec<char> = chars_of(value);
    let (a, b) = trim_bounds(all.as_slice());
    let ghost t = trim(value@);
    let mut at: usize = a;
    if a < b && all[a] == '+' {
        at = a + 1;
    }
    let ghost u = all@.subrange(at as int, b as int);
    proof {
        assert(t == all@.subrange(a as int, b as int));
        if a < b {
            assert(t[0] == all@[a as int]);
            assert(t.skip(1) == all@.subrange(a + 1, b as int));
        }
    }
    if at == b {
        return None;
    }
    let start: usize = at;
    let mut n: u64 = 0;
    let ghost d = digits_of(u);
    assert(d.take(0) == Seq::<u8>::empty());
    while at < b
        invariant
            start <= at <= b <= all@.len(),
            u == all@.subrange(start as int, b as int),
            d == digits_of(u),
            start < b,
            n == digits_value(d.take(at - start)),
            forall|i: int| 0 <= i < at - start ==> is_digit(#[trigger] u[i]),
            u == if t.len() > 0 && t[0] == '+' {
                t.skip(1)
            } else {
                t
            },
            t == trim(value@),
        decreases b - at,
    {
        let c: char = all[at];
        assert(u[at - start] == c);
        if !digit(c) {
            proof {
                lemma_no_digit_run(u, at - start);
            }
            return None;
        }
        let v: u64 = (c as u8 - 48) as u64;
        proof {
            assert(d.take(at - start + 1).drop_last() == d.take(at - start));
            assert(d.take(at - start + 1).last() == v);
            lemma_value_grows(d, at - start + 1, d.len() as int);
            assert(d.take(d.len() as int) == d);
        }
        match n.checked_mul(10) {
            Some(m) => match m.checked_add(v) {
                Some(s) => {
                    n = s;
                },
                None => {
                    return None;
                },
            },
            None => {
                return None;
            },
        }
        at = at + 1;
    }
    proof {
        lemma_full_digit_run(u);
        assert(d.take(d.len() as int) == d);
    }
    Some(n)
}

/// The value of the first header of the name `name`.
pub open spec fn header(headers: Seq<(String, String)>, name: Seq<char>) -> Option<Seq<char>>
    decreases headers.len(),
{
    if headers.len() == 0 {
        None
    } else if headers[0].0@ == name {
        Some(headers[0].1@)
    } else {
        header(headers.skip(1), name)
    }
}

/// A budget that a header reports is spent.
pub open spec fn spent(value: Option<Seq<char>>) -> bool {
    match value {
        Some(v) => match numeral_of(trim(v)) {
            NumeralView::Finite(negative, digits, exponent) => negative || double_of(
                digits,
                exponent,
            ) == 0,
            NumeralView::Infinite(negative) => negative,
            _ => false,
        },
        None => false,
    }
}

/// The span for which a spent budget asks.
pub open spec fn budget_nanos(remaining: Option<Seq<char>>, reset: Option<Seq<char>>) -> Option<
    nat,
> {
    match reset {
        Some(v) => if spent(remaining) {
            reset_nanos(v)
        } else {
            None
        },
        None => None,
    }
}

/// The longer of two optional spans.
pub open spec fn longer(a: Option<nat>, b: Option<nat>) -> Option<nat> {
    match (a, b) {
        (Some(x), Some(y)) => Some(max_nat(x, y)),
        (Some(x), None) => Some(x),
        (None, y) => y,
    }
}

/// The nanoseconds for which a response's headers ask: the longest of its signals,
/// and at most the maximum.
pub open spec fn cooldown_nanos(headers: Seq<(String, String)>) -> Option<nat> {
    let retry = match header(headers, "retry-after"@) {
        Some(v) => match whole_seconds(v) {
            Some(n) => Some(n * 1_000_000_000),
            None => None,
        },
        None => None,
    };
    let requests = budget_nanos(
        header(headers, "x-ratelimit-remaining-requests"@),
        header(headers, "x-ratelimit-reset-requests"@),
    );
    let tokens = budget_nanos(
        header(headers, "x-ratelimit-remaining-tokens"@),
        header(headers, "x-ratelimit-reset-tokens"@),
    );
    match longer(longer(retry, requests), tokens) {
        Some(n) => Some(min_nat(n, max_cooldown_nanos())),
        None => None,
    }
}

fn find_header<'a>(headers: &'a [(String, String)], name: &str) -> (r: Option<&'a str>)
    ensures
        match r {
            Some(v) => header(headers@, name@) == Some(v@),
            None => header(headers@, name@) is None,
        },
{
    let mut i: usize = 0;
    assert(headers@.skip(0) == headers@);
    while i < headers.len()
        invariant
            i <= headers@.len(),
            header(headers@.skip(i as int), name@) == header(headers@, name@),
        decreases headers@.len() - i,
    {
        assert(headers@.skip(i as int)[0] == headers@[i as int]);
        assert(headers@.skip(i as int).skip(1) == headers@.skip(i + 1));
        if str_eq(headers[i].0.as_str(), name) {
            return Some(headers[i].1.as_str());
        }
        i = i + 1;
    }
    None
}

/// The view of an optional span.
pub open spec fn opt_nanos(d: Option<Duration>) -> Option<nat> {
    match d {
        Some(d) => Some(d@),
        None => None,
    }
}

fn is_spent(value: &str) -> (r: bool)
    ensures
        r == spent(Some(value@)),
{
    let all: Vec<char> = chars_of(value);
    let (a, b) = trim_bounds(all.as_slice());
    let t: Vec<char> = part(all.as_slice(), a, b);
    match read_numeral(t.as_slice()) {
        Numeral::Finite(d) => d.negative || match Double::read(&d) {
            Some(n) => n.is_zero(),
            None => {
                proof {
                    vstd::arithmetic::power2::lemma_pow2_pos(2098);
                }
                false
            },
        },
        Numeral::Infinite(negative) => negative,
        _ => false,
    }
}

fn budget(headers: &[(String, String)], remaining: &str, reset: &str) -> (r: Option<Duration>)
    ensures
        opt_nanos(r) == budget_nanos(header(headers@, remaining@), header(headers@, reset@)),
{
    match find_header(headers, reset) {
        Some(v) => match find_header(headers, remaining) {
            Some(left) => {
                if is_spent(left) {
                    parse_reset_duration(v)
                } else {
                    None
                }
            },
            None => None,
        },
        None => None,
    }
}

fn longer_of(a: Option<Duration>, b: Option<Duration>) -> (r: Option<Duration>)
    ensures
        opt_nanos(r) == longer(opt_nanos(a), opt_nanos(b)),
{
    match a {
        Some(x) => match b {
            Some(y) => Some(x.max(y)),
            None => Some(x),
        },
        None => b,
    }
}

/// Learns a cooldown from a response's rate-limit headers (names in lower case): an
/// explicit `Retry-After` in seconds, and the reset of each budget that is spent.
pub fn cooldown_from_headers(headers: &[(String, String)]) -> (r: Option<Duration>)
    ensures
        opt_nanos(r) == cooldown_nanos(headers@),
{
    let retry: Option<Duration> = match find_header(headers, "retry-after") {
        Some(v) => match parse_whole_seconds(v) {
            Some(n) => Some(Duration::from_secs(n)),
            None => None,
        },
        None => None,
    };
    let requests: Option<Duration> = budget(
        headers,
        "x-ratelimit-remaining-requests",
        "x-ratelimit-reset-requests",
    );
    let tokens: Option<Duration> = budget(
        headers,
        "x-ratelimit-remaining-tokens",
        "x-ratelimit-reset-tokens",
    );
    match longer_of(longer_of(retry, requests), tokens) {
        Some(d) => Some(d.min(Duration::from_secs(MAX_COOLDOWN_SECS))),
        None => None,
    }
}

/// The instant until which a worker holds new requests, in epoch milliseconds.
#[derive(Debug, Clone, Copy, PartialEq, Eq, Structural)]
pub struct Cooldown {
    pub until_ms: i64,
}

/// `now` plus a span in milliseconds, or the greatest instant where that is less.
pub open spec fn instant_after(now: i64, millis: int) -> int {
    if now + millis > i64::MAX {
        i64::MAX as int
    } else {
        now + millis
    }
}

impl Cooldown {
    /// No cooldown.
    pub fn none() -> (c: Self)
        ensures
            c.until_ms == 0,
    {
        Cooldown { until_ms: 0 }
    }

    /// Arms the cooldown to `now` plus the span if that is later than its current
    /// end: a stronger signal is never shortened by a weaker later one.
    pub fn arm(&mut self, now: i64, d: Option<Duration>)
        requires
            d matches Some(s) ==> s@ <= max_cooldown_nanos(),
        ensures
            match d {
                Some(s) => final(self).until_ms == if instant_after(now, (s@ / 1_000_000) as int)
                    > old(self).until_ms {
                    instant_after(now, (s@ / 1_000_000) as int)
                } else {
                    old(self).until_ms as int
                },
                None => *final(self) == *old(self),
            },
    {
        if let Some(s) = d {
            let ms: i64 = s.as_millis() as i64;
            let until: i64 = match now.checked_add(ms) {
                Some(t) => t,
                None => i64::MAX,
            };
            if until > self.until_ms {
                self.until_ms = until;
            }
        }
    }

    /// How long to nap at `now` before looking again, in milliseconds; nothing once
    /// the cooldown has passed. A nap is never longer than the maximum, so that a
    /// long arm is looked at again.
    pub fn nap(&self, now: i64) -> (r: Option<u64>)
        ensures
            match r {
                Some(ms) => self.until_ms > now && ms == if self.until_ms - now < 120_000 {
                    self.until_ms - now
                } else {
                    120_000
                },
                None => self.until_ms <= now,
            },
    {
        if self.until_ms <= now {
            return None;
        }
        let left: i128 = self.until_ms as i128 - now as i128;
        if left < 120_000 {
            Some(left as u64)
        } else {
            Some(120_000)
        }
    }
}

/// No response can ask for more than the longest cooldown.
pub proof fn law_cooldown_is_clamped(headers: Seq<(String, String)>)
    ensures
        cooldown_nanos(headers) matches Some(n) ==> n <= max_cooldown_nanos(),
{
}

/// A budget that is not spent asks for nothing.
pub proof fn law_reset_bites_only_when_spent(remaining: Option<Seq<char>>, reset: Option<Seq<char>>)
    requires
        !spent(remaining),
    ensures
        budget_nanos(remaining, reset) is None,
{
}

proof fn lemma_trimmed(s: Seq<char>)
    requires
        s.len() > 0,
        !crate::text::is_white(s[0]),
        !crate::text::is_white(s.last()),
    ensures
        trim(s) == s,
{
}

proof fn lemma_decimal_trimmed(n: nat)
    ensures
        trim(crate::text::decimal(n)) == crate::text::decimal(n),
        whole_seconds(crate::text::decimal(n)) == if n <= u64::MAX {
            Some(n)
        } else {
            None
        },
{
    let s = crate::text::decimal(n);
    crate::decimal::law_decimals_are_read_back(n);
    assert(is_digit(s[0]));
    assert(is_digit(s[s.len() - 1]));
    lemma_trimmed(s);
}

proof fn lemma_header(headers: Seq<(String, String)>, name: Seq<char>, i: int)
    requires
        0 <= i < headers.len(),
        headers[i].0@ == name,
        forall|k: int| 0 <= k < i ==> (#[trigger] headers[k]).0@ != name,
    ensures
        header(headers, name) == Some(headers[i].1@),
    decreases i,
{
    if i > 0 {
        assert(headers[0].0@ != name);
        let rest = headers.skip(1);
        assert(rest[i - 1] == headers[i]);
        assert forall|k: int| 0 <= k < i - 1 implies (#[trigger] rest[k]).0@ != name by {
            assert(rest[k] == headers[k + 1]);
        }
        lemma_header(rest, name, i - 1);
    }
}

proof fn lemma_no_header(headers: Seq<(String, String)>, name: Seq<char>)
    requires
        forall|k: int| 0 <= k < headers.len() ==> (#[trigger] headers[k]).0@ != name,
    ensures
        header(headers, name) is None,
    decreases headers.len(),
{
    if headers.len() > 0 {
        assert(headers[0].0@ != name);
        let rest = headers.skip(1);
        assert forall|k: int| 0 <= k < rest.len() implies (#[trigger] rest[k]).0@ != name by {
            assert(rest[k] == headers[k + 1]);
        }
        lemma_no_header(rest, name);
    }
}

/// A response that asks for a retry after so many seconds is heeded for that long, or for
/// two minutes where it asks for more; other headers may only ask for longer.
pub proof fn law_retry_after_is_heeded(
    headers: &[(String, String)],
    r: Option<Duration>,
    i: int,
    secs: u64,
)
    requires
        call_ensures(cooldown_from_headers, (headers,), r),
        0 <= i < headers@.len(),
        headers@[i].0@ == "retry-after"@,
        headers@[i].1@ == crate::text::decimal(secs as nat),
        forall|k: int| 0 <= k < i ==> (#[trigger] headers@[k]).0@ != "retry-after"@,
    ensures
        r is Some,
        r->0@ <= 120_000_000_000,
        secs <= 120 ==> r->0@ >= secs * 1_000_000_000,
        secs >= 120 ==> r->0@ == 120_000_000_000,
        secs <= 120 && (forall|k: int|
            0 <= k < headers@.len() ==> (#[trigger] headers@[k]).0@ != "x-ratelimit-reset-requests"@
                && headers@[k].0@ != "x-ratelimit-reset-tokens"@) ==> r->0@ == secs * 1_000_000_000,
{
    lemma_header(headers@, "retry-after"@, i);
    lemma_decimal_trimmed(secs as nat);
    if forall|k: int|
        0 <= k < headers@.len() ==> (#[trigger] headers@[k]).0@ != "x-ratelimit-reset-requests"@
            && headers@[k].0@ != "x-ratelimit-reset-tokens"@ {
        lemma_no_header(headers@, "x-ratelimit-reset-requests"@);
        lemma_no_header(headers@, "x-ratelimit-reset-tokens"@);
    }
}

/// A number is zero as a double just where its digits are.
proof fn lemma_whole_double_zero(n: nat)
    ensures
        double_of(digits_of(crate::text::decimal(n)), 0) == 0 <==> n == 0,
{
    crate::decimal::law_decimals_are_read_back(n);
    crate::double::lemma_whole_is_kept(n);
    assert(crate::decimal::pow10(0) == 1);
    assert(n * 1 == n);
}

/// A whole number of seconds that a double can hold is that many nanoseconds.
proof fn lemma_whole_nanos(n: nat)
    ensures
        nearest((n * one()) * 1_000_000_000, one()) == n * 1_000_000_000,
{
    vstd::arithmetic::power2::lemma_pow2_pos(1074);
    let p = (n * one()) * 1_000_000_000;
    assert(p == (n * 1_000_000_000) * one() + 0) by (nonlinear_arith)
        requires
            p == (n * one()) * 1_000_000_000,
    ;
    vstd::arithmetic::div_mod::lemma_fundamental_div_mod_converse(
        p as int,
        one() as int,
        (n * 1_000_000_000) as int,
        0,
    );
}

/// A bare number is that many seconds.
pub proof fn law_bare_resets_are_seconds(value: &str, n: nat, r: Option<Duration>)
    requires
        call_ensures(parse_reset_duration, (value,), r),
        value@ == crate::text::decimal(n),
        n < 1_000_000_000_000_000,
    ensures
        r matches Some(d) && d@ == n * 1_000_000_000,
{
    lemma_decimal_trimmed(n);
    crate::decimal::law_whole_numbers_are_read_back(n);
    crate::decimal::law_decimals_are_read_back(n);
    crate::double::lemma_whole_is_kept(n);
    lemma_whole_nanos(n);
    assert(crate::decimal::pow10(0) == 1);
    assert(n * 1 == n);
    vstd::arithmetic::power2::lemma_pow2_pos(1074);
    vstd::arithmetic::power2::lemma_pow2_adds(1024, 1074);
    vstd::arithmetic::power2::lemma2_to64();
    vstd::arithmetic::power2::lemma_pow2_strictly_increases(53, 1024);
    vstd::arithmetic::power2::lemma2_to64_rest();
    let one = one();
    assert(n * one < limit()) by (nonlinear_arith)
        requires
            limit() == pow2_1024() * one,
            n < pow2_1024(),
            one > 0,
    ;
}

/// Two to the power 1024.
spec fn pow2_1024() -> nat {
    vstd::arithmetic::power2::pow2(1024)
}

proof fn lemma_numeric_all(s: Seq<char>, k: int)
    requires
        0 <= k <= s.len(),
        forall|i: int| 0 <= i < k ==> is_numeric(#[trigger] s[i]),
        k < s.len() ==> !is_numeric(s[k]),
    ensures
        numeric_run(s) == k,
    decreases k,
{
    if k > 0 {
        assert(is_numeric(s[0]));
        let rest = s.skip(1);
        assert forall|i: int| 0 <= i < k - 1 implies is_numeric(#[trigger] rest[i]) by {
            assert(is_numeric(s[i + 1]));
        }
        if k < s.len() {
            assert(rest[k - 1] == s[k]);
        }
        lemma_numeric_all(rest, k - 1);
    }
}

proof fn lemma_digit_prefix(s: Seq<char>, k: int)
    requires
        0 <= k < s.len(),
        forall|i: int| 0 <= i < k ==> is_digit(#[trigger] s[i]),
        !is_digit(s[k]),
    ensures
        digit_run(s) == k,
    decreases k,
{
    if k > 0 {
        assert(is_digit(s[0]));
        let rest = s.skip(1);
        assert forall|i: int| 0 <= i < k - 1 implies is_digit(#[trigger] rest[i]) by {
            assert(is_digit(s[i + 1]));
        }
        assert(rest[k - 1] == s[k]);
        lemma_digit_prefix(rest, k - 1);
    }
}

/// A number with a unit is that many hours, minutes or seconds.
pub proof fn law_units_count_seconds(value: &str, n: nat, unit: char, r: Option<Duration>)
    requires
        call_ensures(parse_reset_duration, (value,), r),
        value@ == crate::text::decimal(n) + seq![unit],
        n < 1_000_000_000_000,
        unit == 'h' || unit == 'm' || unit == 's',
    ensures
        unit == 'h' ==> (r matches Some(d) && d@ == n * 3600 * 1_000_000_000),
        unit == 'm' ==> (r matches Some(d) && d@ == n * 60 * 1_000_000_000),
        unit == 's' ==> (r matches Some(d) && d@ == n * 1_000_000_000),
{
    let s = value@;
    let t = crate::text::decimal(n);
    let len = t.len() as int;
    crate::decimal::law_decimals_are_read_back(n);
    crate::decimal::law_whole_numbers_are_read_back(n);
    assert(is_digit(t[0]));
    assert(s[0] == t[0]);
    assert(s.last() == unit);
    lemma_trimmed(s);
    assert forall|i: int| 0 <= i < len implies is_digit(#[trigger] s[i]) by {
        assert(s[i] == t[i]);
    }
    lemma_digit_prefix(s, len);
    lemma_numeric_all(s, len);
    assert(unsigned_part(s) == s);
    reveal_strlit("nan");
    reveal_strlit("inf");
    reveal_strlit("infinity");
    assert(s.skip(len) =~= seq![unit]);
    assert(crate::decimal::exponent_of(seq![unit]) is None);
    assert(numeral_of(s) is Invalid);
    assert(s.take(len) =~= t);
    let rest = seq![unit];
    assert(rest.skip(1) =~= Seq::<char>::empty());
    assert(letter_run(rest.skip(1)) == 0);
    assert(letter_run(rest) == 1);
    assert(rest.take(1) =~= rest);
    reveal_strlit("h");
    reveal_strlit("m");
    reveal_strlit("s");
    reveal_strlit("ms");
    assert(unit == 'h' ==> rest =~= "h"@);
    assert(unit == 'm' ==> rest =~= "m"@);
    assert(unit == 's' ==> rest =~= "s"@);
    assert("h"@[0] == 'h' && "m"@[0] == 'm' && "s"@[0] == 's');
    let f: nat = if unit == 'h' {
        3600
    } else if unit == 'm' {
        60
    } else {
        1
    };
    assert(unit_of(rest) == Some((f, 1nat)));
    crate::double::lemma_whole_is_kept(n);
    crate::double::lemma_whole_is_kept(n * f);
    assert(crate::decimal::pow10(0) == 1);
    assert(n * 1 == n);
    assert(double_of(digits_of(t), 0) == n * one());
    assert((n * one()) * f == (n * f) * one()) by (nonlinear_arith);
    assert(segment_seconds(t, rest) == Some((n * f) * one()));
    lemma_whole_nanos(n * f);
    let empty = rest.skip(1);
    assert(numeric_run(empty) == 0);
    assert(empty.skip(0) =~= empty);
    assert(segments(empty, (n * f) * one(), true) == Some(((n * f) * one(), true)));
    assert(0 + (n * f) * one() == (n * f) * one());
    assert(segments(s, 0, false) == segments(empty, fitted((n * f) * one(), 1), true));
    assert((n * f) * 1_000_000_000 == n * f * 1_000_000_000);
}

/// A budget of requests or tokens of which none is left is heeded: the response asks for at
/// least as long as its reset says, up to two minutes. A budget of which some is left asks
/// for nothing.
pub proof fn law_spent_budgets_are_heeded(
    headers: &[(String, String)],
    r: Option<Duration>,
    i: int,
    j: int,
    left: nat,
    wait: Option<Duration>,
    tokens: bool,
)
    requires
        call_ensures(cooldown_from_headers, (headers,), r),
        0 <= i < headers@.len(),
        0 <= j < headers@.len(),
        headers@[i].0@ == if tokens {
            "x-ratelimit-remaining-tokens"@
        } else {
            "x-ratelimit-remaining-requests"@
        },
        headers@[j].0@ == if tokens {
            "x-ratelimit-reset-tokens"@
        } else {
            "x-ratelimit-reset-requests"@
        },
        headers@[i].1@ == crate::text::decimal(left),
        forall|k: int| 0 <= k < i ==> (#[trigger] headers@[k]).0@ != headers@[i].0@,
        forall|k: int| 0 <= k < j ==> (#[trigger] headers@[k]).0@ != headers@[j].0@,
        exists|v: &str| v@ == headers@[j].1@ && #[trigger] call_ensures(
            parse_reset_duration,
            (v,),
            wait,
        ),
    ensures
        left == 0 && wait is Some ==> r is Some && r->0@ <= 120_000_000_000 && (wait->0@
            <= 120_000_000_000 ==> r->0@ >= wait->0@) && (wait->0@ >= 120_000_000_000 ==> r->0@
            == 120_000_000_000),
        left > 0 && (forall|k: int|
            0 <= k < headers@.len() ==> (#[trigger] headers@[k]).0@ != "retry-after"@
                && headers@[k].0@ != if tokens {
                "x-ratelimit-reset-requests"@
            } else {
                "x-ratelimit-reset-tokens"@
            }) ==> r is None,
{
    lemma_header(headers@, headers@[i].0@, i);
    lemma_header(headers@, headers@[j].0@, j);
    lemma_decimal_trimmed(left);
    crate::decimal::law_whole_numbers_are_read_back(left);
    lemma_whole_double_zero(left);
    assert(spent(Some(crate::text::decimal(left))) <==> left == 0);
    let other = if tokens {
        "x-ratelimit-reset-requests"@
    } else {
        "x-ratelimit-reset-tokens"@
    };
    if forall|k: int|
        0 <= k < headers@.len() ==> (#[trigger] headers@[k]).0@ != "retry-after"@ && headers@[k].0@
            != other {
        lemma_no_header(headers@, "retry-after"@);
        lemma_no_header(headers@, other);
    }
}

/// A cooldown is armed to the end of the span from now, and is never shortened; while it
/// lasts a worker naps, for what is left or for two minutes.
pub proof fn law_cooldowns_hold_back(
    before: Cooldown,
    after: Cooldown,
    now: i64,
    d: Option<Duration>,
    nap: Option<u64>,
)
    requires
        d matches Some(s) ==> s@ <= max_cooldown_nanos(),
        0 <= now < 0x4000_0000_0000_0000,
        exists|c: &mut Cooldown|
            *c == before && *final(c) == after && #[trigger] call_ensures(
                Cooldown::arm,
                (c, now, d),
                (),
            ),
        call_ensures(Cooldown::nap, (&after, now), nap),
    ensures
        after.until_ms >= before.until_ms,
        d matches Some(s) ==> after.until_ms >= now + s@ / 1_000_000 && (after.until_ms == now + s@
            / 1_000_000 || after.until_ms == before.until_ms),
        d is None ==> after == before,
        nap is Some <==> after.until_ms > now,
        nap matches Some(ms) ==> ms <= 120_000 && ms <= after.until_ms - now && (ms == 120_000 || ms
            == after.until_ms - now),
{
}

} // verus!

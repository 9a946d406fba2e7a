//! Decimal numbers read from text.

use vstd::prelude::*;

use crate::text::{chars_of, lower, lower_char};

verus! {

/// A finite decimal number: the digits, most significant first, read as an integer
/// and multiplied by a power of ten.
pub struct Decimal {
    pub negative: bool,
    pub digits: Vec<u8>,
    pub exponent: i128,
}

impl Decimal {
    /// The digits are digits, and the exponent is one that a text can have.
    pub open spec fn wf(self) -> bool {
        &&& forall|i: int| 0 <= i < self.digits@.len() ==> (#[trigger] self.digits@[i]) < 10
        &&& -0x2_0000_0000_0000_0000 <= self.exponent <= 1_000_000
    }
}

/// What a text says as a number.
pub enum Numeral {
    /// No number.
    Invalid,
    /// Not a number.
    Nan,
    /// An infinity; `true` for the negative one.
    Infinite(bool),
    /// A decimal number.
    Finite(Decimal),
}

/// The mathematical value of a [`Numeral`].
pub enum NumeralView {
    Invalid,
    Nan,
    Infinite(bool),
    Finite(bool, Seq<u8>, int),
}

impl View for Numeral {
    type V = NumeralView;

    open spec fn view(&self) -> NumeralView {
        match self {
            Numeral::Invalid => NumeralView::Invalid,
            Numeral::Nan => NumeralView::Nan,
            Numeral::Infinite(negative) => NumeralView::Infinite(*negative),
            Numeral::Finite(d) => NumeralView::Finite(d.negative, d.digits@, d.exponent as int),
        }
    }
}

/// An ASCII decimal digit.
pub open spec fn is_digit(c: char) -> bool {
    '0' <= c && c <= '9'
}

/// The value of a digit.
pub open spec fn digit_of(c: char) -> u8 {
    ((c as u8) - 48) as u8
}

/// Whether `c` is an ASCII decimal digit.
pub fn digit(c: char) -> (r: bool)
    ensures
        r == is_digit(c),
{
    '0' <= c && c <= '9'
}

/// The length of the run of digits at the start of `s`.
pub open spec fn digit_run(s: Seq<char>) -> nat
    decreases s.len(),
{
    if s.len() > 0 && is_digit(s[0]) {
        1 + digit_run(s.skip(1))
    } else {
        0
    }
}

/// The values of the digits of `s`.
pub open spec fn digits_of(s: Seq<char>) -> Seq<u8> {
    s.map_values(|c: char| digit_of(c))
}

/// The integer that a list of digits denotes.
pub open spec fn digits_value(d: Seq<u8>) -> nat
    decreases d.len(),
{
    if d.len() == 0 {
        0
    } else {
        digits_value(d.drop_last()) * 10 + d.last() as nat
    }
}

/// An exponent beyond this counts as this: no number of interest has more.
pub const EXPONENT_LIMIT: u64 = 1_000_000;

/// The lesser of a value and the exponent limit.
pub open spec fn limited(n: nat) -> int {
    if n <= 1_000_000 {
        n as int
    } else {
        1_000_000
    }
}

/// `s` without a leading sign.
pub open spec fn unsigned_part(s: Seq<char>) -> Seq<char> {
    if s.len() > 0 && (s[0] == '-' || s[0] == '+') {
        s.skip(1)
    } else {
        s
    }
}

/// `s` starts with a minus sign.
pub open spec fn starts_negative(s: Seq<char>) -> bool {
    s.len() > 0 && s[0] == '-'
}

/// What an exponent part says: nothing for an empty one, else `e`, an optional sign
/// and at least one digit, with nothing after them.
pub open spec fn exponent_of(s: Seq<char>) -> Option<int> {
    if s.len() == 0 {
        Some(0)
    } else if s[0] == 'e' || s[0] == 'E' {
        let t = unsigned_part(s.skip(1));
        if t.len() > 0 && digit_run(t) == t.len() {
            if starts_negative(s.skip(1)) {
                Some(-limited(digits_value(digits_of(t))))
            } else {
                Some(limited(digits_value(digits_of(t))))
            }
        } else {
            None
        }
    } else {
        None
    }
}

/// Equality of a text with a lower-case word, whatever the case of the text.
pub open spec fn same_word(s: Seq<char>, word: Seq<char>) -> bool {
    s.len() == word.len() && forall|i: int| 0 <= i < s.len() ==> lower_char(#[trigger] s[i]) == word[i]
}

/// The number that `s` denotes: an optional sign; then `inf`, `infinity` or `nan` in
/// any case, or digits with at most one point among them, at least one digit, and
/// an optional exponent.
pub open spec fn numeral_of(s: Seq<char>) -> NumeralView {
    let u = unsigned_part(s);
    let whole = digit_run(u);
    let rest = u.skip(whole as int);
    let pointed = rest.len() > 0 && rest[0] == '.';
    let frac = if pointed {
        digit_run(rest.skip(1))
    } else {
        0
    };
    let tail = if pointed {
        rest.skip(1 + frac as int)
    } else {
        rest
    };
    let digits = digits_of(u.take(whole as int)) + digits_of(
        if pointed {
            rest.skip(1).take(frac as int)
        } else {
            seq![]
        },
    );
    if same_word(u, "nan"@) {
        NumeralView::Nan
    } else if same_word(u, "inf"@) || same_word(u, "infinity"@) {
        NumeralView::Infinite(starts_negative(s))
    } else if whole + frac == 0 {
        NumeralView::Invalid
    } else {
        match exponent_of(tail) {
            Some(e) => NumeralView::Finite(starts_negative(s), digits, e - frac),
            None => NumeralView::Invalid,
        }
    }
}

fn run_of_digits(s: &[char], from: usize) -> (n: usize)
    requires
        from <= s@.len(),
    ensures
        n == digit_run(s@.skip(from as int)),
        from + n <= s@.len(),
{
    let mut i: usize = from;
    while i < s.len() && digit(s[i])
        invariant
            from <= i <= s@.len(),
            digit_run(s@.skip(from as int)) == (i - from) + digit_run(s@.skip(i as int)),
        decreases s@.len() - i,
    {
        assert(s@.skip(i as int)[0] == s@[i as int]);
        assert(s@.skip(i as int).skip(1) == s@.skip(i + 1));
        i = i + 1;
    }
    proof {
        if i < s@.len() {
            assert(s@.skip(i as int)[0] == s@[i as int]);
        }
    }
    i - from
}

/// The characters of a run of digits are digits.
pub proof fn lemma_digit_run(s: Seq<char>)
    ensures
        digit_run(s) <= s.len(),
        forall|i: int| 0 <= i < digit_run(s) ==> is_digit(#[trigger] s[i]),
    decreases s.len(),
{
    if s.len() > 0 && is_digit(s[0]) {
        lemma_digit_run(s.skip(1));
        assert forall|i: int| 0 <= i < digit_run(s) implies is_digit(#[trigger] s[i]) by {
            if i > 0 {
                assert(s.skip(1)[i - 1] == s[i]);
            }
        }
    }
}

fn push_digits(out: &mut Vec<u8>, s: &[char], from: usize, n: usize)
    requires
        from + n <= s@.len(),
        n <= digit_run(s@.skip(from as int)),
        forall|i: int| 0 <= i < old(out)@.len() ==> (#[trigger] old(out)@[i]) < 10,
    ensures
        final(out)@ == old(out)@ + digits_of(s@.skip(from as int).take(n as int)),
        forall|i: int| 0 <= i < final(out)@.len() ==> (#[trigger] final(out)@[i]) < 10,
{
    proof {
        lemma_digit_run(s@.skip(from as int));
    }
    let ghost part = s@.skip(from as int);
    let size: usize = s.len();
    let mut i: usize = 0;
    assert(old(out)@ + digits_of(part.take(0)) == old(out)@);
    while i < n
        invariant
            i <= n,
            size == s@.len(),
            from + n <= s@.len(),
            part == s@.skip(from as int),
            forall|j: int| 0 <= j < n ==> is_digit(#[trigger] part[j]),
            out@ == old(out)@ + digits_of(part.take(i as int)),
            forall|j: int| 0 <= j < out@.len() ==> (#[trigger] out@[j]) < 10,
        decreases n - i,
    {
        assert(is_digit(part[i as int]));
        let d: u8 = s[from + i] as u8 - 48;
        out.push(d);
        i = i + 1;
        assert(digits_of(part.take(i as int)) == digits_of(part.take(i - 1)).push(d));
    }
}

fn is_word(s: &[char], from: usize, word: &str) -> (r: bool)
    requires
        from <= s@.len(),
    ensures
        r == same_word(s@.skip(from as int), word@),
{
    let w: Vec<char> = chars_of(word);
    let ghost part = s@.skip(from as int);
    let size: usize = s.len();
    if size - from != w.len() {
        return false;
    }
    let mut i: usize = 0;
    while i < w.len()
        invariant
            size == s@.len(),
            i <= w@.len(),
            w@ == word@,
            from + w@.len() == s@.len(),
            part == s@.skip(from as int),
            forall|j: int| 0 <= j < i ==> lower_char(#[trigger] part[j]) == word@[j],
        decreases w@.len() - i,
    {
        assert(part[i as int] == s@[from + i]);
        if lower(s[from + i]) != w[i] {
            return false;
        }
        i = i + 1;
    }
    true
}

fn limited_value(s: &[char], from: usize) -> (v: u64)
    requires
        from <= s@.len(),
        digit_run(s@.skip(from as int)) == s@.len() - from,
    ensures
        v == limited(digits_value(digits_of(s@.skip(from as int)))),
{
    let ghost part = s@.skip(from as int);
    proof {
        lemma_digit_run(part);
    }
    let mut v: u64 = 0;
    let mut i: usize = from;
    assert(digits_of(part.take(0)) == Seq::<u8>::empty());
    while i < s.len()
        invariant
            from <= i <= s@.len(),
            part == s@.skip(from as int),
            forall|j: int| 0 <= j < part.len() ==> is_digit(#[trigger] part[j]),
            v == limited(digits_value(digits_of(part.take(i - from)))),
        decreases s@.len() - i,
    {
        assert(is_digit(part[i - from]));
        let d: u8 = s[i] as u8 - 48;
        assert(digits_of(part.take(i - from + 1)).drop_last() == digits_of(part.take(i - from)));
        v = v * 10 + d as u64;
        if v > EXPONENT_LIMIT {
            v = EXPONENT_LIMIT;
        }
        i = i + 1;
    }
    assert(part.take(part.len() as int) == part);
    v
}

fn read_exponent(s: &[char], from: usize) -> (r: Option<i64>)
    requires
        from <= s@.len(),
    ensures
        match r {
            Some(e) => exponent_of(s@.skip(from as int)) == Some(e as int) && -1_000_000 <= e
                <= 1_000_000,
            None => exponent_of(s@.skip(from as int)) is None,
        },
{
    let ghost part = s@.skip(from as int);
    if from == s.len() {
        return Some(0);
    }
    assert(part[0] == s@[from as int]);
    if s[from] != 'e' && s[from] != 'E' {
        return None;
    }
    let mut at: usize = from + 1;
    assert(part.skip(1) == s@.skip(from + 1));
    let mut negative: bool = false;
    if at < s.len() && (s[at] == '-' || s[at] == '+') {
        assert(part.skip(1)[0] == s@[at as int]);
        assert(part.skip(1).skip(1) == s@.skip(at + 1));
        negative = s[at] == '-';
        at = at + 1;
    } else if at < s.len() {
        assert(part.skip(1)[0] == s@[at as int]);
    }
    assert(unsigned_part(part.skip(1)) == s@.skip(at as int));
    assert(negative == starts_negative(part.skip(1)));
    if at == s.len() || run_of_digits(s, at) != s.len() - at {
        return None;
    }
    let v: u64 = limited_value(s, at);
    if negative {
        Some(-(v as i64))
    } else {
        Some(v as i64)
    }
}

/// The number that the characters `s` denote.
pub fn read_numeral(s: &[char]) -> (r: Numeral)
    ensures
        r@ == numeral_of(s@),
        r matches Numeral::Finite(d) ==> d.wf(),
{
    let mut from: usize = 0;
    let mut negative: bool = false;
    assert(s@.skip(0) == s@);
    if s.len() > 0 && (s[0] == '-' || s[0] == '+') {
        negative = s[0] == '-';
        from = 1;
    }
    let ghost u = s@.skip(from as int);
    assert(u == unsigned_part(s@));
    if is_word(s, from, "nan") {
        return Numeral::Nan;
    }
    if is_word(s, from, "inf") || is_word(s, from, "infinity") {
        return Numeral::Infinite(negative);
    }
    let whole: usize = run_of_digits(s, from);
    let point: usize = from + whole;
    let ghost rest = u.skip(whole as int);
    assert(rest == s@.skip(point as int));
    let mut digits: Vec<u8> = Vec::new();
    push_digits(&mut digits, s, from, whole);
    assert(digits@ == digits_of(u.take(whole as int)));
    let pointed: bool = point < s.len() && s[point] == '.';
    assert(pointed == (rest.len() > 0 && rest[0] == '.'));
    if pointed {
        assert(rest.skip(1) == s@.skip(point + 1));
        let frac: usize = run_of_digits(s, point + 1);
        push_digits(&mut digits, s, point + 1, frac);
        if whole == 0 && frac == 0 {
            return Numeral::Invalid;
        }
        assert(rest.skip(1 + frac as int) == s@.skip(point + 1 + frac));
        match read_exponent(s, point + 1 + frac) {
            Some(e) => {
                Numeral::Finite(
                    Decimal { negative, digits, exponent: e as i128 - frac as i128 },
                )
            },
            None => Numeral::Invalid,
        }
    } else {
        assert(digits@ == digits_of(u.take(whole as int)) + digits_of(Seq::<char>::empty()));
        if whole == 0 {
            return Numeral::Invalid;
        }
        match read_exponent(s, point) {
            Some(e) => Numeral::Finite(Decimal { negative, digits, exponent: e as i128 }),
            None => Numeral::Invalid,
        }
    }
}

/// Every digit is zero.
pub open spec fn all_zero(digits: Seq<u8>) -> bool {
    forall|i: int| 0 <= i < digits.len() ==> (#[trigger] digits[i]) == 0
}

/// Ten to the power `k`.
pub open spec fn pow10(k: nat) -> nat
    decreases k,
{
    if k == 0 {
        1
    } else {
        10 * pow10((k - 1) as nat)
    }
}

pub proof fn lemma_pow10_pos(k: nat)
    ensures
        pow10(k) >= 1,
    decreases k,
{
    if k > 0 {
        lemma_pow10_pos((k - 1) as nat);
    }
}

pub proof fn lemma_pow10_add(a: nat, b: nat)
    ensures
        pow10(a + b) == pow10(a) * pow10(b),
    decreases a,
{
    if a == 0 {
        let y = pow10(b);
        assert(pow10(a) * y == y) by (nonlinear_arith)
            requires
                pow10(a) == 1,
        ;
    } else {
        lemma_pow10_add((a - 1) as nat, b);
        let x = pow10((a - 1) as nat);
        let y = pow10(b);
        assert(10 * (x * y) == (10 * x) * y) by (nonlinear_arith);
        assert((a - 1) as nat + b == (a + b - 1) as nat);
        assert(pow10(a + b) == 10 * pow10((a + b - 1) as nat));
        assert(pow10(a) == 10 * x);
        assert(pow10(a) * y == (10 * x) * y);
    }
}

impl Decimal {
    /// Whether every digit is zero.
    pub fn is_zero(&self) -> (r: bool)
        ensures
            r == all_zero(self.digits@),
    {
        let mut i: usize = 0;
        while i < self.digits.len()
            invariant
                i <= self.digits@.len(),
                forall|j: int| 0 <= j < i ==> (#[trigger] self.digits@[j]) == 0,
            decreases self.digits@.len() - i,
        {
            if self.digits[i] != 0 {
                return false;
            }
            i = i + 1;
        }
        true
    }
}

/// Only digits make a full run.
proof fn lemma_all_digits_run(s: Seq<char>)
    requires
        forall|i: int| 0 <= i < s.len() ==> is_digit(#[trigger] s[i]),
    ensures
        digit_run(s) == s.len(),
    decreases s.len(),
{
    if s.len() > 0 {
        assert(is_digit(s[0]));
        assert forall|i: int| 0 <= i < s.skip(1).len() implies is_digit(#[trigger] s.skip(1)[i]) by {
            assert(is_digit(s[i + 1]));
        }
        lemma_all_digits_run(s.skip(1));
    }
}

/// The decimal notation of a number is a run of digits, which are read back as the number.
pub proof fn law_decimals_are_read_back(n: nat)
    ensures
        crate::text::decimal(n).len() > 0,
        forall|i: int|
            0 <= i < crate::text::decimal(n).len() ==> is_digit(
                #[trigger] crate::text::decimal(n)[i],
            ),
        digit_run(crate::text::decimal(n)) == crate::text::decimal(n).len(),
        digits_value(digits_of(crate::text::decimal(n))) == n,
    decreases n,
{
    let s = crate::text::decimal(n);
    let d = digits_of(s);
    if n < 10 {
        assert(s =~= seq![crate::text::digit_char(n)]);
        assert(d =~= seq![n as u8]);
        assert(d.drop_last() =~= Seq::<u8>::empty());
        assert(digits_value(d.drop_last()) == 0);
    } else {
        law_decimals_are_read_back(n / 10);
        let init = crate::text::decimal(n / 10);
        assert forall|i: int| 0 <= i < s.len() implies is_digit(#[trigger] s[i]) by {
            if i < init.len() {
                assert(s[i] == init[i]);
            }
        }
        assert(d.drop_last() =~= digits_of(init));
        assert(d.last() == n % 10);
    }
    lemma_all_digits_run(s);
}

/// A whole number in decimal notation is read as that number, without a sign.
pub proof fn law_whole_numbers_are_read_back(n: nat)
    ensures
        numeral_of(crate::text::decimal(n)) == NumeralView::Finite(
            false,
            digits_of(crate::text::decimal(n)),
            0,
        ),
{
    let s = crate::text::decimal(n);
    law_decimals_are_read_back(n);
    assert(is_digit(s[0]));
    assert(unsigned_part(s) == s);
    assert(s.skip(s.len() as int) =~= Seq::<char>::empty());
    assert(s.take(s.len() as int) =~= s);
    reveal_strlit("nan");
    reveal_strlit("inf");
    reveal_strlit("infinity");
    assert(digits_of(s) + digits_of(Seq::<char>::empty()) =~= digits_of(s));
}

} // verus!

//! Text primitives with exact contracts over sequences of characters.

use vstd::prelude::*;
use vstd::string::{StringExecFns, StrSliceExecFns};

verus! {

/// `std::string::String::push`: appends one character at the end.
pub assume_specification[ std::string::String::push ](s: &mut String, c: char)
    ensures
        final(s)@ == old(s)@.push(c),
;

/// `String::from_utf8`: the text of bytes that are valid UTF-8; nothing for others.
#[verifier::external_body]
pub(crate) fn decode(bytes: &[u8]) -> (r: Option<String>)
    ensures
        match r {
            Some(t) => text_of(bytes@) == Some(t@),
            None => text_of(bytes@) is None,
        },
{
    String::from_utf8(bytes.to_vec()).ok()
}

/// What std shows of bytes as text, with a mark for what is no UTF-8.
pub uninterp spec fn lossy_text(bytes: Seq<u8>) -> Seq<char>;

/// `String::from_utf8_lossy`: the bytes as text. What stands for bytes that are no UTF-8
/// is left to its name.
#[verifier::external_body]
pub(crate) fn lossy(bytes: &[u8]) -> (r: String)
    ensures
        r@ == lossy_text(bytes@),
{
    String::from_utf8_lossy(bytes).into_owned()
}

/// The text that bytes are, where they are UTF-8.
pub open spec fn text_of(raw: Seq<u8>) -> Option<Seq<char>> {
    if vstd::utf8::valid_utf8(raw) {
        Some(vstd::utf8::decode_utf8(raw))
    } else {
        None
    }
}

/// What bytes are shown as: their text, or what can be shown where they are no UTF-8.
pub open spec fn shown(raw: Seq<u8>) -> Seq<char> {
    match text_of(raw) {
        Some(t) => t,
        None => lossy_text(raw),
    }
}

/// The bytes are text in which nothing but white space stands.
pub open spec fn blank(raw: Seq<u8>) -> bool {
    text_of(raw) matches Some(t) && trim(t).len() == 0
}

/// The views of raw lines.
pub open spec fn raw_views(lines: Seq<Vec<u8>>) -> Seq<Seq<u8>> {
    lines.map_values(|s: Vec<u8>| s@)
}

/// How std prints a text for debugging: in quotes, with escapes.
pub uninterp spec fn quoted(s: Seq<char>) -> Seq<char>;

/// The `Debug` form of `str`: the text in quotes, with escapes. How each character is
/// escaped is left to its name.
#[verifier::external_body]
pub(crate) fn quote(s: &str) -> (r: String)
    ensures
        r@ == quoted(s@),
{
    format!("{:?}", s)
}

/// The characters of `s`, in order.
pub fn chars_of(s: &str) -> (r: Vec<char>)
    ensures
        r@ == s@,
{
    let mut out: Vec<char> = Vec::new();
    for c in it: s.chars()
        invariant
            out@ == s@.take(it.index() as int),
            it.seq() == s@,
    {
        out.push(c);
        assert(s@.take(it.index() + 1) == s@.take(it.index() as int).push(c));
    }
    assert(s@.take(s@.len() as int) == s@);
    out
}

/// The text made of the characters `s[from..to]`.
pub fn string_from(s: &[char], from: usize, to: usize) -> (r: String)
    requires
        from <= to <= s@.len(),
    ensures
        r@ == s@.subrange(from as int, to as int),
{
    let mut out: String = String::new();
    let mut i: usize = from;
    while i < to
        invariant
            from <= i <= to <= s@.len(),
            out@ == s@.subrange(from as int, i as int),
        decreases to - i,
    {
        out.push(s[i]);
        i = i + 1;
        assert(s@.subrange(from as int, i as int) == s@.subrange(from as int, i - 1).push(s@[i - 1]));
    }
    out
}

/// Text equality.
pub fn str_eq(a: &str, b: &str) -> (r: bool)
    ensures
        r == (a@ == b@),
{
    a.to_owned() == b.to_owned()
}

/// `a` followed by `b`.
pub fn concat2(a: &str, b: &str) -> (r: String)
    ensures
        r@ == a@ + b@,
{
    let mut out: String = a.to_owned();
    out.append(b);
    out
}

/// `a`, then `b`, then `c`.
pub fn concat3(a: &str, b: &str, c: &str) -> (r: String)
    ensures
        r@ == a@ + b@ + c@,
{
    let mut out: String = a.to_owned();
    out.append(b);
    out.append(c);
    out
}

/// `pat` occurs in `s` at position `i`.
pub open spec fn occurs_at(s: Seq<char>, pat: Seq<char>, i: int) -> bool {
    &&& 0 <= i
    &&& i + pat.len() <= s.len()
    &&& s.subrange(i, i + pat.len()) == pat
}

/// `pat` occurs somewhere in `s`.
pub open spec fn text_contains(s: Seq<char>, pat: Seq<char>) -> bool {
    exists|i: int| occurs_at(s, pat, i)
}

/// Whether `pat` stands in `s` at position `i`.
pub fn matches_at(s: &[char], pat: &[char], i: usize) -> (r: bool)
    ensures
        r == occurs_at(s@, pat@, i as int),
{
    if i > s.len() || pat.len() > s.len() - i {
        return false;
    }
    let n: usize = s.len();
    let mut k: usize = 0;
    while k < pat.len()
        invariant
            n == s@.len(),
            i + pat@.len() <= s@.len(),
            k <= pat@.len(),
            forall|j: int| 0 <= j < k ==> s@[i + j] == pat@[j],
        decreases pat@.len() - k,
    {
        if s[i + k] != pat[k] {
            assert(s@.subrange(i as int, i + pat@.len())[k as int] == s@[i + k]);
            return false;
        }
        k = k + 1;
    }
    assert(s@.subrange(i as int, i + pat@.len()) == pat@);
    true
}

/// The least position at which `pat` occurs in `s`, from position `from` on.
pub fn find_from(s: &[char], pat: &[char], from: usize) -> (r: Option<usize>)
    ensures
        match r {
            Some(i) => {
                &&& from <= i
                &&& occurs_at(s@, pat@, i as int)
                &&& forall|j: int| from <= j < i ==> !#[trigger] occurs_at(s@, pat@, j)
            },
            None => forall|j: int| from <= j ==> !#[trigger] occurs_at(s@, pat@, j),
        },
{
    let mut i: usize = from;
    while i < s.len()
        invariant
            from <= i,
            forall|j: int| from <= j < i ==> !#[trigger] occurs_at(s@, pat@, j),
        decreases s@.len() - i,
    {
        if matches_at(s, pat, i) {
            return Some(i);
        }
        i = i + 1;
    }
    if matches_at(s, pat, i) {
        return Some(i);
    }
    None
}

/// Whether `pat` occurs in `s`.
pub fn chars_contain(s: &[char], pat: &str) -> (r: bool)
    ensures
        r == text_contains(s@, pat@),
{
    let p: Vec<char> = chars_of(pat);
    match find_from(s, p.as_slice(), 0) {
        Some(i) => true,
        None => false,
    }
}

/// Whether `pat` occurs in `s`.
pub fn contains_str(s: &str, pat: &str) -> (r: bool)
    ensures
        r == text_contains(s@, pat@),
{
    chars_contain(chars_of(s).as_slice(), pat)
}

/// `prefix` stands at the start of `s`.
pub open spec fn has_prefix(s: Seq<char>, prefix: Seq<char>) -> bool {
    prefix.len() <= s.len() && s.take(prefix.len() as int) == prefix
}

/// `suffix` stands at the end of `s`.
pub open spec fn has_suffix(s: Seq<char>, suffix: Seq<char>) -> bool {
    suffix.len() <= s.len() && s.skip(s.len() - suffix.len()) == suffix
}

/// What follows `prefix` in `s`, if `s` starts with it.
pub open spec fn after_prefix(s: Seq<char>, prefix: Seq<char>) -> Option<Seq<char>> {
    if has_prefix(s, prefix) {
        Some(s.skip(prefix.len() as int))
    } else {
        None
    }
}

/// What precedes `suffix` in `s`, if `s` ends with it.
pub open spec fn before_suffix(s: Seq<char>, suffix: Seq<char>) -> Option<Seq<char>> {
    if has_suffix(s, suffix) {
        Some(s.take(s.len() - suffix.len()))
    } else {
        None
    }
}

/// The view of an optional text.
pub open spec fn opt_view(s: Option<String>) -> Option<Seq<char>> {
    match s {
        Some(t) => Some(t@),
        None => None,
    }
}

/// The view of an optional text slice.
pub open spec fn opt_str_view(s: Option<&str>) -> Option<Seq<char>> {
    match s {
        Some(t) => Some(t@),
        None => None,
    }
}

/// `s` without its leading `prefix`.
pub fn strip_prefix_str(s: &str, prefix: &str) -> (r: Option<String>)
    ensures
        opt_view(r) == after_prefix(s@, prefix@),
{
    let cs: Vec<char> = chars_of(s);
    let ps: Vec<char> = chars_of(prefix);
    if matches_at(cs.as_slice(), ps.as_slice(), 0) {
        assert(s@.subrange(0, prefix@.len() as int) == s@.take(prefix@.len() as int));
        assert(s@.subrange(prefix@.len() as int, s@.len() as int) == s@.skip(prefix@.len() as int));
        Some(string_from(cs.as_slice(), ps.len(), cs.len()))
    } else {
        assert(has_prefix(s@, prefix@) ==> s@.subrange(0, prefix@.len() as int) == s@.take(
            prefix@.len() as int,
        ));
        None
    }
}

/// `s` without its trailing `suffix`.
pub fn strip_suffix_str(s: &str, suffix: &str) -> (r: Option<String>)
    ensures
        opt_view(r) == before_suffix(s@, suffix@),
{
    let cs: Vec<char> = chars_of(s);
    let ps: Vec<char> = chars_of(suffix);
    if ps.len() > cs.len() {
        return None;
    }
    let at: usize = cs.len() - ps.len();
    assert(s@.subrange(at as int, at + suffix@.len()) == s@.skip(at as int));
    assert(s@.subrange(0, at as int) == s@.take(at as int));
    if matches_at(cs.as_slice(), ps.as_slice(), at) {
        Some(string_from(cs.as_slice(), 0, at))
    } else {
        None
    }
}

/// The characters with the Unicode `White_Space` property.
pub open spec fn is_white(c: char) -> bool {
    ||| 0x09 <= c as u32 <= 0x0d
    ||| c as u32 == 0x20
    ||| c as u32 == 0x85
    ||| c as u32 == 0xa0
    ||| c as u32 == 0x1680
    ||| 0x2000 <= c as u32 <= 0x200a
    ||| c as u32 == 0x2028
    ||| c as u32 == 0x2029
    ||| c as u32 == 0x202f
    ||| c as u32 == 0x205f
    ||| c as u32 == 0x3000
}

/// Whether `c` is white space.
pub fn white(c: char) -> (r: bool)
    ensures
        r == is_white(c),
{
    let u: u32 = c as u32;
    (0x09 <= u && u <= 0x0d) || u == 0x20 || u == 0x85 || u == 0xa0 || u == 0x1680 || (0x2000 <= u
        && u <= 0x200a) || u == 0x2028 || u == 0x2029 || u == 0x202f || u == 0x205f || u == 0x3000
}

/// `s` without leading white space.
pub open spec fn trim_start(s: Seq<char>) -> Seq<char>
    decreases s.len(),
{
    if s.len() > 0 && is_white(s[0]) {
        trim_start(s.skip(1))
    } else {
        s
    }
}

/// `s` without trailing white space.
pub open spec fn trim_end(s: Seq<char>) -> Seq<char>
    decreases s.len(),
{
    if s.len() > 0 && is_white(s.last()) {
        trim_end(s.drop_last())
    } else {
        s
    }
}

/// `s` without surrounding white space.
pub open spec fn trim(s: Seq<char>) -> Seq<char> {
    trim_end(trim_start(s))
}

/// A text that starts with no white space keeps its start.
proof fn lemma_trim_end_keeps(s: Seq<char>)
    requires
        s.len() > 0,
        !is_white(s[0]),
    ensures
        trim_end(s).len() > 0,
    decreases s.len(),
{
    if is_white(s.last()) {
        assert(s.drop_last()[0] == s[0]);
        lemma_trim_end_keeps(s.drop_last());
    }
}

/// A text that starts with no white space is not blank.
pub proof fn lemma_trim_keeps(s: Seq<char>)
    requires
        s.len() > 0,
        !is_white(s[0]),
    ensures
        trim(s).len() > 0,
{
    lemma_trim_end_keeps(s);
}

/// The bounds of `s` without surrounding white space.
pub fn trim_bounds(s: &[char]) -> (r: (usize, usize))
    ensures
        r.0 <= r.1 <= s@.len(),
        s@.subrange(r.0 as int, r.1 as int) == trim(s@),
{
    let mut a: usize = 0;
    assert(s@.skip(0) == s@);
    while a < s.len() && white(s[a])
        invariant
            a <= s@.len(),
            trim_start(s@.skip(a as int)) == trim_start(s@),
        decreases s@.len() - a,
    {
        assert(s@.skip(a as int).skip(1) == s@.skip(a + 1));
        assert(s@.skip(a as int)[0] == s@[a as int]);
        a = a + 1;
    }
    assert(trim_start(s@) == s@.skip(a as int)) by {
        if a < s@.len() {
            assert(s@.skip(a as int)[0] == s@[a as int]);
        }
    }
    let mut b: usize = s.len();
    assert(s@.subrange(a as int, b as int) == s@.skip(a as int));
    while b > a && white(s[b - 1])
        invariant
            a <= b <= s@.len(),
            trim_end(s@.subrange(a as int, b as int)) == trim(s@),
        decreases b - a,
    {
        assert(s@.subrange(a as int, b as int).drop_last() == s@.subrange(a as int, b - 1));
        assert(s@.subrange(a as int, b as int).last() == s@[b - 1]);
        b = b - 1;
    }
    proof {
        let t = s@.subrange(a as int, b as int);
        if t.len() > 0 {
            assert(t.last() == s@[b - 1]);
        }
    }
    (a, b)
}

/// `s` without surrounding white space.
pub fn trim_str(s: &str) -> (r: String)
    ensures
        r@ == trim(s@),
{
    let cs: Vec<char> = chars_of(s);
    let (a, b) = trim_bounds(cs.as_slice());
    string_from(cs.as_slice(), a, b)
}

/// Whether nothing is left of `s` once white space is trimmed.
pub fn is_blank(s: &str) -> (r: bool)
    ensures
        r == (trim(s@).len() == 0),
{
    let cs: Vec<char> = chars_of(s);
    let (a, b) = trim_bounds(cs.as_slice());
    a == b
}

/// `s` without its trailing run of the character `c`.
pub open spec fn trim_end_char(s: Seq<char>, c: char) -> Seq<char>
    decreases s.len(),
{
    if s.len() > 0 && s.last() == c {
        trim_end_char(s.drop_last(), c)
    } else {
        s
    }
}

/// `s` without its trailing run of the character `c`.
pub fn trim_end_matches_char(s: &str, c: char) -> (r: String)
    ensures
        r@ == trim_end_char(s@, c),
{
    let cs: Vec<char> = chars_of(s);
    let mut b: usize = cs.len();
    assert(s@.take(b as int) == s@);
    while b > 0 && cs[b - 1] == c
        invariant
            b <= cs@.len(),
            cs@ == s@,
            trim_end_char(s@.take(b as int), c) == trim_end_char(s@, c),
        decreases b,
    {
        assert(s@.take(b as int).drop_last() == s@.take(b - 1));
        assert(s@.take(b as int).last() == s@[b - 1]);
        b = b - 1;
    }
    assert(s@.take(b as int) == s@.subrange(0, b as int));
    proof {
        if b > 0 {
            assert(s@.take(b as int).last() == s@[b - 1]);
        }
    }
    string_from(cs.as_slice(), 0, b)
}

/// The ASCII lower case of one character.
pub open spec fn lower_char(c: char) -> char {
    if 'A' <= c && c <= 'Z' {
        ((c as u8) + 32) as char
    } else {
        c
    }
}

/// The ASCII lower case of `s`.
pub open spec fn ascii_lower(s: Seq<char>) -> Seq<char> {
    s.map_values(|c: char| lower_char(c))
}

/// The ASCII lower case of one character.
pub fn lower(c: char) -> (r: char)
    ensures
        r == lower_char(c),
{
    if 'A' <= c && c <= 'Z' {
        ((c as u8) + 32) as char
    } else {
        c
    }
}

/// The ASCII lower case of `s`.
pub fn ascii_lower_chars(s: &str) -> (r: Vec<char>)
    ensures
        r@ == ascii_lower(s@),
{
    let cs: Vec<char> = chars_of(s);
    let mut out: Vec<char> = Vec::new();
    let mut i: usize = 0;
    while i < cs.len()
        invariant
            i <= cs@.len(),
            out@ == ascii_lower(cs@.take(i as int)),
        decreases cs@.len() - i,
    {
        out.push(lower(cs[i]));
        i = i + 1;
        assert(ascii_lower(cs@.take(i as int)) == ascii_lower(cs@.take(i - 1)).push(
            lower_char(cs@[i - 1]),
        ));
    }
    assert(cs@.take(cs@.len() as int) == cs@);
    out
}

/// The position of the first `c` in `s`, or the length of `s`.
pub open spec fn first_index(s: Seq<char>, c: char) -> nat
    decreases s.len(),
{
    if s.len() == 0 || s[0] == c {
        0
    } else {
        1 + first_index(s.skip(1), c)
    }
}

/// The fields of `s` between separators `c`; a text without one is its only field.
pub open spec fn split_char(s: Seq<char>, c: char) -> Seq<Seq<char>>
    decreases s.len(),
{
    let i = first_index(s, c);
    if i >= s.len() {
        seq![s]
    } else {
        seq![s.take(i as int)] + split_char(s.skip(i as int + 1), c)
    }
}

/// What stands before and after the first `c` in `s`, if there is one.
pub open spec fn split_once_char(s: Seq<char>, c: char) -> Option<(Seq<char>, Seq<char>)> {
    let i = first_index(s, c);
    if i >= s.len() {
        None
    } else {
        Some((s.take(i as int), s.skip(i as int + 1)))
    }
}

/// `first_index` is the least position that holds `c`.
pub proof fn lemma_first_index(s: Seq<char>, c: char)
    ensures
        first_index(s, c) <= s.len(),
        first_index(s, c) < s.len() ==> s[first_index(s, c) as int] == c,
        forall|j: int| 0 <= j < first_index(s, c) ==> s[j] != c,
    decreases s.len(),
{
    if s.len() == 0 || s[0] == c {
    } else {
        lemma_first_index(s.skip(1), c);
        let k = first_index(s.skip(1), c);
        assert forall|j: int| 0 <= j < k + 1 implies s[j] != c by {
            if j > 0 {
                assert(s[j] == s.skip(1)[j - 1]);
            }
        }
        if k < s.skip(1).len() {
            assert(s.skip(1)[k as int] == s[k as int + 1]);
        }
    }
}

/// A position before which no `c` stands, and which holds `c` or is the end, is
/// `first_index`.
pub proof fn lemma_first_index_unique(s: Seq<char>, c: char, i: int)
    requires
        0 <= i <= s.len(),
        forall|j: int| 0 <= j < i ==> s[j] != c,
        i < s.len() ==> s[i] == c,
    ensures
        first_index(s, c) == i,
{
    lemma_first_index(s, c);
    let k = first_index(s, c) as int;
    if k < i {
        assert(s[k] != c);
    }
    if i < k {
        assert(s[i] != c);
    }
}

/// The first position of `c` in `s` from `from` on, or the length of `s`.
pub fn index_of(s: &[char], c: char, from: usize) -> (r: usize)
    requires
        from <= s@.len(),
    ensures
        from <= r <= s@.len(),
        r - from == first_index(s@.skip(from as int), c),
{
    let mut i: usize = from;
    while i < s.len() && s[i] != c
        invariant
            from <= i <= s@.len(),
            forall|j: int| from <= j < i ==> s@[j] != c,
        decreases s@.len() - i,
    {
        i = i + 1;
    }
    proof {
        let t = s@.skip(from as int);
        assert forall|j: int| 0 <= j < i - from implies t[j] != c by {
            assert(t[j] == s@[from + j]);
        }
        if i < s@.len() {
            assert(t[i - from] == s@[i as int]);
        }
        lemma_first_index_unique(t, c, i - from);
    }
    i
}

/// The views of a list of texts.
pub open spec fn views(v: Seq<String>) -> Seq<Seq<char>> {
    v.map_values(|t: String| t@)
}

/// The fields of `s` between separators `c`.
pub fn split_on(s: &str, c: char) -> (r: Vec<String>)
    ensures
        views(r@) == split_char(s@, c),
{
    let cs: Vec<char> = chars_of(s);
    let mut out: Vec<String> = Vec::new();
    let mut from: usize = 0;
    assert(s@.skip(0) == s@);
    assert(views(out@) + split_char(s@, c) == split_char(s@, c));
    loop
        invariant
            cs@ == s@,
            from <= cs@.len(),
            views(out@) + split_char(cs@.skip(from as int), c) == split_char(s@, c),
        decreases cs@.len() - from,
    {
        let i: usize = index_of(cs.as_slice(), c, from);
        let ghost rest = cs@.skip(from as int);
        let ghost before = out@;
        let field: String = string_from(cs.as_slice(), from, i);
        out.push(field);
        assert(views(out@) == views(before).push(field@));
        if i >= cs.len() {
            assert(field@ == rest);
            assert(views(out@) == views(before) + seq![rest]);
            return out;
        }
        proof {
            assert(field@ == rest.take(i - from));
            assert(rest.skip(i - from + 1) == cs@.skip(i + 1));
            assert(views(out@) + split_char(cs@.skip(i + 1), c) == views(before) + (seq![field@]
                + split_char(cs@.skip(i + 1), c)));
        }
        from = i + 1;
    }
}

/// What stands before and after the first `c` in `s`.
pub fn split_once_on(s: &str, c: char) -> (r: Option<(String, String)>)
    ensures
        match r {
            Some((a, b)) => split_once_char(s@, c) == Some((a@, b@)),
            None => split_once_char(s@, c) is None,
        },
{
    let cs: Vec<char> = chars_of(s);
    assert(s@.skip(0) == s@);
    let i: usize = index_of(cs.as_slice(), c, 0);
    if i >= cs.len() {
        None
    } else {
        assert(s@.take(i as int) == s@.subrange(0, i as int));
        assert(s@.skip(i + 1) == s@.subrange(i + 1, s@.len() as int));
        Some((string_from(cs.as_slice(), 0, i), string_from(cs.as_slice(), i + 1, cs.len())))
    }
}

/// The decimal digit of `d`, for `d` below ten.
pub open spec fn digit_char(d: nat) -> char {
    (48 + d) as u8 as char
}

/// The decimal notation of `n`.
pub open spec fn decimal(n: nat) -> Seq<char>
    decreases n,
{
    if n < 10 {
        seq![digit_char(n)]
    } else {
        decimal(n / 10).push(digit_char(n % 10))
    }
}

/// Appends the decimal notation of `n` to `out`.
pub fn push_decimal(out: &mut String, n: u64)
    ensures
        final(out)@ == old(out)@ + decimal(n as nat),
    decreases n,
{
    if n < 10 {
        out.push((48u8 + n as u8) as char);
        assert(old(out)@.push(digit_char(n as nat)) == old(out)@ + seq![digit_char(n as nat)]);
    } else {
        push_decimal(out, n / 10);
        let ghost mid = out@;
        out.push((48u8 + (n % 10) as u8) as char);
        assert(mid.push(digit_char((n % 10) as nat)) == old(out)@ + decimal((n / 10) as nat).push(
            digit_char((n % 10) as nat),
        ));
    }
}

/// The decimal notation of `n`.
pub fn decimal_of(n: u64) -> (r: String)
    ensures
        r@ == decimal(n as nat),
{
    let mut out: String = String::new();
    push_decimal(&mut out, n);
    assert(Seq::<char>::empty() + decimal(n as nat) == decimal(n as nat));
    out
}

/// The lower-case hexadecimal digit of `d`, for `d` below sixteen.
pub open spec fn hex_char(d: nat) -> char {
    if d < 10 {
        (48 + d) as u8 as char
    } else {
        (97 + (d - 10)) as u8 as char
    }
}

/// Two lower-case hexadecimal digits per byte.
pub open spec fn hex(bytes: Seq<u8>) -> Seq<char>
    decreases bytes.len(),
{
    if bytes.len() == 0 {
        seq![]
    } else {
        hex(bytes.drop_last()).push(hex_char((bytes.last() / 16) as nat)).push(
            hex_char((bytes.last() % 16) as nat),
        )
    }
}

fn hex_digit(d: u8) -> (r: char)
    requires
        d < 16,
    ensures
        r == hex_char(d as nat),
{
    if d < 10 {
        (48u8 + d) as char
    } else {
        (97u8 + (d - 10)) as char
    }
}

/// Two lower-case hexadecimal digits per byte.
pub fn hex_of(bytes: &[u8]) -> (r: String)
    ensures
        r@ == hex(bytes@),
{
    let mut out: String = String::new();
    let mut i: usize = 0;
    while i < bytes.len()
        invariant
            i <= bytes@.len(),
            out@ == hex(bytes@.take(i as int)),
        decreases bytes@.len() - i,
    {
        let b: u8 = bytes[i];
        out.push(hex_digit(b / 16));
        out.push(hex_digit(b % 16));
        i = i + 1;
        assert(bytes@.take(i as int).drop_last() == bytes@.take(i - 1));
    }
    assert(bytes@.take(bytes@.len() as int) == bytes@);
    out
}

/// `a` stands before `b` in the order of their characters' code points, which is also
/// the order of their UTF-8 bytes.
pub open spec fn lex_before(a: Seq<char>, b: Seq<char>) -> bool
    decreases a.len(),
{
    if b.len() == 0 {
        false
    } else if a.len() == 0 {
        true
    } else if a[0] != b[0] {
        (a[0] as u32) < (b[0] as u32)
    } else {
        lex_before(a.skip(1), b.skip(1))
    }
}

proof fn lemma_code_points_differ(a: char, b: char)
    requires
        a != b,
    ensures
        a as u32 != b as u32,
{
}

/// No text stands before itself, and of two different texts one stands before the
/// other.
pub proof fn lemma_lex_total(a: Seq<char>, b: Seq<char>)
    ensures
        !(lex_before(a, b) && lex_before(b, a)),
        lex_before(a, b) ==> a != b,
        a != b ==> lex_before(a, b) || lex_before(b, a),
    decreases a.len(),
{
    if a.len() > 0 && b.len() > 0 {
        if a[0] == b[0] {
            lemma_lex_total(a.skip(1), b.skip(1));
            if a.skip(1) == b.skip(1) {
                assert(a == seq![a[0]] + a.skip(1));
                assert(b == seq![b[0]] + b.skip(1));
            }
        } else {
            lemma_code_points_differ(a[0], b[0]);
        }
    } else if a.len() == 0 && b.len() == 0 {
        assert(a == b);
    }
}

/// The order of texts is transitive.
pub proof fn lemma_lex_transitive(a: Seq<char>, b: Seq<char>, c: Seq<char>)
    requires
        lex_before(a, b),
        lex_before(b, c),
    ensures
        lex_before(a, c),
    decreases a.len(),
{
    if a.len() > 0 && a[0] == b[0] && b[0] == c[0] {
        lemma_lex_transitive(a.skip(1), b.skip(1), c.skip(1));
    }
}

/// Whether the characters `a` stand before the characters `b`.
pub fn chars_before(a: &[char], b: &[char]) -> (r: bool)
    ensures
        r == lex_before(a@, b@),
{
    let mut i: usize = 0;
    assert(a@.skip(0) == a@ && b@.skip(0) == b@);
    while i < a.len() && i < b.len()
        invariant
            i <= a@.len(),
            i <= b@.len(),
            lex_before(a@.skip(i as int), b@.skip(i as int)) == lex_before(a@, b@),
        decreases a@.len() - i,
    {
        let ghost x = a@.skip(i as int);
        let ghost y = b@.skip(i as int);
        assert(x[0] == a@[i as int] && y[0] == b@[i as int]);
        if a[i] != b[i] {
            return (a[i] as u32) < (b[i] as u32);
        }
        assert(x.skip(1) == a@.skip(i + 1) && y.skip(1) == b@.skip(i + 1));
        i = i + 1;
    }
    i < b.len()
}

/// Whether the text `a` stands before the text `b`.
pub fn str_before(a: &str, b: &str) -> (r: bool)
    ensures
        r == lex_before(a@, b@),
{
    chars_before(chars_of(a).as_slice(), chars_of(b).as_slice())
}

/// What is trimmed off the start of a text is white space, and all of it that stands there.
proof fn lemma_trim_start_cuts(s: Seq<char>) -> (a: int)
    ensures
        0 <= a <= s.len(),
        trim_start(s) == s.skip(a),
        forall|i: int| 0 <= i < a ==> is_white(#[trigger] s[i]),
        a < s.len() ==> !is_white(s[a]),
    decreases s.len(),
{
    if s.len() > 0 && is_white(s[0]) {
        let a = lemma_trim_start_cuts(s.skip(1));
        assert(s.skip(1).skip(a) == s.skip(a + 1));
        assert forall|i: int| 0 <= i < a + 1 implies is_white(#[trigger] s[i]) by {
            if i > 0 {
                assert(s.skip(1)[i - 1] == s[i]);
            }
        }
        a + 1
    } else {
        assert(s.skip(0) == s);
        0
    }
}

/// What is trimmed off the end of a text is white space, and all of it that stands there.
proof fn lemma_trim_end_cuts(s: Seq<char>) -> (b: int)
    ensures
        0 <= b <= s.len(),
        trim_end(s) == s.take(b),
        forall|i: int| b <= i < s.len() ==> is_white(#[trigger] s[i]),
        b > 0 ==> !is_white(s[b - 1]),
    decreases s.len(),
{
    if s.len() > 0 && is_white(s.last()) {
        let b = lemma_trim_end_cuts(s.drop_last());
        assert(s.drop_last().take(b) == s.take(b));
        assert forall|i: int| b <= i < s.len() implies is_white(#[trigger] s[i]) by {
            if i < s.len() - 1 {
                assert(s.drop_last()[i] == s[i]);
            }
        }
        b
    } else {
        assert(s.take(s.len() as int) == s);
        s.len() as int
    }
}

/// Trimming takes white space off both ends, all of it, and nothing else.
pub proof fn law_trimming_takes_only_white_space(s: &str, r: String)
    requires
        call_ensures(trim_str, (s,), r),
    ensures
        exists|a: int, b: int|
            {
                &&& 0 <= a <= b <= s@.len()
                &&& #[trigger] s@.subrange(a, b) == r@
                &&& forall|i: int|
                    0 <= i < a || b <= i < s@.len() ==> is_white(#[trigger] s@[i])
            },
        r@.len() > 0 ==> !is_white(r@[0]) && !is_white(r@.last()),
{
    let a = lemma_trim_start_cuts(s@);
    let t = s@.skip(a);
    let n = lemma_trim_end_cuts(t);
    assert(t.take(n) == s@.subrange(a, a + n));
    assert forall|i: int| 0 <= i < a || a + n <= i < s@.len() implies is_white(
        #[trigger] s@[i],
    ) by {
        if i >= a {
            assert(t[i - a] == s@[i]);
        }
    }
    if r@.len() > 0 {
        assert(r@[0] == s@[a]);
        assert(r@.last() == t[n - 1]);
    }
}

/// A blank, a tab and the ends of a line are white space; letters, digits and marks of
/// ASCII are not.
pub proof fn law_white_space_shows_nothing(c: char, r: bool)
    requires
        call_ensures(white, (c,), r),
    ensures
        c == ' ' || c == '\t' || c == '\n' || c == '\r' ==> r,
        0x21 <= c as u32 <= 0x7e ==> !r,
{
}

/// Lower case changes the letters from A to Z alone, each into the small letter at the
/// same place of the alphabet.
pub proof fn law_lower_case_keeps_places(s: &str, r: Vec<char>, i: int)
    requires
        call_ensures(ascii_lower_chars, (s,), r),
        0 <= i < s@.len(),
    ensures
        r@.len() == s@.len(),
        'A' <= s@[i] && s@[i] <= 'Z' ==> 'a' <= r@[i] && r@[i] <= 'z' && r@[i] as u32 - 'a' as u32
            == s@[i] as u32 - 'A' as u32,
        !('A' <= s@[i] && s@[i] <= 'Z') ==> r@[i] == s@[i],
{
    assert(r@[i] == lower_char(s@[i]));
}

/// Fields with a separator between each two.
pub open spec fn between_fields(fields: Seq<Seq<char>>, c: char) -> Seq<char>
    decreases fields.len(),
{
    if fields.len() <= 1 {
        fields.flatten()
    } else {
        fields[0] + seq![c] + between_fields(fields.skip(1), c)
    }
}

/// The fields of a text hold no separator, and with separators between them they make
/// the text.
proof fn lemma_fields_make_the_text(s: Seq<char>, c: char)
    ensures
        split_char(s, c).len() > 0,
        between_fields(split_char(s, c), c) == s,
        forall|i: int| 0 <= i < split_char(s, c).len() ==> !(#[trigger] split_char(s, c)[i]).contains(c),
    decreases s.len(),
{
    lemma_first_index(s, c);
    let k = first_index(s, c) as int;
    let all = split_char(s, c);
    if k >= s.len() {
        assert(all == seq![s]);
        assert(all.drop_first() == Seq::<Seq<char>>::empty());
        reveal_with_fuel(Seq::flatten, 2);
        assert(all.flatten() == s);
    } else {
        let rest = s.skip(k + 1);
        lemma_fields_make_the_text(rest, c);
        assert(all.skip(1) == split_char(rest, c));
        assert(all[0] == s.take(k));
        assert(s.take(k) + seq![c] + rest == s);
        assert forall|i: int| 0 <= i < all.len() implies !(#[trigger] all[i]).contains(c) by {
            if i > 0 {
                assert(all[i] == split_char(rest, c)[i - 1]);
            }
        }
    }
}

/// Splitting a text loses nothing: the fields with the separator between each two are the
/// text again, and no field holds the separator.
pub proof fn law_fields_make_the_text(s: &str, c: char, r: Vec<String>)
    requires
        call_ensures(split_on, (s, c), r),
    ensures
        r@.len() > 0,
        between_fields(views(r@), c) == s@,
        forall|i: int| 0 <= i < r@.len() ==> !(#[trigger] r@[i])@.contains(c),
{
    lemma_fields_make_the_text(s@, c);
    assert forall|i: int| 0 <= i < r@.len() implies !(#[trigger] r@[i])@.contains(c) by {
        assert(views(r@)[i] == r@[i]@);
    }
}

/// A text without its prefix gives the text again behind the prefix, and there is such a
/// text exactly where the prefix stands at the start.
pub proof fn law_prefixes_go_back_on(s: &str, prefix: &str, r: Option<String>, rest: Seq<char>)
    requires
        call_ensures(strip_prefix_str, (s, prefix), r),
    ensures
        r is Some ==> prefix@ + r->0@ == s@,
        s@ == prefix@ + rest ==> r is Some && r->0@ == rest,
{
    if s@ == prefix@ + rest {
        assert(s@.take(prefix@.len() as int) == prefix@);
        assert(s@.skip(prefix@.len() as int) == rest);
    }
    if r is Some {
        assert(s@.take(prefix@.len() as int) + s@.skip(prefix@.len() as int) == s@);
    }
}

/// A text without its suffix gives the text again before the suffix, and there is such a
/// text exactly where the suffix stands at the end.
pub proof fn law_suffixes_go_back_on(s: &str, suffix: &str, r: Option<String>, rest: Seq<char>)
    requires
        call_ensures(strip_suffix_str, (s, suffix), r),
    ensures
        r is Some ==> r->0@ + suffix@ == s@,
        s@ == rest + suffix@ ==> r is Some && r->0@ == rest,
{
    let n = s@.len() - suffix@.len();
    if s@ == rest + suffix@ {
        assert(s@.skip(n) == suffix@);
        assert(s@.take(n) == rest);
    }
    if r is Some {
        assert(s@.take(n) + s@.skip(n) == s@);
    }
}

/// A text has a part exactly where it is something, the part, and something.
pub proof fn law_parts_stand_inside(s: &str, pat: &str, r: bool, before: Seq<char>, after: Seq<char>)
    requires
        call_ensures(contains_str, (s, pat), r),
    ensures
        s@ == before + pat@ + after ==> r,
        r ==> exists|i: int|
            0 <= i <= i + pat@.len() <= s@.len() && #[trigger] s@.subrange(i, i + pat@.len())
                == pat@,
{
    if s@ == before + pat@ + after {
        let i = before.len() as int;
        assert(s@.subrange(i, i + pat@.len()) == pat@);
        assert(occurs_at(s@, pat@, i));
    }
    if r {
        let i = choose|i: int| occurs_at(s@, pat@, i);
        assert(s@.subrange(i, i + pat@.len()) == pat@);
    }
}


/// The value of a run of decimal digits.
pub open spec fn digits_value(s: Seq<char>) -> nat
    decreases s.len(),
{
    if s.len() == 0 {
        0
    } else {
        (digits_value(s.drop_last()) * 10 + (s.last() as u32 - '0' as u32)) as nat
    }
}

proof fn lemma_decimal_value(n: nat)
    ensures
        decimal(n).len() > 0,
        digits_value(decimal(n)) == n,
        forall|i: int| 0 <= i < decimal(n).len() ==> '0' <= (#[trigger] decimal(n)[i]) <= '9',
        n > 0 ==> decimal(n)[0] != '0',
    decreases n,
{
    let d = decimal(n);
    if n >= 10 {
        lemma_decimal_value(n / 10);
        assert(d.drop_last() == decimal(n / 10));
    } else {
        reveal_with_fuel(digits_value, 2);
        assert(d.drop_last() == Seq::<char>::empty());
    }
}

/// The notation of a number is made of digits, without a zero in front, and its value is
/// the number.
pub proof fn law_numbers_are_written_in_digits(n: u64, r: String)
    requires
        call_ensures(decimal_of, (n,), r),
    ensures
        r@.len() > 0,
        digits_value(r@) == n,
        forall|i: int| 0 <= i < r@.len() ==> '0' <= (#[trigger] r@[i]) <= '9',
        n > 0 ==> r@[0] != '0',
{
    lemma_decimal_value(n as nat);
}

/// A text is split at the first separator, and the two parts with it between them are the
/// text again.
pub proof fn law_splits_are_at_the_first_separator(
    s: &str,
    c: char,
    r: Option<(String, String)>,
)
    requires
        call_ensures(split_once_on, (s, c), r),
    ensures
        r is None <==> !s@.contains(c),
        r matches Some((a, b)) ==> s@ == a@.push(c) + b@ && !a@.contains(c),
{
    lemma_first_index(s@, c);
    let i = first_index(s@, c) as int;
    if i < s@.len() {
        assert(s@.contains(s@[i]));
        assert(s@ == s@.take(i).push(c) + s@.skip(i + 1));
    }
}

/// The order of texts goes by their first difference; a text stands before every longer
/// one that starts with it.
pub proof fn law_texts_are_ordered_by_their_first_difference(
    a: &str,
    b: &str,
    r: bool,
    k: int,
)
    requires
        call_ensures(str_before, (a, b), r),
        0 <= k <= a@.len(),
        k <= b@.len(),
        a@.take(k) == b@.take(k),
    ensures
        k < a@.len() && k < b@.len() && (a@[k] as u32) < (b@[k] as u32) ==> r,
        k < a@.len() && k < b@.len() && (a@[k] as u32) > (b@[k] as u32) ==> !r,
        k == a@.len() && k < b@.len() ==> r,
        k == b@.len() ==> !r,
{
    lemma_lex_from(a@, b@, k);
}

proof fn lemma_lex_from(a: Seq<char>, b: Seq<char>, k: int)
    requires
        0 <= k <= a.len(),
        k <= b.len(),
        a.take(k) == b.take(k),
    ensures
        lex_before(a, b) == lex_before(a.skip(k), b.skip(k)),
    decreases k,
{
    if k == 0 {
        assert(a.skip(0) == a && b.skip(0) == b);
    } else {
        assert(a[0] == a.take(k)[0] && b[0] == b.take(k)[0]);
        let x = a.skip(1);
        let y = b.skip(1);
        assert(x.take(k - 1) == a.take(k).skip(1));
        assert(y.take(k - 1) == b.take(k).skip(1));
        lemma_lex_from(x, y, k - 1);
        assert(x.skip(k - 1) == a.skip(k));
        assert(y.skip(k - 1) == b.skip(k));
    }
}


} // verus!

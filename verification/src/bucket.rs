//! Prefix bucketing: a pass that groups lines by shared prompt prefix, so that an
//! engine's prefix cache stays hot.
//!
//! Each line is hashed by its model and the start of its prompt into one of a few
//! buckets, and the buckets are put one after the other. Lines with the same prefix
//! always land together; a hash collision merely puts two prefixes side by side. A line
//! that has no key goes to a last bucket, so that nothing is lost.

use vstd::prelude::*;

use crate::json::{json_parse, list_view, parse_json, Json, JsonView};
use crate::text::{
    blank, chars_of, decode, is_blank, opt_view, raw_views, str_eq, string_from, text_of,
};

verus! {

/// How many leading characters of the prompt feed the key.
pub const PREFIX_CHARS: usize = 256;

/// Upper bound on the number of buckets.
pub const MAX_BUCKETS: usize = 256;

/// Outcome of a bucketing pass.
#[derive(Debug, Clone, Copy, PartialEq, Eq)]
pub struct BucketStats {
    /// Lines that were placed.
    pub lines: u64,
    /// Buckets that hold a line.
    pub buckets_used: usize,
}

impl Default for BucketStats {
    fn default() -> (s: Self)
        ensures
            s.lines == 0,
            s.buckets_used == 0,
    {
        BucketStats { lines: 0, buckets_used: 0 }
    }
}

/// The message has the role.
pub open spec fn has_role(m: JsonView, role: Seq<char>) -> bool {
    m.str_at("role"@) == Some(role)
}

/// The first message with the role.
pub open spec fn first_with_role(msgs: Seq<JsonView>, role: Seq<char>) -> Option<JsonView>
    decreases msgs.len(),
{
    if msgs.len() == 0 {
        None
    } else if has_role(msgs[0], role) {
        Some(msgs[0])
    } else {
        first_with_role(msgs.skip(1), role)
    }
}

/// The message whose content is the shared prefix: the system message, else the first
/// user message, else the first of all.
pub open spec fn prefix_message(msgs: Seq<JsonView>) -> Option<JsonView> {
    match first_with_role(msgs, "system"@) {
        Some(m) => Some(m),
        None => match first_with_role(msgs, "user"@) {
            Some(m) => Some(m),
            None => if msgs.len() > 0 {
                Some(msgs[0])
            } else {
                None
            },
        },
    }
}

/// The first characters of a text.
pub open spec fn leading(s: Seq<char>) -> Seq<char> {
    if s.len() <= PREFIX_CHARS {
        s
    } else {
        s.take(PREFIX_CHARS as int)
    }
}

/// A text that may be missing, as an empty one.
pub open spec fn or_empty(s: Option<Seq<char>>) -> Seq<char> {
    match s {
        Some(t) => t,
        None => Seq::empty(),
    }
}

/// The prompt prefix of a request body.
pub open spec fn prompt_prefix(body: JsonView) -> Seq<char> {
    match body.array_at("messages"@) {
        Some(msgs) => match prefix_message(msgs) {
            Some(m) => leading(or_empty(m.str_at("content"@))),
            None => Seq::empty(),
        },
        None => match body.str_at("input"@) {
            Some(t) => leading(t),
            None => leading(or_empty(body.str_at("prompt"@))),
        },
    }
}

/// The key of a parsed line: its model and its prompt prefix.
pub open spec fn key_in(parsed: Option<JsonView>) -> Option<Seq<char>> {
    match parsed {
        Some(v) => match v.get("body"@) {
            Some(body) => Some(
                or_empty(body.str_at("model"@)) + seq!['\u{0}'] + prompt_prefix(body),
            ),
            None => None,
        },
        None => None,
    }
}

/// The first message with the role.
fn find_role<'a>(msgs: &'a Vec<Json>, role: &str) -> (r: Option<&'a Json>)
    ensures
        match r {
            Some(m) => first_with_role(list_view(msgs@), role@) == Some(m@),
            None => first_with_role(list_view(msgs@), role@) is None,
        },
{
    let ghost all = list_view(msgs@);
    let mut i: usize = 0;
    assert(all.skip(0) == all);
    while i < msgs.len()
        invariant
            i <= msgs@.len(),
            all == list_view(msgs@),
            first_with_role(all, role@) == first_with_role(all.skip(i as int), role@),
        decreases msgs@.len() - i,
    {
        proof {
            assert(all.skip(i as int)[0] == msgs@[i as int]@);
            assert(all.skip(i as int).skip(1) == all.skip(i + 1));
        }
        if let Some(t) = msgs[i].str_at("role") {
            if str_eq(t, role) {
                return Some(&msgs[i]);
            }
        }
        i = i + 1;
    }
    None
}

/// The first characters of a text that may be missing.
fn lead(s: Option<&str>) -> (r: String)
    ensures
        r@ == leading(
            or_empty(
                match s {
                    Some(t) => Some(t@),
                    None => None,
                },
            ),
        ),
{
    match s {
        Some(t) => {
            let cs: Vec<char> = chars_of(t);
            let n: usize = if cs.len() <= PREFIX_CHARS {
                cs.len()
            } else {
                PREFIX_CHARS
            };
            assert(cs@.subrange(0, n as int) == leading(t@));
            string_from(&cs, 0, n)
        },
        None => String::new(),
    }
}

/// The prompt prefix of a request body.
fn prefix_of(body: &Json) -> (r: String)
    ensures
        r@ == prompt_prefix(body@),
{
    let msgs: Option<&Vec<Json>> = match body.get("messages") {
        Some(m) => m.as_array(),
        None => None,
    };
    match msgs {
        Some(msgs) => {
            let found: Option<&Json> = match find_role(msgs, "system") {
                Some(m) => Some(m),
                None => match find_role(msgs, "user") {
                    Some(m) => Some(m),
                    None => if msgs.len() > 0 {
                        Some(&msgs[0])
                    } else {
                        None
                    },
                },
            };
            match found {
                Some(m) => lead(m.str_at("content")),
                None => String::new(),
            }
        },
        None => match body.str_at("input") {
            Some(t) => lead(Some(t)),
            None => lead(body.str_at("prompt")),
        },
    }
}

/// The key of a parsed line.
pub fn key_of_json(parsed: &Option<Json>) -> (r: Option<String>)
    ensures
        opt_view(r) == key_in(
            match parsed {
                Some(j) => Some(j@),
                None => None,
            },
        ),
{
    match parsed {
        Some(v) => match v.get("body") {
            Some(body) => {
                let mut key: String = match body.str_at("model") {
                    Some(t) => t.to_owned(),
                    None => String::new(),
                };
                let ghost model = key@;
                key.push('\u{0}');
                let prefix: String = prefix_of(body);
                key.append(prefix.as_str());
                assert(model.push('\u{0}') + prefix@ == model + seq!['\u{0}'] + prefix@);
                Some(key)
            },
            None => None,
        },
        None => None,
    }
}

/// The key of a line; nothing for one that cannot be read enough to key it.
pub fn bucket_key(line: &str) -> (r: Option<String>)
    ensures
        opt_view(r) == key_in(json_parse(line@).ok()),
{
    let parsed: Option<Json> = match parse_json(line) {
        Ok(j) => Some(j),
        Err(_) => None,
    };
    key_of_json(&parsed)
}

/// One step of the 64-bit FNV-1a hash.
pub open spec fn fnv_step(h: u64, b: u8) -> u64 {
    (((h ^ (b as u64)) * 0x100000001b3) % 0x1_0000_0000_0000_0000) as u64
}

/// The 64-bit FNV-1a hash of bytes.
pub open spec fn fnv(bytes: Seq<u8>) -> u64
    decreases bytes.len(),
{
    if bytes.len() == 0 {
        0xcbf29ce484222325
    } else {
        fnv_step(fnv(bytes.drop_last()), bytes.last())
    }
}

/// The bucket of a key: its FNV-1a hash over its bytes, modulo the number of buckets.
pub fn bucket_of(key: &str, buckets: usize) -> (r: usize)
    requires
        buckets > 0,
    ensures
        r == fnv(vstd::utf8::encode_utf8(key@)) % (buckets as u64),
        r < buckets,
{
    let bytes: &[u8] = key.as_bytes();
    let mut h: u64 = 0xcbf29ce484222325;
    let mut i: usize = 0;
    assert(bytes@.take(0) == Seq::<u8>::empty());
    while i < bytes.len()
        invariant
            i <= bytes@.len(),
            h == fnv(bytes@.take(i as int)),
        decreases bytes@.len() - i,
    {
        proof {
            assert(bytes@.take(i + 1).drop_last() == bytes@.take(i as int));
        }
        h = (h ^ (bytes[i] as u64)).wrapping_mul(0x100000001b3);
        i = i + 1;
    }
    assert(bytes@.take(bytes@.len() as int) == bytes@);
    (h % (buckets as u64)) as usize
}

/// The number of buckets used for a request of `buckets`.
pub open spec fn clamped(buckets: nat) -> nat {
    if buckets < 1 {
        1
    } else if buckets > MAX_BUCKETS {
        MAX_BUCKETS as nat
    } else {
        buckets
    }
}

/// The bucket of a key among `buckets`; lines without a key go to the one behind all
/// others.
pub open spec fn place_of(key: Option<Seq<char>>, buckets: nat) -> nat {
    match key {
        Some(k) => fnv(vstd::utf8::encode_utf8(k)) as nat % buckets,
        None => buckets,
    }
}

/// The key of a raw line. One that is no UTF-8 has none.
pub open spec fn key_of_raw(raw: Seq<u8>) -> Option<Seq<char>> {
    match text_of(raw) {
        Some(line) => key_in(json_parse(line).ok()),
        None => None,
    }
}

/// The bucket of a line.
pub open spec fn line_place(raw: Seq<u8>, buckets: nat) -> nat {
    place_of(key_of_raw(raw), buckets)
}

/// The bucket of a line.
pub fn place_line(raw: &[u8], buckets: usize) -> (r: usize)
    requires
        buckets > 0,
    ensures
        r == line_place(raw@, buckets as nat),
        r <= buckets,
{
    let key: Option<String> = match decode(raw) {
        Some(line) => bucket_key(line.as_str()),
        None => None,
    };
    match key {
        Some(key) => bucket_of(key.as_str(), buckets),
        None => buckets,
    }
}

/// How many of the flags are set.
pub open spec fn count_set(flags: Seq<bool>) -> nat
    decreases flags.len(),
{
    if flags.len() == 0 {
        0
    } else {
        count_set(flags.drop_last()) + if flags.last() {
            1nat
        } else {
            0nat
        }
    }
}

/// A pass in progress: which buckets hold a line, and how many lines were placed.
pub struct Buckets {
    buckets: usize,
    used: Vec<bool>,
    lines: u64,
}

impl Buckets {
    /// The number of buckets for lines with a key.
    pub closed spec fn spec_buckets(self) -> nat {
        self.buckets as nat
    }

    /// Which buckets hold a line; the last is for lines without a key.
    pub closed spec fn spec_used(self) -> Seq<bool> {
        self.used@
    }

    /// The lines placed.
    pub closed spec fn spec_lines(self) -> nat {
        self.lines as nat
    }

    /// There is a flag for every bucket.
    pub open spec fn wf(self) -> bool {
        &&& 0 < self.spec_buckets() <= MAX_BUCKETS
        &&& self.spec_used().len() == self.spec_buckets() + 1
    }

    /// A pass over at least one and at most `MAX_BUCKETS` buckets.
    pub fn new(buckets: usize) -> (b: Self)
        ensures
            b.wf(),
            b.spec_buckets() == clamped(buckets as nat),
            b.spec_used() == Seq::new(clamped(buckets as nat) + 1, |i: int| false),
            b.spec_lines() == 0,
    {
        let n: usize = if buckets < 1 {
            1
        } else if buckets > MAX_BUCKETS {
            MAX_BUCKETS
        } else {
            buckets
        };
        let mut used: Vec<bool> = Vec::new();
        let mut i: usize = 0;
        while i < n + 1
            invariant
                i <= n + 1,
                n <= MAX_BUCKETS,
                used@ == Seq::new(i as nat, |i: int| false),
            decreases n + 1 - i,
        {
            used.push(false);
            i = i + 1;
        }
        Buckets { buckets: n, used, lines: 0 }
    }

    /// The number of buckets for lines with a key.
    pub fn buckets(&self) -> (n: usize)
        ensures
            n == self.spec_buckets(),
    {
        self.buckets
    }

    /// Places a line: says into which bucket it goes. A blank line goes nowhere.
    pub fn place(&mut self, raw: &[u8]) -> (r: Option<usize>)
        requires
            old(self).wf(),
            old(self).spec_lines() < u64::MAX,
        ensures
            final(self).wf(),
            final(self).spec_buckets() == old(self).spec_buckets(),
            match r {
                Some(k) => {
                    &&& !blank(raw@)
                    &&& k == line_place(raw@, old(self).spec_buckets())
                    &&& k <= old(self).spec_buckets()
                    &&& final(self).spec_used() == old(self).spec_used().update(k as int, true)
                    &&& final(self).spec_lines() == old(self).spec_lines() + 1
                },
                None => {
                    &&& blank(raw@)
                    &&& final(self).spec_used() == old(self).spec_used()
                    &&& final(self).spec_lines() == old(self).spec_lines()
                },
            },
    {
        if let Some(line) = decode(raw) {
            if is_blank(line.as_str()) {
                return None;
            }
        }
        let k: usize = place_line(raw, self.buckets);
        self.used.set(k, true);
        self.lines = self.lines + 1;
        Some(k)
    }

    /// What the pass did.
    pub fn stats(&self) -> (s: BucketStats)
        ensures
            s.lines == self.spec_lines(),
            s.buckets_used == count_set(self.spec_used()),
    {
        let mut n: usize = 0;
        let mut i: usize = 0;
        assert(self.used@.take(0) == Seq::<bool>::empty());
        while i < self.used.len()
            invariant
                i <= self.used@.len(),
                n <= i,
                n == count_set(self.used@.take(i as int)),
            decreases self.used@.len() - i,
        {
            assert(self.used@.take(i + 1).drop_last() == self.used@.take(i as int));
            if self.used[i] {
                n = n + 1;
            }
            i = i + 1;
        }
        assert(self.used@.take(self.used@.len() as int) == self.used@);
        BucketStats { lines: self.lines, buckets_used: n }
    }
}

/// The lines of one bucket, in the order of the input.
pub open spec fn in_bucket(lines: Seq<Seq<u8>>, buckets: nat, k: nat) -> Seq<Seq<u8>>
    decreases lines.len(),
{
    if lines.len() == 0 {
        Seq::empty()
    } else {
        let init = in_bucket(lines.drop_last(), buckets, k);
        if !blank(lines.last()) && line_place(lines.last(), buckets) == k {
            init.push(lines.last())
        } else {
            init
        }
    }
}

/// The first `n` buckets one after the other.
pub open spec fn bucketed(lines: Seq<Seq<u8>>, buckets: nat, n: nat) -> Seq<Seq<u8>>
    decreases n,
{
    if n == 0 {
        Seq::empty()
    } else {
        bucketed(lines, buckets, (n - 1) as nat) + in_bucket(lines, buckets, (n - 1) as nat)
    }
}

/// The lines that are not blank.
pub open spec fn filled(lines: Seq<Seq<u8>>) -> Seq<Seq<u8>>
    decreases lines.len(),
{
    if lines.len() == 0 {
        Seq::empty()
    } else {
        let init = filled(lines.drop_last());
        if !blank(lines.last()) {
            init.push(lines.last())
        } else {
            init
        }
    }
}

/// Which buckets hold a line.
pub open spec fn buckets_used(lines: Seq<Seq<u8>>, buckets: nat) -> Seq<bool> {
    Seq::new(buckets + 1, |k: int| in_bucket(lines, buckets, k as nat).len() > 0)
}

/// The lines sorted into bins, one for each bucket.
fn fill_bins(lines: &[Vec<u8>], pass: &mut Buckets) -> (bins: Vec<Vec<Vec<u8>>>)
    requires
        old(pass).wf(),
        old(pass).spec_lines() == 0,
        forall|k: int| 0 <= k < old(pass).spec_used().len() ==> !(#[trigger] old(pass).spec_used()[k]),
    ensures
        final(pass).wf(),
        final(pass).spec_buckets() == old(pass).spec_buckets(),
        bins@.len() == old(pass).spec_buckets() + 1,
        forall|k: int|
            0 <= k < bins@.len() ==> raw_views((#[trigger] bins@[k])@) == in_bucket(
                raw_views(lines@),
                old(pass).spec_buckets(),
                k as nat,
            ),
        final(pass).spec_used() == buckets_used(raw_views(lines@), old(pass).spec_buckets()),
        final(pass).spec_lines() == filled(raw_views(lines@)).len(),
{
    let ghost all = raw_views(lines@);
    let n: usize = pass.buckets();
    let mut bins: Vec<Vec<Vec<u8>>> = Vec::new();
    let mut i: usize = 0;
    assert(all.take(0) == Seq::<Seq<u8>>::empty());
    while i < n + 1
        invariant
            i <= n + 1,
            n <= MAX_BUCKETS,
            bins@.len() == i,
            forall|k: int|
                0 <= k < i ==> raw_views((#[trigger] bins@[k])@) == in_bucket(
                    Seq::<Seq<u8>>::empty(),
                    n as nat,
                    k as nat,
                ),
        decreases n + 1 - i,
    {
        let bin: Vec<Vec<u8>> = Vec::new();
        assert(raw_views(bin@) == Seq::<Seq<u8>>::empty());
        bins.push(bin);
        i = i + 1;
    }
    assert(pass.spec_used() == buckets_used(all.take(0), n as nat));
    let mut j: usize = 0;
    while j < lines.len()
        invariant
            j <= lines@.len(),
            all == raw_views(lines@),
            pass.wf(),
            pass.spec_buckets() == n,
            bins@.len() == n + 1,
            n <= MAX_BUCKETS,
            forall|k: int|
                0 <= k < bins@.len() ==> raw_views((#[trigger] bins@[k])@) == in_bucket(
                    all.take(j as int),
                    n as nat,
                    k as nat,
                ),
            pass.spec_used() == buckets_used(all.take(j as int), n as nat),
            pass.spec_lines() == filled(all.take(j as int)).len(),
            pass.spec_lines() <= j,
        decreases lines@.len() - j,
    {
        let ghost now = all.take(j as int);
        let ghost next = all.take(j + 1);
        let ghost used = pass.spec_used();
        proof {
            assert(next.drop_last() == now);
            assert(next.last() == lines@[j as int]@);
        }
        match pass.place(lines[j].as_slice()) {
            Some(k) => {
                let bin: &mut Vec<Vec<u8>> = &mut bins[k];
                let ghost b0 = bin@;
                bin.push(lines[j].clone());
                assert(raw_views(bin@) == raw_views(b0).push(lines@[j as int]@));
            },
            None => {},
        }
        assert(pass.spec_used() == buckets_used(next, n as nat)) by {
            assert forall|k: int| 0 <= k < n + 1 implies pass.spec_used()[k] == (in_bucket(
                next,
                n as nat,
                k as nat,
            ).len() > 0) by {
                assert(used[k] == (in_bucket(now, n as nat, k as nat).len() > 0));
            }
        }
        j = j + 1;
    }
    assert(all.take(all.len() as int) == all);
    bins
}

/// Reorders lines so that those with a similar prefix stand together: the buckets one
/// after the other, the one for lines without a key last, each in the order of the
/// input.
pub fn bucket_jsonl(lines: &[Vec<u8>], buckets: usize) -> (r: (Vec<Vec<u8>>, BucketStats))
    ensures
        raw_views(r.0@) == bucketed(
            raw_views(lines@),
            clamped(buckets as nat),
            clamped(buckets as nat) + 1,
        ),
        r.1.lines == filled(raw_views(lines@)).len(),
        r.1.buckets_used == count_set(buckets_used(raw_views(lines@), clamped(buckets as nat))),
{
    let ghost all = raw_views(lines@);
    let mut pass: Buckets = Buckets::new(buckets);
    let ghost n = pass.spec_buckets();
    let bins: Vec<Vec<Vec<u8>>> = fill_bins(lines, &mut pass);
    let mut out: Vec<Vec<u8>> = Vec::new();
    let mut i: usize = 0;
    assert(raw_views(out@) == Seq::<Seq<u8>>::empty());
    while i < bins.len()
        invariant
            i <= bins@.len(),
            forall|k: int|
                0 <= k < bins@.len() ==> raw_views((#[trigger] bins@[k])@) == in_bucket(
                    all,
                    n,
                    k as nat,
                ),
            raw_views(out@) == bucketed(all, n, i as nat),
        decreases bins@.len() - i,
    {
        let bin: &Vec<Vec<u8>> = &bins[i];
        let ghost before = raw_views(out@);
        let ghost here = raw_views(bin@);
        let mut j: usize = 0;
        assert(before + here.take(0) == before);
        while j < bin.len()
            invariant
                j <= bin@.len(),
                here == raw_views(bin@),
                raw_views(out@) == before + here.take(j as int),
            decreases bin@.len() - j,
        {
            let ghost o = out@;
            out.push(bin[j].clone());
            proof {
                assert(raw_views(out@) == raw_views(o).push(here[j as int]));
                assert(here.take(j + 1) == here.take(j as int).push(here[j as int]));
            }
            j = j + 1;
        }
        assert(here.take(here.len() as int) == here);
        i = i + 1;
    }
    (out, pass.stats())
}

/// The lines that go into one of the first `n` buckets.
spec fn below(lines: Seq<Seq<u8>>, buckets: nat, n: nat) -> Seq<Seq<u8>>
    decreases lines.len(),
{
    if lines.len() == 0 {
        Seq::empty()
    } else {
        let init = below(lines.drop_last(), buckets, n);
        if !blank(lines.last()) && line_place(lines.last(), buckets) < n {
            init.push(lines.last())
        } else {
            init
        }
    }
}

/// One more bucket adds its lines.
proof fn lemma_below_step(lines: Seq<Seq<u8>>, buckets: nat, n: nat)
    ensures
        below(lines, buckets, n + 1).to_multiset() == below(lines, buckets, n).to_multiset().add(
            in_bucket(lines, buckets, n).to_multiset(),
        ),
    decreases lines.len(),
{
    broadcast use vstd::seq_lib::group_to_multiset_ensures;

    if lines.len() > 0 {
        lemma_below_step(lines.drop_last(), buckets, n);
    }
    assert(below(lines, buckets, n + 1).to_multiset() =~= below(
        lines,
        buckets,
        n,
    ).to_multiset().add(in_bucket(lines, buckets, n).to_multiset()));
}

/// The first `n` buckets hold the lines that go there.
proof fn lemma_bucketed_contents(lines: Seq<Seq<u8>>, buckets: nat, n: nat)
    ensures
        bucketed(lines, buckets, n).to_multiset() == below(lines, buckets, n).to_multiset(),
    decreases n,
{
    if n == 0 {
        lemma_below_none(lines, buckets);
    } else {
        let m = (n - 1) as nat;
        lemma_bucketed_contents(lines, buckets, m);
        lemma_below_step(lines, buckets, m);
        vstd::seq_lib::lemma_multiset_commutative(
            bucketed(lines, buckets, m),
            in_bucket(lines, buckets, m),
        );
    }
}

/// No bucket, no lines.
proof fn lemma_below_none(lines: Seq<Seq<u8>>, buckets: nat)
    ensures
        below(lines, buckets, 0) == Seq::<Seq<u8>>::empty(),
    decreases lines.len(),
{
    if lines.len() > 0 {
        lemma_below_none(lines.drop_last(), buckets);
    }
}

/// All buckets, all lines.
proof fn lemma_below_all(lines: Seq<Seq<u8>>, buckets: nat)
    requires
        buckets > 0,
    ensures
        below(lines, buckets, buckets + 1) == filled(lines),
    decreases lines.len(),
{
    if lines.len() > 0 {
        lemma_below_all(lines.drop_last(), buckets);
        assert(line_place(lines.last(), buckets) <= buckets) by {
            lemma_place_bound(key_of_raw(lines.last()), buckets);
        }
    }
}

/// A place is one of the buckets or the one behind them.
proof fn lemma_place_bound(key: Option<Seq<char>>, buckets: nat)
    requires
        buckets > 0,
    ensures
        place_of(key, buckets) <= buckets,
        place_of(key, buckets) == buckets <==> key is None,
{
    match key {
        Some(k) => {
            vstd::arithmetic::div_mod::lemma_mod_bound(
                fnv(vstd::utf8::encode_utf8(k)) as int,
                buckets as int,
            );
        },
        None => {},
    }
}

/// Bucketing loses no line and adds none: the output holds the lines of the input that
/// are not blank, each as often as there.
pub proof fn law_bucketing_permutes(lines: Seq<Seq<u8>>, buckets: nat)
    requires
        buckets > 0,
    ensures
        bucketed(lines, buckets, buckets + 1).to_multiset() == filled(lines).to_multiset(),
{
    lemma_bucketed_contents(lines, buckets, buckets + 1);
    lemma_below_all(lines, buckets);
}

/// Every line of a bucket belongs there.
proof fn lemma_in_bucket(lines: Seq<Seq<u8>>, buckets: nat, k: nat)
    ensures
        forall|i: int|
            0 <= i < in_bucket(lines, buckets, k).len() ==> line_place(
                #[trigger] in_bucket(lines, buckets, k)[i],
                buckets,
            ) == k,
    decreases lines.len(),
{
    if lines.len() > 0 {
        lemma_in_bucket(lines.drop_last(), buckets, k);
        let init = in_bucket(lines.drop_last(), buckets, k);
        let all = in_bucket(lines, buckets, k);
        assert forall|i: int| 0 <= i < all.len() implies line_place(#[trigger] all[i], buckets)
            == k by {
            if i < init.len() {
                assert(all[i] == init[i]);
            }
        }
    }
}

/// The output goes from bucket to bucket, never back.
proof fn lemma_grouped(lines: Seq<Seq<u8>>, buckets: nat, n: nat)
    ensures
        forall|i: int|
            0 <= i < bucketed(lines, buckets, n).len() ==> line_place(
                #[trigger] bucketed(lines, buckets, n)[i],
                buckets,
            ) < n,
        forall|i: int, j: int|
            0 <= i < j < bucketed(lines, buckets, n).len() ==> line_place(
                #[trigger] bucketed(lines, buckets, n)[i],
                buckets,
            ) <= line_place(#[trigger] bucketed(lines, buckets, n)[j], buckets),
    decreases n,
{
    if n > 0 {
        let m = (n - 1) as nat;
        lemma_grouped(lines, buckets, m);
        lemma_in_bucket(lines, buckets, m);
        let a = bucketed(lines, buckets, m);
        let b = in_bucket(lines, buckets, m);
        let all = bucketed(lines, buckets, n);
        assert(all == a + b);
        assert forall|i: int| 0 <= i < all.len() implies line_place(#[trigger] all[i], buckets)
            < n by {
            if i < a.len() {
                assert(all[i] == a[i]);
            } else {
                assert(all[i] == b[i - a.len()]);
            }
        }
        assert forall|i: int, j: int| 0 <= i < j < all.len() implies line_place(
            #[trigger] all[i],
            buckets,
        ) <= line_place(#[trigger] all[j], buckets) by {
            if j < a.len() {
                assert(all[i] == a[i] && all[j] == a[j]);
            } else {
                assert(all[j] == b[j - a.len()]);
                if i < a.len() {
                    assert(all[i] == a[i]);
                } else {
                    assert(all[i] == b[i - a.len()]);
                }
            }
        }
    }
}

/// Lines with the same model and prompt prefix stand together: between two of them, every
/// line is of their bucket. A line without a key comes after all that have one.
pub proof fn law_prefixes_are_grouped(lines: Seq<Seq<u8>>, buckets: nat, i: int, j: int, k: int)
    requires
        buckets > 0,
        0 <= i < j < k < bucketed(lines, buckets, buckets + 1).len(),
    ensures
        ({
            let out = bucketed(lines, buckets, buckets + 1);
            let key = |n: int| key_of_raw(out[n]);
            &&& key(i) == key(k) ==> line_place(out[j], buckets) == line_place(out[i], buckets)
            &&& key(i) is None ==> key(j) is None && key(k) is None
        }),
{
    let out = bucketed(lines, buckets, buckets + 1);
    lemma_grouped(lines, buckets, buckets + 1);
    assert(line_place(out[i], buckets) <= line_place(out[j], buckets));
    assert(line_place(out[j], buckets) <= line_place(out[k], buckets));
    lemma_place_bound(key_of_raw(out[i]), buckets);
    lemma_place_bound(key_of_raw(out[j]), buckets);
    lemma_place_bound(key_of_raw(out[k]), buckets);
}

proof fn lemma_first_with_role(msgs: Seq<JsonView>, role: Seq<char>, i: int)
    requires
        0 <= i < msgs.len(),
        msgs[i].str_at("role"@) == Some(role),
        forall|k: int| 0 <= k < i ==> (#[trigger] msgs[k]).str_at("role"@) != Some(role),
    ensures
        first_with_role(msgs, role) == Some(msgs[i]),
    decreases i,
{
    if i > 0 {
        assert(msgs[0].str_at("role"@) != Some(role));
        let rest = msgs.skip(1);
        assert(rest[i - 1] == msgs[i]);
        assert forall|k: int| 0 <= k < i - 1 implies (#[trigger] rest[k]).str_at("role"@) != Some(
            role,
        ) by {
            assert(rest[k] == msgs[k + 1]);
        }
        lemma_first_with_role(rest, role, i - 1);
    }
}

/// The key of a chat line with a system message is its model and the start of that message;
/// the messages around it do not count.
pub proof fn law_chats_are_keyed_by_their_system_message(
    parsed: &Option<Json>,
    r: Option<String>,
    body: JsonView,
    msgs: Seq<JsonView>,
    i: int,
    content: Seq<char>,
)
    requires
        call_ensures(key_of_json, (parsed,), r),
        parsed is Some,
        parsed->0@.get("body"@) == Some(body),
        body.array_at("messages"@) == Some(msgs),
        0 <= i < msgs.len(),
        msgs[i].str_at("role"@) == Some("system"@),
        forall|k: int| 0 <= k < i ==> (#[trigger] msgs[k]).str_at("role"@) != Some("system"@),
        msgs[i].str_at("content"@) == Some(content),
    ensures
        r is Some,
        body.str_at("model"@) matches Some(m) ==> content.len() <= 256 ==> r->0@ == m
            + seq!['\u{0}'] + content,
        body.str_at("model"@) matches Some(m) ==> content.len() > 256 ==> r->0@ == m
            + seq!['\u{0}'] + content.take(256),
        body.str_at("model"@) is None && content.len() <= 256 ==> r->0@ =~= seq!['\u{0}'] + content,
{
    lemma_first_with_role(msgs, "system"@, i);
    assert(Seq::<char>::empty() + seq!['\u{0}'] =~= seq!['\u{0}']);
}

/// Other lines are keyed by their model and the start of their input, or of their prompt
/// where they have no input; a line without a body has no key.
pub proof fn law_lines_are_keyed_by_their_prompt(
    parsed: &Option<Json>,
    r: Option<String>,
    body: JsonView,
    model: Seq<char>,
    text: Seq<char>,
)
    requires
        call_ensures(key_of_json, (parsed,), r),
        parsed is Some,
    ensures
        parsed->0@.get("body"@) is None ==> r is None,
        parsed->0@.get("body"@) == Some(body) && body.array_at("messages"@) is None && body.str_at(
            "model"@,
        ) == Some(model) && (body.str_at("input"@) == Some(text) || (body.str_at("input"@) is None
            && body.str_at("prompt"@) == Some(text))) ==> (r matches Some(k) && (text.len() <= 256
            ==> k@ == model + seq!['\u{0}'] + text) && (text.len() > 256 ==> k@ == model
            + seq!['\u{0}'] + text.take(256))),
{
}

/// A pass keeps every line that is not blank, and no other, each as often as it was there;
/// and it says how many those are.
pub proof fn law_passes_keep_every_line(
    lines: &[Vec<u8>],
    buckets: usize,
    r: (Vec<Vec<u8>>, BucketStats),
)
    requires
        call_ensures(bucket_jsonl, (lines, buckets), r),
    ensures
        raw_views(r.0@).to_multiset() == raw_views(lines@).filter(
            |l: Seq<u8>| !(text_of(l) is Some && crate::text::trim(text_of(l)->0).len() == 0),
        ).to_multiset(),
        r.1.lines == r.0@.len(),
{
    let all = raw_views(lines@);
    let n = clamped(buckets as nat);
    law_bucketing_permutes(all, n);
    lemma_filled(all);
    bucketed(all, n, n + 1).to_multiset_ensures();
    filled(all).to_multiset_ensures();
    assert(raw_views(r.0@).len() == r.0@.len());
}

proof fn lemma_filled(lines: Seq<Seq<u8>>)
    ensures
        filled(lines) == lines.filter(
            |l: Seq<u8>| !(text_of(l) is Some && crate::text::trim(text_of(l)->0).len() == 0),
        ),
    decreases lines.len(),
{
    reveal(Seq::filter);
    if lines.len() > 0 {
        lemma_filled(lines.drop_last());
    }
}

/// Lines with the same key go to the same bucket, of which there are at least one and at
/// most 256; a line without a key goes behind them all.
pub proof fn law_equal_keys_share_a_bucket(
    a: &[u8],
    b: &[u8],
    buckets: usize,
    pa: usize,
    pb: usize,
    ka: Option<String>,
    kb: Option<String>,
    ta: &str,
    tb: &str,
)
    requires
        buckets > 0,
        call_ensures(place_line, (a, buckets), pa),
        call_ensures(place_line, (b, buckets), pb),
        text_of(a@) == Some(ta@),
        text_of(b@) == Some(tb@),
        call_ensures(bucket_key, (ta,), ka),
        call_ensures(bucket_key, (tb,), kb),
    ensures
        opt_view(ka) == opt_view(kb) ==> pa == pb,
        ka is None ==> pa == buckets,
        ka is Some ==> pa < buckets,
{
    lemma_place_bound(opt_view(ka), buckets as nat);
}

/// However many buckets are asked for, there are between one and 256 of them.
pub proof fn law_buckets_are_bounded(asked: usize, b: Buckets, n: usize)
    requires
        call_ensures(Buckets::new, (asked,), b),
        call_ensures(Buckets::buckets, (&b,), n),
    ensures
        1 <= n <= 256,
        1 <= asked <= 256 ==> n == asked,
        asked == 0 ==> n == 1,
        asked > 256 ==> n == 256,
{
}

/// The bucket of a key is its 64-bit FNV-1a hash modulo the buckets: the hash of nothing is
/// the offset basis, and each byte is mixed in and multiplied with the prime.
pub proof fn law_buckets_go_by_the_hash(key: &str, buckets: usize, r: usize, bytes: Seq<u8>, b: u8)
    requires
        buckets > 0,
        call_ensures(bucket_of, (key, buckets), r),
    ensures
        r == fnv(vstd::utf8::encode_utf8(key@)) % (buckets as u64),
        fnv(Seq::<u8>::empty()) == 0xcbf29ce484222325,
        fnv(bytes.push(b)) == (((fnv(bytes) ^ (b as u64)) * 0x100000001b3)
            % 0x1_0000_0000_0000_0000) as u64,
{
    assert(bytes.push(b).drop_last() =~= bytes);
}

/// The key of a line is that of the JSON that it is read as; a line that is no JSON has
/// none.
pub proof fn law_line_texts_are_keyed_as_json(
    line: &str,
    r: Option<String>,
    parsed: Option<Json>,
    key: Option<String>,
)
    requires
        call_ensures(bucket_key, (line,), r),
        call_ensures(key_of_json, (&parsed,), key),
    ensures
        parsed is Some && json_parse(line@) == Ok::<JsonView, Seq<char>>(parsed->0@) ==> opt_view(
            r,
        ) == opt_view(key),
        json_parse(line@) is Err ==> r is None,
{
}

/// A pass puts a line in the bucket that the line has by itself, marks that bucket as used
/// and counts the line; a blank line is passed over.
pub proof fn law_lines_are_placed_by_themselves(
    before: Buckets,
    after: Buckets,
    raw: &[u8],
    n: usize,
    r: Option<usize>,
    place: usize,
    text: Seq<char>,
)
    requires
        before.wf(),
        n == before.spec_buckets(),
        exists|m: &mut Buckets|
            *m == before && *final(m) == after && #[trigger] call_ensures(Buckets::place, (m, raw), r),
        call_ensures(place_line, (raw, n), place),
    ensures
        r is Some ==> r == Some(place) && after.spec_lines() == before.spec_lines() + 1
            && after.spec_used() == before.spec_used().update(place as int, true),
        r is None ==> after.spec_lines() == before.spec_lines() && after.spec_used()
            == before.spec_used(),
        text_of(raw@) == Some(text) ==> (r is None <==> crate::text::trim(text).len() == 0),
        text_of(raw@) is None ==> r is Some,
        after.spec_buckets() == before.spec_buckets(),
{
}


/// As many buckets are said to be used as there are that hold a line.
pub proof fn law_used_buckets_hold_lines(
    lines: &[Vec<u8>],
    buckets: usize,
    r: (Vec<Vec<u8>>, BucketStats),
    b: Buckets,
    n: usize,
)
    requires
        call_ensures(bucket_jsonl, (lines, buckets), r),
        call_ensures(Buckets::new, (buckets,), b),
        call_ensures(Buckets::buckets, (&b,), n),
    ensures
        r.1.buckets_used == vstd::set_lib::set_int_range(0, n + 1).filter(
            |k: int| in_bucket(raw_views(lines@), n as nat, k as nat).len() > 0,
        ).len(),
{
    let all = raw_views(lines@);
    let flags = buckets_used(all, n as nat);
    lemma_count_is_of_a_set(flags);
    let f = |k: int| in_bucket(all, n as nat, k as nat).len() > 0;
    assert(vstd::set_lib::set_int_range(0, flags.len() as int).filter(|k: int| flags[k])
        =~= vstd::set_lib::set_int_range(0, n + 1).filter(f));
}

proof fn lemma_count_is_of_a_set(flags: Seq<bool>)
    ensures
        vstd::set_lib::set_int_range(0, flags.len() as int).filter(|k: int| flags[k]).finite(),
        count_set(flags) == vstd::set_lib::set_int_range(0, flags.len() as int).filter(
            |k: int| flags[k],
        ).len(),
    decreases flags.len(),
{
    let s = vstd::set_lib::set_int_range(0, flags.len() as int).filter(|k: int| flags[k]);
    vstd::set_lib::lemma_int_range(0, flags.len() as int);
    if flags.len() == 0 {
        assert(s =~= Set::<int>::empty());
    } else {
        let init = flags.drop_last();
        let n = init.len() as int;
        lemma_count_is_of_a_set(init);
        let t = vstd::set_lib::set_int_range(0, n).filter(|k: int| init[k]);
        assert(!t.contains(n));
        if flags.last() {
            assert(s =~= t.insert(n));
        } else {
            assert(s =~= t);
        }
    }
}


} // verus!

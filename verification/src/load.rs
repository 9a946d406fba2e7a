//! Queue depths read from an engine's own metrics, for load-aware dispatch.
//!
//! Best-effort: a shape that is not recognised leaves the load unknown.

use vstd::prelude::*;

use crate::decimal::{numeral_of, read_numeral, Numeral, NumeralView};
use crate::double::{double_of, limit, nearest_up, one, Double};
use crate::json::{json_parse, list_view, parse_json, Json, JsonView};
use crate::text::{
    chars_of, first_index, index_of, is_white, split_char, split_on, trim, trim_bounds, trim_start, views, white,
};
use crate::types::EngineHint;

verus! {

/// The lesser of a number and the greatest load.
pub open spec fn as_load(n: nat) -> u32 {
    if n <= u32::MAX {
        n as u32
    } else {
        u32::MAX
    }
}

/// The length of the word at the start of `s`.
pub open spec fn word_len(s: Seq<char>) -> nat
    decreases s.len(),
{
    if s.len() > 0 && !is_white(s[0]) {
        1 + word_len(s.skip(1))
    } else {
        0
    }
}

/// The first word of a trimmed line.
pub open spec fn first_word(s: Seq<char>) -> Seq<char> {
    s.take(word_len(s) as int)
}

/// The second word of a trimmed line; empty where there is none.
pub open spec fn second_word(s: Seq<char>) -> Seq<char> {
    first_word(trim_start(s.skip(word_len(s) as int)))
}

/// The name of a metric: what stands before its labels.
pub open spec fn metric_name(word: Seq<char>) -> Seq<char> {
    word.take(first_index(word, '{') as int)
}

/// Where labels that reach to `at` end, behind their closing brace; nothing where they
/// do not end. A brace in a quoted value closes nothing.
pub open spec fn labels_end(s: Seq<char>, at: int, quoted: bool) -> Option<int>
    decreases s.len() - at,
{
    if at < 0 || at >= s.len() {
        None
    } else if quoted && s[at] == '\\' {
        if at + 2 > s.len() {
            None
        } else {
            labels_end(s, at + 2, true)
        }
    } else if s[at] == '"' {
        labels_end(s, at + 1, !quoted)
    } else if s[at] == '}' && !quoted {
        Some(at + 1)
    } else {
        labels_end(s, at + 1, quoted)
    }
}

/// The value of a sample: the word behind its labels, or the second word where it has
/// none.
pub open spec fn sample_value(line: Seq<char>) -> Seq<char> {
    let rest = trim_start(line.skip(metric_name(first_word(line)).len() as int));
    match labels_end(rest, 1, false) {
        Some(end) => if rest[0] == '{' {
            first_word(trim_start(rest.skip(end)))
        } else {
            second_word(line)
        },
        None => second_word(line),
    }
}

/// What a trimmed metrics line says.
pub enum Sample {
    /// A comment, another metric, or a value that is negative or not finite.
    Skip,
    /// A malformed sample of the metric.
    Malformed,
    /// The value of the metric.
    Value(u32),
}

/// What a trimmed metrics line says about the number of waiting requests.
pub open spec fn waiting_sample(line: Seq<char>) -> Sample {
    if line.len() == 0 || line[0] == '#' || metric_name(first_word(line))
        != "vllm:num_requests_waiting"@ {
        Sample::Skip
    } else {
        let value = sample_value(line);
        match numeral_of(value) {
            NumeralView::Invalid => Sample::Malformed,
            NumeralView::Nan => Sample::Skip,
            NumeralView::Infinite(_) => Sample::Skip,
            NumeralView::Finite(negative, digits, exponent) => {
                let n = double_of(digits, exponent);
                if n >= limit() || (negative && n > 0) {
                    Sample::Skip
                } else {
                    Sample::Value(as_load(nearest_up(n, one())))
                }
            },
        }
    }
}

/// The first value of the metric in the lines, if no malformed sample stands before
/// it.
pub open spec fn waiting_in(lines: Seq<Seq<char>>) -> Option<u32>
    decreases lines.len(),
{
    if lines.len() == 0 {
        None
    } else {
        match waiting_sample(trim(lines[0])) {
            Sample::Value(n) => Some(n),
            Sample::Malformed => None,
            Sample::Skip => waiting_in(lines.skip(1)),
        }
    }
}

fn end_of_word(s: &[char], from: usize, to: usize) -> (end: usize)
    requires
        from <= to <= s@.len(),
    ensures
        from <= end <= to,
        end - from == word_len(s@.subrange(from as int, to as int)),
{
    let mut i: usize = from;
    let ghost all = s@.subrange(from as int, to as int);
    assert(all.skip(0) == all);
    while i < to && !white(s[i])
        invariant
            from <= i <= to <= s@.len(),
            all == s@.subrange(from as int, to as int),
            word_len(all) == (i - from) + word_len(all.skip(i - from)),
        decreases to - i,
    {
        assert(all.skip(i - from)[0] == s@[i as int]);
        assert(all.skip(i - from).skip(1) == all.skip(i - from + 1));
        i = i + 1;
    }
    proof {
        if i < to {
            assert(all.skip(i - from)[0] == s@[i as int]);
        }
    }
    i
}

fn skip_white(s: &[char], from: usize, to: usize) -> (at: usize)
    requires
        from <= to <= s@.len(),
    ensures
        from <= at <= to,
        s@.subrange(at as int, to as int) == trim_start(s@.subrange(from as int, to as int)),
{
    let mut i: usize = from;
    let ghost all = s@.subrange(from as int, to as int);
    while i < to && white(s[i])
        invariant
            from <= i <= to <= s@.len(),
            trim_start(s@.subrange(i as int, to as int)) == trim_start(
                s@.subrange(from as int, to as int),
            ),
        decreases to - i,
    {
        assert(s@.subrange(i as int, to as int)[0] == s@[i as int]);
        assert(s@.subrange(i as int, to as int).skip(1) == s@.subrange(i + 1, to as int));
        i = i + 1;
    }
    proof {
        if i < to {
            assert(s@.subrange(i as int, to as int)[0] == s@[i as int]);
        }
    }
    i
}

fn copy_part(s: &[char], from: usize, to: usize) -> (r: Vec<char>)
    requires
        from <= to <= s@.len(),
    ensures
        r@ == s@.subrange(from as int, to as int),
{
    let mut out: Vec<char> = Vec::new();
    let mut i: usize = from;
    while i < to
        invariant
            from <= i <= to <= s@.len(),
            out@ == s@.subrange(from as int, i as int),
        decreases to - i,
    {
        out.push(s[i]);
        i = i + 1;
        assert(s@.subrange(from as int, i as int) == s@.subrange(from as int, i - 1).push(
            s@[i - 1],
        ));
    }
    out
}

fn same_chars(a: &Vec<char>, b: &str) -> (r: bool)
    ensures
        r == (a@ == b@),
{
    let c: Vec<char> = chars_of(b);
    if a.len() != c.len() {
        return false;
    }
    let mut i: usize = 0;
    while i < a.len()
        invariant
            i <= a@.len() == c@.len(),
            c@ == b@,
            a@.take(i as int) == c@.take(i as int),
        decreases a@.len() - i,
    {
        if a[i] != c[i] {
            assert(a@[i as int] != b@[i as int]);
            return false;
        }
        i = i + 1;
        assert(a@.take(i as int) == c@.take(i as int));
    }
    assert(a@.take(a@.len() as int) == a@);
    assert(c@.take(c@.len() as int) == c@);
    true
}

fn load_of(n: &Double) -> (r: u32)
    ensures
        r == as_load(nearest_up(n@, one())),
{
    match n.rounded_up() {
        Some(v) => {
            if v <= 0xffff_ffff {
                v as u32
            } else {
                0xffff_ffff
            }
        },
        None => 0xffff_ffff,
    }
}

/// Where the labels that start at `from` end, if they start and end.
fn skip_labels(s: &[char], from: usize, to: usize) -> (r: Option<usize>)
    requires
        from < to <= s@.len(),
    ensures
        ({
            let rest = s@.subrange(from as int, to as int);
            match r {
                Some(end) => rest[0] == '{' && from < end <= to && labels_end(rest, 1, false) == Some(
                    end - from,
                ),
                None => rest[0] != '{' || labels_end(rest, 1, false) is None,
            }
        }),
{
    let ghost rest = s@.subrange(from as int, to as int);
    assert(rest[0] == s@[from as int]);
    if s[from] != '{' {
        return None;
    }
    let mut i: usize = from + 1;
    let mut quoted: bool = false;
    while i < to
        invariant
            from < i,
            to <= s@.len(),
            rest == s@.subrange(from as int, to as int),
            rest[0] == '{',
            labels_end(rest, i - from, quoted) == labels_end(rest, 1, false),
        decreases to - i,
    {
        assert(rest[i - from] == s@[i as int]);
        let c: char = s[i];
        if quoted && c == '\\' {
            if to - i < 2 {
                return None;
            }
            i = i + 2;
        } else if c == '"' {
            quoted = !quoted;
            i = i + 1;
        } else if c == '}' && !quoted {
            return Some(i + 1);
        } else {
            i = i + 1;
        }
    }
    None
}

fn read_sample(line: &str) -> (r: Sample)
    ensures
        r == waiting_sample(trim(line@)),
{
    let cs: Vec<char> = chars_of(line);
    let s: &[char] = cs.as_slice();
    let (a, b) = trim_bounds(s);
    let ghost t = trim(line@);
    assert(t == s@.subrange(a as int, b as int));
    if a == b {
        return Sample::Skip;
    }
    assert(t[0] == s@[a as int]);
    if s[a] == '#' {
        return Sample::Skip;
    }
    let end: usize = end_of_word(s, a, b);
    let word: Vec<char> = copy_part(s, a, end);
    assert(word@ == first_word(t));
    assert(word@.skip(0) == word@);
    let brace: usize = index_of(word.as_slice(), '{', 0);
    let name: Vec<char> = copy_part(word.as_slice(), 0, brace);
    assert(name@ == metric_name(first_word(t)));
    if !same_chars(&name, "vllm:num_requests_waiting") {
        return Sample::Skip;
    }
    assert(t.skip(word_len(t) as int) == s@.subrange(end as int, b as int));
    assert(t.skip(name@.len() as int) == s@.subrange(a + name@.len(), b as int));
    let mut behind: usize = end;
    let start: usize = skip_white(s, a + name.len(), b);
    if start < b {
        match skip_labels(s, start, b) {
            Some(e) => {
                assert(s@.subrange(start as int, b as int).skip(e - start) == s@.subrange(
                    e as int,
                    b as int,
                ));
                behind = e;
            },
            None => {},
        }
    }
    let from: usize = skip_white(s, behind, b);
    let to: usize = end_of_word(s, from, b);
    let value: Vec<char> = copy_part(s, from, to);
    assert(value@ == sample_value(t)) by {
        assert(s@.subrange(from as int, b as int).take(to - from) == s@.subrange(
            from as int,
            to as int,
        ));
    }
    match read_numeral(value.as_slice()) {
        Numeral::Invalid => Sample::Malformed,
        Numeral::Nan => Sample::Skip,
        Numeral::Infinite(_) => Sample::Skip,
        Numeral::Finite(d) => {
            match Double::read(&d) {
                Some(n) => {
                    if n.is_infinite() || (d.negative && !n.is_zero()) {
                        Sample::Skip
                    } else {
                        Sample::Value(load_of(&n))
                    }
                },
                None => Sample::Skip,
            }
        },
    }
}

/// The number of waiting requests in vLLM's Prometheus metrics: the first value of
/// the gauge `vllm:num_requests_waiting`, rounded. The value is the field right
/// after the name and its labels, whatever these hold, never a timestamp behind it.
pub fn parse_vllm_waiting(metrics_text: &str) -> (r: Option<u32>)
    ensures
        r == waiting_in(split_char(metrics_text@, '\n')),
{
    let lines: Vec<String> = split_on(metrics_text, '\n');
    let ghost all = views(lines@);
    let mut i: usize = 0;
    assert(all.skip(0) == all);
    while i < lines.len()
        invariant
            i <= lines@.len(),
            all == views(lines@),
            all == split_char(metrics_text@, '\n'),
            waiting_in(all.skip(i as int)) == waiting_in(all),
        decreases lines@.len() - i,
    {
        assert(all.skip(i as int)[0] == lines@[i as int]@);
        assert(all.skip(i as int).skip(1) == all.skip(i + 1));
        match read_sample(lines[i].as_str()) {
            Sample::Value(n) => {
                return Some(n);
            },
            Sample::Malformed => {
                return None;
            },
            Sample::Skip => {},
        }
        i = i + 1;
    }
    None
}

/// A llama.cpp slot is busy: it is processing, or, where that is not said, its state
/// is not zero.
pub open spec fn busy_slot(slot: JsonView) -> bool {
    match slot.get("is_processing"@) {
        Some(JsonView::Bool(b)) => b,
        _ => match slot.u64_at("state"@) {
            Some(n) => n != 0,
            None => false,
        },
    }
}

/// How many of the slots are busy.
pub open spec fn busy_count(slots: Seq<JsonView>) -> nat
    decreases slots.len(),
{
    if slots.len() == 0 {
        0
    } else {
        busy_count(slots.drop_last()) + if busy_slot(slots.last()) {
            1nat
        } else {
            0nat
        }
    }
}

fn is_busy(slot: &Json) -> (r: bool)
    ensures
        r == busy_slot(slot@),
{
    let said: Option<bool> = match slot.get("is_processing") {
        Some(v) => v.as_bool(),
        None => None,
    };
    match said {
        Some(b) => b,
        None => match slot.u64_at("state") {
            Some(n) => n != 0,
            None => false,
        },
    }
}

/// llama.cpp slots: the count of busy ones.
pub fn parse_llamacpp_busy_slots(slots: &Json) -> (r: Option<u32>)
    ensures
        r == match slots@.as_array() {
            Some(items) => Some(as_load(busy_count(items))),
            None => None,
        },
{
    match slots.as_array() {
        Some(items) => {
            let ghost all = list_view(items@);
            let mut busy: u32 = 0;
            let mut i: usize = 0;
            assert(all.take(0) == Seq::<JsonView>::empty());
            while i < items.len()
                invariant
                    i <= items@.len(),
                    all == list_view(items@),
                    busy == as_load(busy_count(all.take(i as int))),
                decreases items@.len() - i,
            {
                assert(all.take(i + 1).drop_last() == all.take(i as int));
                assert(all.take(i + 1).last() == items@[i as int]@);
                if is_busy(&items[i]) && busy < 0xffff_ffff {
                    busy = busy + 1;
                }
                i = i + 1;
            }
            assert(all.take(all.len() as int) == all);
            Some(busy)
        },
        None => None,
    }
}

/// The waiting requests of one rank.
pub open spec fn rank_waiting(state: JsonView) -> Option<u64> {
    match state.u64_at("num_waiting_reqs"@) {
        Some(n) => Some(n),
        None => state.u64_at("waiting_queue_len"@),
    }
}

/// The sum over the ranks that report one.
pub open spec fn waiting_sum(states: Seq<JsonView>) -> nat
    decreases states.len(),
{
    if states.len() == 0 {
        0
    } else {
        waiting_sum(states.drop_last()) + match rank_waiting(states.last()) {
            Some(n) => n as nat,
            None => 0,
        }
    }
}

/// Some rank reports its waiting requests.
pub open spec fn any_waiting(states: Seq<JsonView>) -> bool {
    exists|i: int| 0 <= i < states.len() && rank_waiting(#[trigger] states[i]) is Some
}

/// The queue depth of an SGLang server: the sum over its ranks, or else the one that
/// it reports at the top.
pub open spec fn sglang_waiting(info: JsonView) -> Option<u32> {
    match info.array_at("internal_states"@) {
        Some(states) if any_waiting(states) => Some(as_load(waiting_sum(states))),
        _ => match info.u64_at("waiting_queue_len"@) {
            Some(n) => Some(as_load(n as nat)),
            None => match info.u64_at("num_waiting_reqs"@) {
                Some(n) => Some(as_load(n as nat)),
                None => None,
            },
        },
    }
}

fn rank_depth(state: &Json) -> (r: Option<u64>)
    ensures
        r == rank_waiting(state@),
{
    match state.u64_at("num_waiting_reqs") {
        Some(n) => Some(n),
        None => state.u64_at("waiting_queue_len"),
    }
}

fn clamp_load(n: u64) -> (r: u32)
    ensures
        r == as_load(n as nat),
{
    if n <= 0xffff_ffff {
        n as u32
    } else {
        0xffff_ffff
    }
}

fn sum_ranks(states: &Vec<Json>) -> (r: Option<u32>)
    ensures
        r == if any_waiting(list_view(states@)) {
            Some(as_load(waiting_sum(list_view(states@))))
        } else {
            None
        },
{
    let ghost all = list_view(states@);
    let mut total: u64 = 0;
    let mut any: bool = false;
    let mut i: usize = 0;
    assert(all.take(0) == Seq::<JsonView>::empty());
    while i < states.len()
        invariant
            i <= states@.len(),
            all == list_view(states@),
            any == any_waiting(all.take(i as int)),
            total == waiting_sum(all.take(i as int)) || (total == u64::MAX && waiting_sum(
                all.take(i as int),
            ) >= u64::MAX),
        decreases states@.len() - i,
    {
        let ghost before = all.take(i as int);
        let ghost after = all.take(i + 1);
        assert(after.drop_last() == before);
        assert(after.last() == states@[i as int]@);
        match rank_depth(&states[i]) {
            Some(n) => {
                total = total.saturating_add(n);
                any = true;
                assert(rank_waiting(after[i as int]) is Some);
            },
            None => {
                proof {
                    if any_waiting(before) {
                        let j = choose|j: int|
                            0 <= j < before.len() && rank_waiting(#[trigger] before[j]) is Some;
                        assert(rank_waiting(after[j]) is Some);
                    }
                    if any_waiting(after) {
                        let j = choose|j: int|
                            0 <= j < after.len() && rank_waiting(#[trigger] after[j]) is Some;
                        assert(j != i);
                        assert(rank_waiting(before[j]) is Some);
                    }
                }
            },
        }
        i = i + 1;
    }
    assert(all.take(all.len() as int) == all);
    if any {
        Some(clamp_load(total))
    } else {
        None
    }
}

/// SGLang server info: the waiting requests over all ranks.
pub fn parse_sglang_waiting(info: &Json) -> (r: Option<u32>)
    ensures
        r == sglang_waiting(info@),
{
    if let Some(v) = info.get("internal_states") {
        if let Some(states) = v.as_array() {
            if let Some(n) = sum_ranks(states) {
                return Some(n);
            }
        }
    }
    match info.u64_at("waiting_queue_len") {
        Some(n) => Some(clamp_load(n)),
        None => match info.u64_at("num_waiting_reqs") {
            Some(n) => Some(clamp_load(n)),
            None => None,
        },
    }
}

/// The load in a metrics body that is JSON, once parsed.
pub open spec fn json_load(hint: EngineHint, parsed: Option<JsonView>) -> Option<u32> {
    match parsed {
        Some(v) => match hint {
            EngineHint::LlamaCpp => match v.as_array() {
                Some(items) => Some(as_load(busy_count(items))),
                None => None,
            },
            EngineHint::Sglang => sglang_waiting(v),
            _ => None,
        },
        None => None,
    }
}

/// The queue depth in a raw metrics body of the engine `hint`.
pub open spec fn load_in(hint: EngineHint, body: Seq<char>) -> Option<u32> {
    match hint {
        EngineHint::Vllm => waiting_in(split_char(body, '\n')),
        EngineHint::LlamaCpp | EngineHint::Sglang => json_load(hint, json_parse(body).ok()),
        _ => None,
    }
}

/// The load in a metrics body that is JSON, once parsed.
pub fn load_of_json(hint: EngineHint, parsed: &Option<Json>) -> (r: Option<u32>)
    ensures
        r == json_load(
            hint,
            match parsed {
                Some(j) => Some(j@),
                None => None,
            },
        ),
{
    match parsed {
        Some(v) => match hint {
            EngineHint::LlamaCpp => parse_llamacpp_busy_slots(v),
            EngineHint::Sglang => parse_sglang_waiting(v),
            _ => None,
        },
        None => None,
    }
}

/// The queue depth in a raw metrics body of the engine `hint`. Nothing where the
/// engine has no such metric or the body has another shape.
pub fn parse_load(hint: EngineHint, body: &str) -> (r: Option<u32>)
    ensures
        r == load_in(hint, body@),
{
    match hint {
        EngineHint::Vllm => parse_vllm_waiting(body),
        EngineHint::LlamaCpp | EngineHint::Sglang => {
            let parsed: Option<Json> = match parse_json(body) {
                Ok(j) => Some(j),
                Err(_) => None,
            };
            load_of_json(hint, &parsed)
        },
        _ => None,
    }
}

/// The load of a llama.cpp server is the number of its busy slots: those that say they
/// process, and of those that do not say, the ones whose state is not zero.
pub proof fn law_busy_slots_are_counted(slots: &Json, r: Option<u32>)
    requires
        call_ensures(parse_llamacpp_busy_slots, (slots,), r),
    ensures
        r is Some <==> slots@ is Array,
        slots@ matches JsonView::Array(items) ==> items.len() <= u32::MAX ==> r == Some(
            items.filter(
                |s: JsonView|
                    s.get("is_processing"@) == Some(JsonView::Bool(true)) || (!(s.get(
                        "is_processing"@,
                    ) is Some && s.get("is_processing"@)->0 is Bool) && s.u64_at("state"@) is Some
                        && s.u64_at("state"@)->0 != 0),
            ).len() as u32,
        ),
{
    if let JsonView::Array(items) = slots@ {
        lemma_busy_count(items);
    }
}

proof fn lemma_busy_count(items: Seq<JsonView>)
    ensures
        busy_count(items) == items.filter(
            |s: JsonView|
                s.get("is_processing"@) == Some(JsonView::Bool(true)) || (!(s.get(
                    "is_processing"@,
                ) is Some && s.get("is_processing"@)->0 is Bool) && s.u64_at("state"@) is Some
                    && s.u64_at("state"@)->0 != 0),
        ).len(),
        busy_count(items) <= items.len(),
    decreases items.len(),
{
    reveal(Seq::filter);
    if items.len() > 0 {
        lemma_busy_count(items.drop_last());
    }
}

/// The load of an SGLang server is the sum of what its ranks have waiting; a rank more adds
/// what it reports. Where no rank reports any, it is what the server reports at the top.
pub proof fn law_waiting_ranks_add_up(
    info: &Json,
    r: Option<u32>,
    states: Seq<JsonView>,
    more: JsonView,
)
    requires
        call_ensures(parse_sglang_waiting, (info,), r),
    ensures
        waiting_sum(states.push(more)) == waiting_sum(states) + match more.u64_at(
            "num_waiting_reqs"@,
        ) {
            Some(n) => n as nat,
            None => match more.u64_at("waiting_queue_len"@) {
                Some(n) => n as nat,
                None => 0,
            },
        },
        waiting_sum(Seq::<JsonView>::empty()) == 0,
        info@.array_at("internal_states"@) matches Some(s) ==> (exists|i: int|
            0 <= i < s.len() && ((#[trigger] s[i]).u64_at("num_waiting_reqs"@) is Some || s[i].u64_at(
                "waiting_queue_len"@,
            ) is Some)) ==> (r matches Some(n) && n == if waiting_sum(s) <= u32::MAX {
            waiting_sum(s)
        } else {
            u32::MAX as nat
        }),
        info@.array_at("internal_states"@) is None ==> (info@.u64_at(
            "waiting_queue_len"@,
        ) matches Some(n) ==> n <= u32::MAX ==> r == Some(n as u32)),
        info@.array_at("internal_states"@) is None && info@.u64_at("waiting_queue_len"@) is None ==> (
        info@.u64_at("num_waiting_reqs"@) matches Some(n) ==> n <= u32::MAX ==> r == Some(n as u32)),
        info@.array_at("internal_states"@) is None && info@.u64_at("waiting_queue_len"@) is None
            && info@.u64_at("num_waiting_reqs"@) is None ==> r is None,
{
    assert(states.push(more).drop_last() =~= states);
    if let Some(s) = info@.array_at("internal_states"@) {
        if exists|i: int|
            0 <= i < s.len() && ((#[trigger] s[i]).u64_at("num_waiting_reqs"@) is Some || s[i].u64_at(
                "waiting_queue_len"@,
            ) is Some) {
            let i = choose|i: int|
                0 <= i < s.len() && ((#[trigger] s[i]).u64_at("num_waiting_reqs"@) is Some
                    || s[i].u64_at("waiting_queue_len"@) is Some);
            assert(rank_waiting(s[i]) is Some);
        }
    }
}

/// Each engine's load is read in its own form; an engine without such a metric has none.
pub proof fn law_loads_are_read_by_engine(
    hint: EngineHint,
    body: &str,
    r: Option<u32>,
    vllm: Option<u32>,
    parsed: &Option<Json>,
    j: Option<u32>,
    slots: Option<u32>,
    ranks: Option<u32>,
)
    requires
        call_ensures(parse_load, (hint, body), r),
        call_ensures(parse_vllm_waiting, (body,), vllm),
        call_ensures(load_of_json, (hint, parsed), j),
        parsed matches Some(x) ==> call_ensures(parse_llamacpp_busy_slots, (&x,), slots)
            && call_ensures(parse_sglang_waiting, (&x,), ranks),
    ensures
        hint == EngineHint::Vllm ==> r == vllm,
        hint == EngineHint::Router || hint == EngineHint::OpenaiApi || hint
            == EngineHint::AnthropicApi ==> r is None && j is None,
        parsed is None ==> j is None,
        parsed is Some && hint == EngineHint::LlamaCpp ==> j == slots,
        parsed is Some && hint == EngineHint::Sglang ==> j == ranks,
        (hint == EngineHint::LlamaCpp || hint == EngineHint::Sglang) && (json_parse(
            body@,
        ) matches Ok(v) && parsed is Some && parsed->0@ == v) ==> r == j,
        (hint == EngineHint::LlamaCpp || hint == EngineHint::Sglang) && json_parse(body@) is Err
            ==> r is None,
{
}

proof fn lemma_word_len(s: Seq<char>, k: int)
    requires
        0 <= k <= s.len(),
        forall|i: int| 0 <= i < k ==> !is_white(#[trigger] s[i]),
        k < s.len() ==> is_white(s[k]),
    ensures
        word_len(s) == k,
    decreases k,
{
    if k > 0 {
        assert(!is_white(s[0]));
        let rest = s.skip(1);
        assert forall|i: int| 0 <= i < k - 1 implies !is_white(#[trigger] rest[i]) by {
            assert(rest[i] == s[i + 1]);
        }
        lemma_word_len(rest, k - 1);
    }
}

/// The metric's name holds no white space and no brace.
proof fn lemma_metric_name()
    ensures
        ({
            let name = "vllm:num_requests_waiting"@;
            &&& name.len() == 25
            &&& name[0] == 'v'
            &&& forall|i: int| 0 <= i < 25 ==> !is_white(#[trigger] name[i]) && name[i] != '{'
                && name[i] != '\n'
        }),
{
    reveal_strlit("vllm:num_requests_waiting");
    let name = "vllm:num_requests_waiting"@;
    assert(name[0] == 'v' && name[1] == 'l' && name[2] == 'l' && name[3] == 'm' && name[4] == ':' && name[5] == 'n' && name[6] == 'u' && name[7] == 'm' && name[8] == '_' && name[9] == 'r' && name[10] == 'e' && name[11] == 'q' && name[12] == 'u' && name[13] == 'e' && name[14] == 's' && name[15] == 't' && name[16] == 's' && name[17] == '_' && name[18] == 'w' && name[19] == 'a' && name[20] == 'i' && name[21] == 't' && name[22] == 'i' && name[23] == 'n' && name[24] == 'g');
}

/// A whole number of up to 32 bits is read as that load.
proof fn lemma_whole_load(n: u32)
    ensures
        ({
            let d = double_of(crate::decimal::digits_of(crate::text::decimal(n as nat)), 0);
            d < limit() && nearest_up(d, one()) == n
        }),
{
    let m = n as nat;
    let one = one();
    crate::decimal::law_decimals_are_read_back(m);
    crate::double::lemma_whole_is_kept(m);
    assert(crate::decimal::pow10(0) == 1);
    assert(m * 1 == m);
    vstd::arithmetic::power2::lemma_pow2_pos(1074);
    vstd::arithmetic::power2::lemma_pow2_adds(1024, 1074);
    vstd::arithmetic::power2::lemma2_to64();
    vstd::arithmetic::power2::lemma2_to64_rest();
    vstd::arithmetic::power2::lemma_pow2_strictly_increases(53, 1024);
    let bound = vstd::arithmetic::power2::pow2(1024);
    assert(m * one < limit()) by (nonlinear_arith)
        requires
            limit() == bound * one,
            m < bound,
            one > 0,
    ;
    vstd::arithmetic::div_mod::lemma_div_multiples_vanish(m as int, one as int);
    vstd::arithmetic::div_mod::lemma_mod_multiples_basic(m as int, one as int);
}

/// A sample of the metric is read as the number behind its name.
pub proof fn law_waiting_requests_are_read(body: &str, n: u32, r: Option<u32>)
    requires
        call_ensures(parse_vllm_waiting, (body,), r),
        body@ == "vllm:num_requests_waiting"@ + seq![' '] + crate::text::decimal(n as nat),
    ensures
        r == Some(n),
{
    let name = "vllm:num_requests_waiting"@;
    let d = crate::text::decimal(n as nat);
    let line = body@;
    lemma_metric_name();
    crate::decimal::law_decimals_are_read_back(n as nat);
    crate::decimal::law_whole_numbers_are_read_back(n as nat);
    lemma_whole_load(n);
    assert forall|i: int| 0 <= i < d.len() implies !is_white(#[trigger] d[i]) && d[i] != '\n' by {
        assert(crate::decimal::is_digit(d[i]));
    }
    assert forall|i: int| 0 <= i < line.len() implies line[i] != '\n' by {
        if i < 25 {
            assert(line[i] == name[i]);
        } else if i > 25 {
            assert(line[i] == d[i - 26]);
        }
    }
    crate::text::lemma_first_index_unique(line, '\n', line.len() as int);
    assert(split_char(line, '\n') == seq![line]);
    assert(line[0] == name[0]);
    assert(line.last() == d.last());
    assert(d.last() == d[d.len() - 1]);
    assert(trim_start(line) == line);
    assert(trim(line) == line);
    assert forall|i: int| 0 <= i < 25 implies !is_white(#[trigger] line[i]) by {
        assert(line[i] == name[i]);
    }
    assert(line[25] == ' ');
    lemma_word_len(line, 25);
    assert(first_word(line) == name);
    crate::text::lemma_first_index_unique(name, '{', 25);
    assert(metric_name(name) == name);
    let tail = line.skip(25);
    assert(tail[0] == ' ');
    assert(tail.skip(1) == d);
    assert(!is_white(d[0]));
    assert(trim_start(d) == d);
    assert(trim_start(tail) == d);
    lemma_word_len(d, d.len() as int);
    assert(first_word(d) == d);
    assert(d[0] != '{') by {
        assert(crate::decimal::is_digit(d[0]));
    }
    assert(sample_value(line) == d);
    assert(waiting_sample(line) == Sample::Value(n));
    assert(split_char(line, '\n')[0] == line);
}

/// Lines that are blank, a comment or of another metric are passed over.
pub proof fn law_other_samples_are_passed_over(
    body: &str,
    rest: &str,
    line: Seq<char>,
    r: Option<u32>,
    others: Option<u32>,
)
    requires
        call_ensures(parse_vllm_waiting, (body,), r),
        call_ensures(parse_vllm_waiting, (rest,), others),
        body@ == line.push('\n') + rest@,
        !line.contains('\n'),
        trim(line).len() == 0 || trim(line)[0] == '#' || !crate::text::has_prefix(
            trim(line),
            "vllm:num_requests_waiting"@,
        ),
    ensures
        r == others,
{
    let name = "vllm:num_requests_waiting"@;
    let i = line.len() as int;
    assert forall|j: int| 0 <= j < i implies body@[j] != '\n' by {
        assert(line.contains(line[j]));
        assert(body@[j] == line[j]);
    }
    assert(body@[i] == '\n');
    crate::text::lemma_first_index_unique(body@, '\n', i);
    assert(body@.take(i) == line);
    assert(body@.skip(i + 1) == rest@);
    let all = split_char(body@, '\n');
    assert(all[0] == line);
    assert(all.skip(1) == split_char(rest@, '\n'));
    let t = trim(line);
    let word = first_word(t);
    if metric_name(word) == name {
        lemma_word_bound(t);
        crate::text::lemma_first_index(word, '{');
        assert(t.take(name.len() as int) == name);
    }
    assert(waiting_sample(t) == Sample::Skip);
}

proof fn lemma_word_bound(s: Seq<char>)
    ensures
        word_len(s) <= s.len(),
    decreases s.len(),
{
    if s.len() > 0 && !is_white(s[0]) {
        lemma_word_bound(s.skip(1));
    }
}


} // verus!

//! Stored results: how they are written, and how they are read back.

use vstd::prelude::*;

use crate::json::{
    as_record, canonical, depth_within, json_text, lemma_object_view, member, members_view,
    names_ascend, parses_to, record_of_array, render_json, Json, JsonView, Number, NumberView,
    DEPTH_LIMIT,
};
use crate::openai::{count_value, int_json, int_value, lemma_lex_at, lemma_member_at, text_value};
use crate::text::{opt_view, trim, views};
use crate::types::{ItemError, ItemResponse, ItemResult, TokenUsage};

verus! {

/// The view of a response.
#[verifier::ext_equal]
pub struct ResponseView {
    pub status_code: u16,
    pub request_id: Option<Seq<char>>,
    pub body: JsonView,
}

/// The view of a result.
#[verifier::ext_equal]
pub struct ResultView {
    pub custom_id: Seq<char>,
    pub response: Option<ResponseView>,
    /// The code and the message.
    pub error: Option<(Seq<char>, Seq<char>)>,
    pub usage: TokenUsage,
    pub worker_id: Seq<char>,
    pub latency_ms: u64,
    pub attempt: u32,
    pub completed_at: i64,
}

impl View for ItemResponse {
    type V = ResponseView;

    open spec fn view(&self) -> ResponseView {
        ResponseView {
            status_code: self.status_code,
            request_id: opt_view(self.request_id),
            body: self.body@,
        }
    }
}

impl View for ItemResult {
    type V = ResultView;

    open spec fn view(&self) -> ResultView {
        ResultView {
            custom_id: self.custom_id@,
            response: match self.response {
                Some(r) => Some(r@),
                None => None,
            },
            error: match self.error {
                Some(e) => Some((e.code@, e.message@)),
                None => None,
            },
            usage: self.usage,
            worker_id: self.worker_id@,
            latency_ms: self.latency_ms,
            attempt: self.attempt,
            completed_at: self.completed_at,
        }
    }
}

/// A token count: zero where it is missing, nothing where it is no count.
pub open spec fn token_count(v: Option<JsonView>) -> Option<u64> {
    match v {
        None => Some(0),
        Some(x) => x.as_u64(),
    }
}

/// The item of a list at a position.
pub open spec fn item_at(items: Seq<JsonView>, i: int) -> Option<JsonView> {
    if 0 <= i < items.len() {
        Some(items[i])
    } else {
        None
    }
}

/// The usage of five counts that must all be there.
pub open spec fn usage_of_counts(
    prompt: Option<u64>,
    completion: Option<u64>,
    total: Option<u64>,
    cached: Option<u64>,
    reasoning: Option<u64>,
) -> Option<TokenUsage> {
    match (prompt, completion, total, cached, reasoning) {
        (Some(p), Some(c), Some(t), Some(k), Some(r)) => Some(
            TokenUsage {
                prompt_tokens: p,
                completion_tokens: c,
                total_tokens: t,
                cached_tokens: k,
                reasoning_tokens: r,
            },
        ),
        _ => None,
    }
}

/// The usage of a stored result: an object of counts, or the counts in order. A count
/// may be missing; one that is there must be a count.
pub open spec fn stored_usage(v: JsonView) -> Option<TokenUsage> {
    match v {
        JsonView::Object(_) => usage_of_counts(
            token_count(v.get("prompt_tokens"@)),
            token_count(v.get("completion_tokens"@)),
            token_count(v.get("total_tokens"@)),
            token_count(v.get("cached_tokens"@)),
            token_count(v.get("reasoning_tokens"@)),
        ),
        JsonView::Array(items) => if items.len() <= 5 {
            usage_of_counts(
                token_count(item_at(items, 0)),
                token_count(item_at(items, 1)),
                token_count(item_at(items, 2)),
                token_count(item_at(items, 3)),
                token_count(item_at(items, 4)),
            )
        } else {
            None
        },
        _ => None,
    }
}

fn count(v: Option<&Json>) -> (r: Option<u64>)
    ensures
        r == token_count(
            match v {
                Some(j) => Some(j@),
                None => None,
            },
        ),
{
    match v {
        None => Some(0),
        Some(x) => x.as_u64(),
    }
}

fn counts(
    prompt: Option<u64>,
    completion: Option<u64>,
    total: Option<u64>,
    cached: Option<u64>,
    reasoning: Option<u64>,
) -> (r: Option<TokenUsage>)
    ensures
        r == usage_of_counts(prompt, completion, total, cached, reasoning),
{
    match (prompt, completion, total, cached, reasoning) {
        (Some(p), Some(c), Some(t), Some(k), Some(r)) => Some(
            TokenUsage {
                prompt_tokens: p,
                completion_tokens: c,
                total_tokens: t,
                cached_tokens: k,
                reasoning_tokens: r,
            },
        ),
        _ => None,
    }
}

fn at(items: &Vec<Json>, i: usize) -> (r: Option<&Json>)
    ensures
        match r {
            Some(j) => item_at(crate::json::list_view(items@), i as int) == Some(j@),
            None => item_at(crate::json::list_view(items@), i as int) is None,
        },
{
    if i < items.len() {
        Some(&items[i])
    } else {
        None
    }
}

/// The usage of a stored result.
pub fn usage_of_json(v: &Json) -> (r: Option<TokenUsage>)
    ensures
        r == stored_usage(v@),
{
    if v.is_object() {
        return counts(
            count(v.get("prompt_tokens")),
            count(v.get("completion_tokens")),
            count(v.get("total_tokens")),
            count(v.get("cached_tokens")),
            count(v.get("reasoning_tokens")),
        );
    }
    match v.as_array() {
        Some(items) => {
            if items.len() <= 5 {
                counts(
                    count(at(items, 0)),
                    count(at(items, 1)),
                    count(at(items, 2)),
                    count(at(items, 3)),
                    count(at(items, 4)),
                )
            } else {
                None
            }
        },
        None => None,
    }
}

/// A member that may be missing or null.
pub open spec fn opt_member(j: JsonView, key: Seq<char>) -> Option<JsonView> {
    match j.get(key) {
        Some(JsonView::Null) => None,
        other => other,
    }
}

/// A text that may be missing or null; nothing where it is anything else.
pub open spec fn nullable_text(j: JsonView, key: Seq<char>) -> Option<Option<Seq<char>>> {
    match opt_member(j, key) {
        None => Some(None),
        Some(v) => match v.as_str() {
            Some(t) => Some(Some(t)),
            None => None,
        },
    }
}

/// The fields of a response, in their order.
pub open spec fn response_names() -> Seq<Seq<char>> {
    seq![
        "status_code"@,
        "request_id"@,
        "body"@,
    ]
}

fn response_names_list() -> (r: Vec<String>)
    ensures
        views(r@) == response_names(),
{
    let r: Vec<String> = vec![
        "status_code".to_owned(),
        "request_id".to_owned(),
        "body".to_owned(),
    ];
    assert(views(r@) == response_names());
    r
}

/// The fields of an error, in their order.
pub open spec fn error_names() -> Seq<Seq<char>> {
    seq![
        "code"@,
        "message"@,
    ]
}

fn error_names_list() -> (r: Vec<String>)
    ensures
        views(r@) == error_names(),
{
    let r: Vec<String> = vec![
        "code".to_owned(),
        "message".to_owned(),
    ];
    assert(views(r@) == error_names());
    r
}

/// The fields of a result, in their order.
pub open spec fn result_names() -> Seq<Seq<char>> {
    seq![
        "custom_id"@,
        "response"@,
        "error"@,
        "usage"@,
        "worker_id"@,
        "latency_ms"@,
        "attempt"@,
        "completed_at"@,
    ]
}

fn result_names_list() -> (r: Vec<String>)
    ensures
        views(r@) == result_names(),
{
    let r: Vec<String> = vec![
        "custom_id".to_owned(),
        "response".to_owned(),
        "error".to_owned(),
        "usage".to_owned(),
        "worker_id".to_owned(),
        "latency_ms".to_owned(),
        "attempt".to_owned(),
        "completed_at".to_owned(),
    ];
    assert(views(r@) == result_names());
    r
}

/// The response that a value describes: an object, or an array of the fields.
pub open spec fn response_of(j: JsonView) -> Option<ResponseView> {
    response_fields(as_record(j, response_names(), 3))
}

/// The error that a value describes: an object, or an array of the fields.
pub open spec fn error_of(j: JsonView) -> Option<(Seq<char>, Seq<char>)> {
    error_fields(as_record(j, error_names(), 2))
}

/// The result that a stored value describes: an object, or an array of the fields.
pub open spec fn result_of(j: JsonView) -> Option<ResultView> {
    result_fields(as_record(j, result_names(), 8))
}

/// The response that an object describes.
pub open spec fn response_fields(j: JsonView) -> Option<ResponseView> {
    match (j.u64_at("status_code"@), nullable_text(j, "request_id"@), j.get("body"@)) {
        (Some(code), Some(id), Some(body)) => if code <= u16::MAX {
            Some(ResponseView { status_code: code as u16, request_id: id, body })
        } else {
            None
        },
        _ => None,
    }
}

/// The error that an object describes.
pub open spec fn error_fields(j: JsonView) -> Option<(Seq<char>, Seq<char>)> {
    match (j.str_at("code"@), j.str_at("message"@)) {
        (Some(code), Some(message)) => Some((code, message)),
        _ => None,
    }
}

/// A signed integer of 64 bits.
pub open spec fn int_at(j: JsonView, key: Seq<char>) -> Option<i64> {
    match j.get(key) {
        Some(JsonView::Number(NumberView::Unsigned(n))) => if n <= i64::MAX {
            Some(n as i64)
        } else {
            None
        },
        Some(JsonView::Number(NumberView::Negative(n))) => Some(n),
        _ => None,
    }
}

/// The response of a result, which may be missing.
pub open spec fn response_in(j: JsonView) -> Option<Option<ResponseView>> {
    match opt_member(j, "response"@) {
        None => Some(None),
        Some(v) => match response_of(v) {
            Some(r) => Some(Some(r)),
            None => None,
        },
    }
}

/// The error of a result, which may be missing.
pub open spec fn error_in(j: JsonView) -> Option<Option<(Seq<char>, Seq<char>)>> {
    match opt_member(j, "error"@) {
        None => Some(None),
        Some(v) => match error_of(v) {
            Some(e) => Some(Some(e)),
            None => None,
        },
    }
}

/// The usage of a result, which must be there.
pub open spec fn usage_in(j: JsonView) -> Option<TokenUsage> {
    match j.get("usage"@) {
        Some(v) => stored_usage(v),
        None => None,
    }
}

/// The result that a stored object describes.
pub open spec fn result_fields(j: JsonView) -> Option<ResultView> {
    match (
        j.str_at("custom_id"@),
        response_in(j),
        error_in(j),
        usage_in(j),
        j.str_at("worker_id"@),
        j.u64_at("latency_ms"@),
        j.u64_at("attempt"@),
        int_at(j, "completed_at"@),
    ) {
        (
            Some(custom_id),
            Some(response),
            Some(error),
            Some(usage),
            Some(worker_id),
            Some(latency_ms),
            Some(attempt),
            Some(completed_at),
        ) => if attempt <= u32::MAX {
            Some(
                ResultView {
                    custom_id,
                    response,
                    error,
                    usage,
                    worker_id,
                    latency_ms,
                    attempt: attempt as u32,
                    completed_at,
                },
            )
        } else {
            None
        },
        _ => None,
    }
}

fn opt_at<'a>(j: &'a Json, key: &str) -> (r: Option<&'a Json>)
    ensures
        match r {
            Some(v) => opt_member(j@, key@) == Some(v@),
            None => opt_member(j@, key@) is None,
        },
{
    match j.get(key) {
        Some(v) => {
            if v.is_null() {
                None
            } else {
                Some(v)
            }
        },
        None => None,
    }
}

fn read_response(j: &Json) -> (r: Option<ItemResponse>)
    ensures
        match r {
            Some(x) => response_of(j@) == Some(x@),
            None => response_of(j@) is None,
        },
{
    match record_of_array(j, &response_names_list(), 3) {
        Some(record) => read_response_fields(&record),
        None => read_response_fields(j),
    }
}

fn read_response_fields(j: &Json) -> (r: Option<ItemResponse>)
    ensures
        match r {
            Some(x) => response_fields(j@) == Some(x@),
            None => response_fields(j@) is None,
        },
{
    let request_id: Option<String> = match opt_at(j, "request_id") {
        None => None,
        Some(v) => match v.as_str() {
            Some(t) => Some(t.to_owned()),
            None => {
                return None;
            },
        },
    };
    match (j.u64_at("status_code"), j.get("body")) {
        (Some(code), Some(body)) => {
            if code <= 0xffff {
                Some(
                    ItemResponse { status_code: code as u16, request_id, body: body.duplicate() },
                )
            } else {
                None
            }
        },
        _ => None,
    }
}

fn read_error(j: &Json) -> (r: Option<ItemError>)
    ensures
        match r {
            Some(x) => error_of(j@) == Some((x.code@, x.message@)),
            None => error_of(j@) is None,
        },
{
    match record_of_array(j, &error_names_list(), 2) {
        Some(record) => read_error_fields(&record),
        None => read_error_fields(j),
    }
}

fn read_error_fields(j: &Json) -> (r: Option<ItemError>)
    ensures
        match r {
            Some(x) => error_fields(j@) == Some((x.code@, x.message@)),
            None => error_fields(j@) is None,
        },
{
    match (j.str_at("code"), j.str_at("message")) {
        (Some(code), Some(message)) => Some(
            ItemError { code: code.to_owned(), message: message.to_owned() },
        ),
        _ => None,
    }
}

fn read_int(j: &Json, key: &str) -> (r: Option<i64>)
    ensures
        r == int_at(j@, key@),
{
    match j.get(key) {
        Some(v) => match v {
            Json::Number(Number::Unsigned(n)) => {
                if *n <= 0x7fff_ffff_ffff_ffff {
                    Some(*n as i64)
                } else {
                    None
                }
            },
            Json::Number(Number::Negative(n)) => Some(*n),
            _ => None,
        },
        None => None,
    }
}

/// The result that a stored value describes.
pub fn result_of_json(j: &Json) -> (r: Option<ItemResult>)
    ensures
        match r {
            Some(x) => result_of(j@) == Some(x@),
            None => result_of(j@) is None,
        },
{
    match record_of_array(j, &result_names_list(), 8) {
        Some(record) => read_result_fields(&record),
        None => read_result_fields(j),
    }
}

fn read_result_fields(j: &Json) -> (r: Option<ItemResult>)
    ensures
        match r {
            Some(x) => result_fields(j@) == Some(x@),
            None => result_fields(j@) is None,
        },
{
    let response: Option<ItemResponse> = match opt_at(j, "response") {
        None => None,
        Some(v) => match read_response(v) {
            Some(x) => Some(x),
            None => {
                return None;
            },
        },
    };
    let error: Option<ItemError> = match opt_at(j, "error") {
        None => None,
        Some(v) => match read_error(v) {
            Some(x) => Some(x),
            None => {
                return None;
            },
        },
    };
    let usage: TokenUsage = match j.get("usage") {
        Some(v) => match usage_of_json(v) {
            Some(u) => u,
            None => {
                return None;
            },
        },
        None => {
            return None;
        },
    };
    match (
        j.str_at("custom_id"),
        j.str_at("worker_id"),
        j.u64_at("latency_ms"),
        j.u64_at("attempt"),
        read_int(j, "completed_at"),
    ) {
        (Some(custom_id), Some(worker_id), Some(latency_ms), Some(attempt), Some(completed_at)) => {
            if attempt > 0xffff_ffff {
                return None;
            }
            let r: ItemResult = ItemResult {
                custom_id: custom_id.to_owned(),
                response,
                error,
                usage,
                worker_id: worker_id.to_owned(),
                latency_ms,
                attempt: attempt as u32,
                completed_at,
            };
            Some(r)
        },
        _ => None,
    }
}

/// A count in JSON.
pub open spec fn count_json(n: u64) -> JsonView {
    JsonView::Number(NumberView::Unsigned(n))
}

/// Usage in JSON.
pub open spec fn usage_json(u: TokenUsage) -> JsonView {
    JsonView::Object(
        seq![
            ("cached_tokens"@, count_json(u.cached_tokens)),
            ("completion_tokens"@, count_json(u.completion_tokens)),
            ("prompt_tokens"@, count_json(u.prompt_tokens)),
            ("reasoning_tokens"@, count_json(u.reasoning_tokens)),
            ("total_tokens"@, count_json(u.total_tokens)),
        ],
    )
}

/// A response in JSON; a request id that is not there is left out.
pub open spec fn response_json(r: ResponseView) -> JsonView {
    JsonView::Object(
        seq![("body"@, r.body)] + (match r.request_id {
            Some(id) => seq![("request_id"@, JsonView::Text(id))],
            None => Seq::empty(),
        }) + seq![("status_code"@, count_json(r.status_code as u64))],
    )
}

/// An error in JSON.
pub open spec fn error_json(e: (Seq<char>, Seq<char>)) -> JsonView {
    JsonView::Object(
        seq![("code"@, JsonView::Text(e.0)), ("message"@, JsonView::Text(e.1))],
    )
}

/// A result in JSON; a response or an error that is not there is left out.
pub open spec fn result_json(r: ResultView) -> JsonView {
    JsonView::Object(
        seq![
            ("attempt"@, count_json(r.attempt as u64)),
            ("completed_at"@, int_json(r.completed_at)),
            ("custom_id"@, JsonView::Text(r.custom_id)),
        ] + (match r.error {
            Some(e) => seq![("error"@, error_json(e))],
            None => Seq::empty(),
        }) + seq![("latency_ms"@, count_json(r.latency_ms))] + (match r.response {
            Some(x) => seq![("response"@, response_json(x))],
            None => Seq::empty(),
        }) + seq![
            ("usage"@, usage_json(r.usage)),
            ("worker_id"@, JsonView::Text(r.worker_id)),
        ],
    )
}

/// The body of a result is in the one form in which it would be read.
pub open spec fn body_is_canonical(r: ResultView) -> bool {
    match r.response {
        Some(x) => canonical(x.body),
        None => true,
    }
}

/// The line of a result can be read back: its body does not nest too deep for that.
pub open spec fn is_readable(r: ResultView) -> bool {
    match r.response {
        Some(x) => depth_within(x.body, (DEPTH_LIMIT - 2) as nat),
        None => true,
    }
}

/// Among names of which none is the key, no member is found.
proof fn lemma_no_member(m: Seq<(Seq<char>, JsonView)>, key: Seq<char>)
    requires
        forall|i: int| 0 <= i < m.len() ==> (#[trigger] m[i]).0 != key,
    ensures
        member(m, key) is None,
    decreases m.len(),
{
    if m.len() > 0 {
        assert(m[0].0 != key);
        let rest = m.skip(1);
        assert forall|i: int| 0 <= i < rest.len() implies (#[trigger] rest[i]).0 != key by {
            assert(rest[i] == m[i + 1]);
        }
        lemma_no_member(rest, key);
    }
}

proof fn lemma_usage_round_trip(u: TokenUsage)
    ensures
        stored_usage(usage_json(u)) == Some(u),
        canonical(usage_json(u)),
        depth_within(usage_json(u), 1),
{
    reveal_strlit("cached_tokens");
    reveal_strlit("completion_tokens");
    reveal_strlit("prompt_tokens");
    reveal_strlit("reasoning_tokens");
    reveal_strlit("total_tokens");
    let m = usage_json(u)->Object_0;
    assert("cached_tokens"@.take(1) == "completion_tokens"@.take(1));
    lemma_lex_at("cached_tokens"@, "completion_tokens"@, 1);
    assert("cached_tokens"@[0] == 'c' && "completion_tokens"@[0] == 'c' && "prompt_tokens"@[0]
        == 'p' && "reasoning_tokens"@[0] == 'r' && "total_tokens"@[0] == 't');
    assert(names_ascend(m));
    lemma_member_at(m, 0);
    lemma_member_at(m, 1);
    lemma_member_at(m, 2);
    lemma_member_at(m, 3);
    lemma_member_at(m, 4);
    assert forall|i: int| 0 <= i < m.len() implies canonical((#[trigger] m[i]).1) && depth_within(
        m[i].1,
        0,
    ) by {}
}

proof fn lemma_response_round_trip(r: ResponseView)
    ensures
        response_of(response_json(r)) == Some(r),
        canonical(r.body) ==> canonical(response_json(r)),
        depth_within(r.body, (DEPTH_LIMIT - 2) as nat) ==> depth_within(
            response_json(r),
            (DEPTH_LIMIT - 1) as nat,
        ),
{
    reveal_strlit("body");
    reveal_strlit("request_id");
    reveal_strlit("status_code");
    let m = response_json(r)->Object_0;
    assert("body"@[0] == 'b' && "request_id"@[0] == 'r' && "status_code"@[0] == 's');
    assert(m[0] == ("body"@, r.body));
    let last = m.len() - 1;
    assert(m[last] == ("status_code"@, count_json(r.status_code as u64)));
    if let Some(id) = r.request_id {
        assert(m[1] == ("request_id"@, JsonView::Text(id)));
        assert(canonical(m[1].1));
        assert(depth_within(m[1].1, (DEPTH_LIMIT - 2) as nat));
    }
    assert(names_ascend(m));
    lemma_member_at(m, 0);
    lemma_member_at(m, last);
    if r.request_id is Some {
        lemma_member_at(m, 1);
    } else {
        lemma_no_member(m, "request_id"@);
    }
    assert(canonical(m[last].1));
    assert(depth_within(m[last].1, (DEPTH_LIMIT - 2) as nat));
    if canonical(r.body) {
        assert forall|i: int| 0 <= i < m.len() implies canonical((#[trigger] m[i]).1) by {}
    }
    if depth_within(r.body, (DEPTH_LIMIT - 2) as nat) {
        assert forall|i: int| 0 <= i < m.len() implies depth_within(
            (#[trigger] m[i]).1,
            (DEPTH_LIMIT - 2) as nat,
        ) by {}
    }
}

proof fn lemma_error_round_trip(e: (Seq<char>, Seq<char>))
    ensures
        error_of(error_json(e)) == Some(e),
        canonical(error_json(e)),
        depth_within(error_json(e), 1),
{
    reveal_strlit("code");
    reveal_strlit("message");
    let m = error_json(e)->Object_0;
    assert("code"@[0] == 'c' && "message"@[0] == 'm');
    assert(names_ascend(m));
    lemma_member_at(m, 0);
    lemma_member_at(m, 1);
    assert forall|i: int| 0 <= i < m.len() implies canonical((#[trigger] m[i]).1) && depth_within(
        m[i].1,
        0,
    ) by {}
}

/// What nests within a limit nests within a greater one.
pub proof fn lemma_depth_grows(v: JsonView, a: nat, b: nat)
    requires
        depth_within(v, a),
        a <= b,
    ensures
        depth_within(v, b),
    decreases a,
{
    match v {
        JsonView::Array(items) => {
            assert forall|i: int| 0 <= i < items.len() implies depth_within(
                #[trigger] items[i],
                (b - 1) as nat,
            ) by {
                lemma_depth_grows(items[i], (a - 1) as nat, (b - 1) as nat);
            }
        },
        JsonView::Object(members) => {
            assert forall|i: int| 0 <= i < members.len() implies depth_within(
                (#[trigger] members[i]).1,
                (b - 1) as nat,
            ) by {
                lemma_depth_grows(members[i].1, (a - 1) as nat, (b - 1) as nat);
            }
        },
        _ => {},
    }
}

/// The members of a result stand in the order of their names.
proof fn lemma_result_names(r: ResultView)
    ensures
        names_ascend(result_json(r)->Object_0),
        forall|i: int|
            0 <= i < result_json(r)->Object_0.len() && (#[trigger] result_json(
                r,
            )->Object_0[i]).0 == "error"@ ==> r.error is Some,
        forall|i: int|
            0 <= i < result_json(r)->Object_0.len() && (#[trigger] result_json(
                r,
            )->Object_0[i]).0 == "response"@ ==> r.response is Some,
{
    reveal_strlit("attempt");
    reveal_strlit("completed_at");
    reveal_strlit("custom_id");
    reveal_strlit("error");
    reveal_strlit("latency_ms");
    reveal_strlit("response");
    reveal_strlit("usage");
    reveal_strlit("worker_id");
    assert("completed_at"@.take(1) == "custom_id"@.take(1));
    lemma_lex_at("completed_at"@, "custom_id"@, 1);
    assert("attempt"@[0] == 'a' && "completed_at"@[0] == 'c' && "custom_id"@[0] == 'c'
        && "error"@[0] == 'e' && "latency_ms"@[0] == 'l' && "response"@[0] == 'r' && "usage"@[0]
        == 'u' && "worker_id"@[0] == 'w');
    let m = result_json(r)->Object_0;
    assert(names_ascend(m));
}

/// A result is read back as it was written.
pub proof fn law_result_round_trip(r: ResultView)
    ensures
        result_of(result_json(r)) == Some(r),
        result_json(r).str_at("custom_id"@) == Some(r.custom_id),
        body_is_canonical(r) ==> canonical(result_json(r)),
        is_readable(r) ==> depth_within(result_json(r), DEPTH_LIMIT as nat),
{
    lemma_result_names(r);
    lemma_usage_round_trip(r.usage);
    lemma_depth_grows(usage_json(r.usage), 1, (DEPTH_LIMIT - 1) as nat);
    let m = result_json(r)->Object_0;
    let e: int = if r.error is Some {
        1
    } else {
        0
    };
    let p: int = if r.response is Some {
        1
    } else {
        0
    };
    assert(m.len() == 6 + e + p);
    assert(m[0] == ("attempt"@, count_json(r.attempt as u64)));
    assert(m[1] == ("completed_at"@, int_json(r.completed_at)));
    assert(m[2] == ("custom_id"@, JsonView::Text(r.custom_id)));
    assert(m[3 + e] == ("latency_ms"@, count_json(r.latency_ms)));
    assert(m[4 + e + p] == ("usage"@, usage_json(r.usage)));
    assert(m[5 + e + p] == ("worker_id"@, JsonView::Text(r.worker_id)));
    lemma_member_at(m, 0);
    lemma_member_at(m, 1);
    lemma_member_at(m, 2);
    lemma_member_at(m, 3 + e);
    lemma_member_at(m, 4 + e + p);
    lemma_member_at(m, 5 + e + p);
    if r.error is Some {
        lemma_error_round_trip(r.error->0);
        lemma_depth_grows(error_json(r.error->0), 1, (DEPTH_LIMIT - 1) as nat);
        assert(m[3] == ("error"@, error_json(r.error->0)));
        lemma_member_at(m, 3);
    } else {
        lemma_no_member(m, "error"@);
    }
    if r.response is Some {
        lemma_response_round_trip(r.response->0);
        assert(m[4 + e] == ("response"@, response_json(r.response->0)));
        lemma_member_at(m, 4 + e);
    } else {
        lemma_no_member(m, "response"@);
    }
    if body_is_canonical(r) {
        assert forall|i: int| 0 <= i < m.len() implies canonical((#[trigger] m[i]).1) by {
            if i == 4 + e && p == 1 {
                assert(m[i].1 == response_json(r.response->0));
            } else if i == 3 && e == 1 {
                assert(m[i].1 == error_json(r.error->0));
            }
        }
    }
    if is_readable(r) {
        assert forall|i: int| 0 <= i < m.len() implies depth_within(
            (#[trigger] m[i]).1,
            (DEPTH_LIMIT - 1) as nat,
        ) by {
            if i == 4 + e && p == 1 {
                assert(m[i].1 == response_json(r.response->0));
            } else if i == 3 && e == 1 {
                assert(m[i].1 == error_json(r.error->0));
            }
        }
    }
}

fn write_usage(u: &TokenUsage) -> (j: Json)
    ensures
        j@ == usage_json(*u),
{
    let members: Vec<(String, Json)> = vec![
        ("cached_tokens".to_owned(), count_value(u.cached_tokens)),
        ("completion_tokens".to_owned(), count_value(u.completion_tokens)),
        ("prompt_tokens".to_owned(), count_value(u.prompt_tokens)),
        ("reasoning_tokens".to_owned(), count_value(u.reasoning_tokens)),
        ("total_tokens".to_owned(), count_value(u.total_tokens)),
    ];
    proof {
        lemma_object_view(members);
        assert(members_view(members@) == usage_json(*u)->Object_0);
    }
    Json::Object(members)
}

fn write_response(r: &ItemResponse) -> (j: Json)
    ensures
        j@ == response_json(r@),
{
    let mut members: Vec<(String, Json)> = vec![("body".to_owned(), r.body.duplicate())];
    if let Some(id) = &r.request_id {
        members.push(("request_id".to_owned(), text_value(id.as_str())));
    }
    members.push(("status_code".to_owned(), count_value(r.status_code as u64)));
    proof {
        lemma_object_view(members);
        assert(members_view(members@) == response_json(r@)->Object_0);
    }
    Json::Object(members)
}

fn write_error(e: &ItemError) -> (j: Json)
    ensures
        j@ == error_json((e.code@, e.message@)),
{
    let members: Vec<(String, Json)> = vec![
        ("code".to_owned(), text_value(e.code.as_str())),
        ("message".to_owned(), text_value(e.message.as_str())),
    ];
    proof {
        lemma_object_view(members);
        assert(members_view(members@) == error_json((e.code@, e.message@))->Object_0);
    }
    Json::Object(members)
}

impl ItemResult {
    /// This result in JSON.
    pub fn to_json(&self) -> (j: Json)
        ensures
            j@ == result_json(self@),
    {
        let mut members: Vec<(String, Json)> = vec![
            ("attempt".to_owned(), count_value(self.attempt as u64)),
            ("completed_at".to_owned(), int_value(self.completed_at)),
            ("custom_id".to_owned(), text_value(self.custom_id.as_str())),
        ];
        if let Some(e) = &self.error {
            members.push(("error".to_owned(), write_error(e)));
        }
        members.push(("latency_ms".to_owned(), count_value(self.latency_ms)));
        if let Some(x) = &self.response {
            members.push(("response".to_owned(), write_response(x)));
        }
        members.push(("usage".to_owned(), write_usage(&self.usage)));
        members.push(("worker_id".to_owned(), text_value(self.worker_id.as_str())));
        proof {
            lemma_object_view(members);
            assert(members_view(members@) == result_json(self@)->Object_0);
        }
        Json::Object(members)
    }

    /// The line of this result in a results file, without its line end. It is read back as
    /// the result, unless its body nests too deep.
    pub fn to_line(&self) -> (line: String)
        requires
            body_is_canonical(self@),
        ensures
            line@ == json_text(result_json(self@)),
            !line@.contains('\n'),
            trim(line@).len() > 0,
            is_readable(self@) ==> parses_to(line@, result_json(self@)),
    {
        proof {
            law_result_round_trip(self@);
        }
        render_json(&self.to_json())
    }
}

/// A stored result is read by the names of its fields: its id, its response with its status
/// and body, its error with its code and message, its tokens, its worker, its latency and
/// its attempt.
pub proof fn law_results_are_read_by_name(j: &Json, r: Option<ItemResult>)
    requires
        call_ensures(result_of_json, (j,), r),
        j@ is Object,
        r is Some,
    ensures
        j@.str_at("custom_id"@) == Some(r->0.custom_id@),
        j@.str_at("worker_id"@) == Some(r->0.worker_id@),
        j@.u64_at("latency_ms"@) == Some(r->0.latency_ms),
        j@.u64_at("attempt"@) == Some(r->0.attempt as u64),
        j@.u64_at("completed_at"@) matches Some(n) ==> r->0.completed_at == n,
        r->0.response is None <==> j@.get("response"@) is None || j@.get("response"@)->0 is Null,
        r->0.error is None <==> j@.get("error"@) is None || j@.get("error"@)->0 is Null,
        j@.get("response"@) matches Some(x) ==> x is Object ==> (r->0.response matches Some(resp)
            && x.get("body"@) == Some(resp.body@) && x.u64_at("status_code"@) == Some(
            resp.status_code as u64,
        ) && (resp.request_id matches Some(t) ==> x.str_at("request_id"@) == Some(t@))),
        j@.get("error"@) matches Some(x) ==> x is Object ==> (r->0.error matches Some(e) && x.str_at(
            "code"@,
        ) == Some(e.code@) && x.str_at("message"@) == Some(e.message@)),
        j@.get("usage"@) matches Some(u) && (u is Object ==> (u.get("prompt_tokens"@) is Some
            ==> u.u64_at("prompt_tokens"@) == Some(r->0.usage.prompt_tokens)) && (u.get(
            "completion_tokens"@,
        ) is Some ==> u.u64_at("completion_tokens"@) == Some(r->0.usage.completion_tokens)) && (u.get(
            "total_tokens"@,
        ) is Some ==> u.u64_at("total_tokens"@) == Some(r->0.usage.total_tokens)) && (u.get(
            "cached_tokens"@,
        ) is Some ==> u.u64_at("cached_tokens"@) == Some(r->0.usage.cached_tokens)) && (u.get(
            "reasoning_tokens"@,
        ) is Some ==> u.u64_at("reasoning_tokens"@) == Some(r->0.usage.reasoning_tokens))),
{
}

/// A stored result is what was written: what is read back of a result's own form is the
/// result, and that form names each of its fields.
pub proof fn law_written_results_name_their_fields(r: &ItemResult, j: Json, back: Option<ItemResult>)
    requires
        call_ensures(ItemResult::to_json, (r,), j),
        call_ensures(result_of_json, (&j,), back),
        body_is_canonical(r@),
    ensures
        back matches Some(b) && b@ == r@,
        j@.str_at("custom_id"@) == Some(r.custom_id@),
        j@.str_at("worker_id"@) == Some(r.worker_id@),
        j@.u64_at("attempt"@) == Some(r.attempt as u64),
        r.response matches Some(x) ==> (j@.get("response"@) matches Some(v) && !(v is Null)),
        r.error is Some ==> j@.get("error"@) is Some,
        r.error is None ==> j@.get("error"@) is None || j@.get("error"@)->0 is Null,
{
    law_result_round_trip(r@);
}

} // verus!

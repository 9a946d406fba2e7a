//! The contract between the coordinator and its agents.
//!
//! An agent asks for a lease, gets a batch, posts each result, and may report that it is
//! being interrupted. This is a flat lease protocol: a message never names another item.
//! Each message has a JSON form, in which it is sent and from which it is read back.

use vstd::prelude::*;

use crate::json::{
    as_record, canonical, lemma_object_view, list_view, members_view, names_ascend,
    record_of_array, Json, JsonView, Number, NumberView,
};
use crate::result::{nullable_text, token_count};
use crate::text::{opt_view, views};

verus! {

/// An agent asks for up to `max` items, each leased for `lease_secs`.
#[derive(Debug, Clone, PartialEq, Eq)]
pub struct LeasePull {
    /// The engine that the agent fronts.
    pub worker_id: String,
    /// Upper bound on the batch.
    pub max: u32,
    /// The visibility timeout that the agent asks for, in seconds.
    pub lease_secs: u64,
}

/// One leased item on the wire: what it takes to run the request and to fence the
/// result.
#[derive(Debug, Clone, PartialEq)]
pub struct WireItem {
    pub custom_id: String,
    pub method: String,
    /// The request path; empty for the worker's default.
    pub url: String,
    pub body: Json,
    /// The lease generation, which the result echoes.
    pub lease_generation: u64,
    /// Attempts already spent on this item before this lease.
    pub attempts: u32,
}

/// The granted batch; an empty one means that nothing is ready.
#[derive(Debug, Clone, PartialEq)]
pub struct LeaseGrant {
    pub items: Vec<WireItem>,
}

impl LeaseGrant {
    /// Nothing is ready.
    pub fn empty() -> (g: Self)
        ensures
            g.items@.len() == 0,
    {
        LeaseGrant { items: Vec::new() }
    }

    /// Whether nothing is ready.
    pub fn is_empty(&self) -> (r: bool)
        ensures
            r == (self.items@.len() == 0),
    {
        self.items.len() == 0
    }
}

/// Token counts on the wire.
#[derive(Debug, Clone, Copy, PartialEq, Eq, Structural)]
pub struct WireUsage {
    pub prompt_tokens: u64,
    pub completion_tokens: u64,
    pub total_tokens: u64,
}

/// No tokens.
pub open spec fn no_wire_usage() -> WireUsage {
    WireUsage { prompt_tokens: 0, completion_tokens: 0, total_tokens: 0 }
}

impl Default for WireUsage {
    fn default() -> (u: Self)
        ensures
            u == no_wire_usage(),
    {
        WireUsage { prompt_tokens: 0, completion_tokens: 0, total_tokens: 0 }
    }
}

/// The terminal disposition of an item that an agent ran.
#[derive(Debug, Clone, PartialEq)]
pub enum WireOutcome {
    /// A validated response.
    Done { status_code: u16, response: Json, usage: WireUsage, latency_ms: u64 },
    /// A terminal failure.
    DeadLetter { error: String },
}

/// One finished item, fenced by its lease generation.
#[derive(Debug, Clone, PartialEq)]
pub struct ResultPost {
    pub custom_id: String,
    pub lease_generation: u64,
    pub worker_id: String,
    pub outcome: WireOutcome,
}

/// Whether the fenced transition applied. That it did not is harmless.
#[derive(Debug, Clone, Copy, PartialEq, Eq, Structural)]
pub struct AckReply {
    pub acked: bool,
}

/// An agent's heads-up that it is being interrupted. Advisory only.
#[derive(Debug, Clone, PartialEq, Eq)]
pub struct InterruptionNotice {
    pub worker_id: String,
    pub cloud: String,
    pub kind: String,
    /// The cloud's own deadline, when it gives one.
    pub deadline: Option<String>,
}

/// The view of a [`LeasePull`].
#[verifier::ext_equal]
pub struct LeasePullView {
    pub worker_id: Seq<char>,
    pub max: u32,
    pub lease_secs: u64,
}

/// The view of a [`WireItem`].
#[verifier::ext_equal]
pub struct WireItemView {
    pub custom_id: Seq<char>,
    pub method: Seq<char>,
    pub url: Seq<char>,
    pub body: JsonView,
    pub lease_generation: u64,
    pub attempts: u32,
}

/// The view of a [`WireOutcome`].
#[verifier::ext_equal]
pub enum WireOutcomeView {
    Done { status_code: u16, response: JsonView, usage: WireUsage, latency_ms: u64 },
    DeadLetter { error: Seq<char> },
}

/// The view of a [`ResultPost`].
#[verifier::ext_equal]
pub struct ResultPostView {
    pub custom_id: Seq<char>,
    pub lease_generation: u64,
    pub worker_id: Seq<char>,
    pub outcome: WireOutcomeView,
}

/// The view of an [`InterruptionNotice`].
#[verifier::ext_equal]
pub struct InterruptionNoticeView {
    pub worker_id: Seq<char>,
    pub cloud: Seq<char>,
    pub kind: Seq<char>,
    pub deadline: Option<Seq<char>>,
}

impl View for LeasePull {
    type V = LeasePullView;

    open spec fn view(&self) -> LeasePullView {
        LeasePullView { worker_id: self.worker_id@, max: self.max, lease_secs: self.lease_secs }
    }
}

impl View for WireItem {
    type V = WireItemView;

    open spec fn view(&self) -> WireItemView {
        WireItemView {
            custom_id: self.custom_id@,
            method: self.method@,
            url: self.url@,
            body: self.body@,
            lease_generation: self.lease_generation,
            attempts: self.attempts,
        }
    }
}

/// The views of items.
pub open spec fn wire_views(items: Seq<WireItem>) -> Seq<WireItemView> {
    items.map_values(|w: WireItem| w@)
}

impl View for LeaseGrant {
    type V = Seq<WireItemView>;

    open spec fn view(&self) -> Seq<WireItemView> {
        wire_views(self.items@)
    }
}

impl View for WireOutcome {
    type V = WireOutcomeView;

    open spec fn view(&self) -> WireOutcomeView {
        match self {
            WireOutcome::Done { status_code, response, usage, latency_ms } => WireOutcomeView::Done {
                status_code: *status_code,
                response: response@,
                usage: *usage,
                latency_ms: *latency_ms,
            },
            WireOutcome::DeadLetter { error } => WireOutcomeView::DeadLetter { error: error@ },
        }
    }
}

impl View for ResultPost {
    type V = ResultPostView;

    open spec fn view(&self) -> ResultPostView {
        ResultPostView {
            custom_id: self.custom_id@,
            lease_generation: self.lease_generation,
            worker_id: self.worker_id@,
            outcome: self.outcome@,
        }
    }
}

impl View for InterruptionNotice {
    type V = InterruptionNoticeView;

    open spec fn view(&self) -> InterruptionNoticeView {
        InterruptionNoticeView {
            worker_id: self.worker_id@,
            cloud: self.cloud@,
            kind: self.kind@,
            deadline: opt_view(self.deadline),
        }
    }
}

impl WireItem {
    /// An equal item.
    pub fn duplicate(&self) -> (r: WireItem)
        ensures
            r@ == self@,
    {
        WireItem {
            custom_id: self.custom_id.as_str().to_owned(),
            method: self.method.as_str().to_owned(),
            url: self.url.as_str().to_owned(),
            body: self.body.duplicate(),
            lease_generation: self.lease_generation,
            attempts: self.attempts,
        }
    }
}

impl WireOutcome {
    /// An equal outcome.
    pub fn duplicate(&self) -> (r: WireOutcome)
        ensures
            r@ == self@,
    {
        match self {
            WireOutcome::Done { status_code, response, usage, latency_ms } => WireOutcome::Done {
                status_code: *status_code,
                response: response.duplicate(),
                usage: *usage,
                latency_ms: *latency_ms,
            },
            WireOutcome::DeadLetter { error } => WireOutcome::DeadLetter {
                error: error.as_str().to_owned(),
            },
        }
    }
}

impl ResultPost {
    /// An equal post.
    pub fn duplicate(&self) -> (r: ResultPost)
        ensures
            r@ == self@,
    {
        ResultPost {
            custom_id: self.custom_id.as_str().to_owned(),
            lease_generation: self.lease_generation,
            worker_id: self.worker_id.as_str().to_owned(),
            outcome: self.outcome.duplicate(),
        }
    }
}

/// A count in JSON.
pub open spec fn count_json(n: u64) -> JsonView {
    JsonView::Number(NumberView::Unsigned(n))
}

fn count(n: u64) -> (j: Json)
    ensures
        j@ == count_json(n),
{
    Json::Number(Number::Unsigned(n))
}

fn text(s: &str) -> (j: Json)
    ensures
        j@ == JsonView::Text(s@),
{
    Json::Text(s.to_owned())
}

/// A request for a lease in JSON.
pub open spec fn pull_json(p: LeasePullView) -> JsonView {
    JsonView::Object(
        seq![
            ("lease_secs"@, count_json(p.lease_secs)),
            ("max"@, count_json(p.max as u64)),
            ("worker_id"@, JsonView::Text(p.worker_id)),
        ],
    )
}

/// The request for a lease that a value describes.
pub open spec fn pull_of(j: JsonView) -> Option<LeasePullView> {
    pull_fields(as_record(j, pull_names(), 3))
}

/// The fields of a request for a lease, in their order.
pub open spec fn pull_names() -> Seq<Seq<char>> {
    seq![
        "worker_id"@,
        "max"@,
        "lease_secs"@,
    ]
}

fn pull_names_list() -> (r: Vec<String>)
    ensures
        views(r@) == pull_names(),
{
    let r: Vec<String> = vec![
        "worker_id".to_owned(),
        "max".to_owned(),
        "lease_secs".to_owned(),
    ];
    assert(views(r@) == pull_names());
    r
}

/// The same, of an object.
pub open spec fn pull_fields(j: JsonView) -> Option<LeasePullView> {
    match (j.str_at("worker_id"@), j.u64_at("max"@), j.u64_at("lease_secs"@)) {
        (Some(worker_id), Some(max), Some(lease_secs)) => if max <= u32::MAX {
            Some(LeasePullView { worker_id, max: max as u32, lease_secs })
        } else {
            None
        },
        _ => None,
    }
}

/// An item in JSON.
pub open spec fn item_json(w: WireItemView) -> JsonView {
    JsonView::Object(
        seq![
            ("attempts"@, count_json(w.attempts as u64)),
            ("body"@, w.body),
            ("custom_id"@, JsonView::Text(w.custom_id)),
            ("lease_generation"@, count_json(w.lease_generation)),
            ("method"@, JsonView::Text(w.method)),
            ("url"@, JsonView::Text(w.url)),
        ],
    )
}

/// The item that a value describes. The attempts may be missing.
pub open spec fn item_of(j: JsonView) -> Option<WireItemView> {
    item_fields(as_record(j, item_names(), 5))
}

/// The fields of an item, in their order.
pub open spec fn item_names() -> Seq<Seq<char>> {
    seq![
        "custom_id"@,
        "method"@,
        "url"@,
        "body"@,
        "lease_generation"@,
        "attempts"@,
    ]
}

fn item_names_list() -> (r: Vec<String>)
    ensures
        views(r@) == item_names(),
{
    let r: Vec<String> = vec![
        "custom_id".to_owned(),
        "method".to_owned(),
        "url".to_owned(),
        "body".to_owned(),
        "lease_generation".to_owned(),
        "attempts".to_owned(),
    ];
    assert(views(r@) == item_names());
    r
}

/// The same, of an object.
pub open spec fn item_fields(j: JsonView) -> Option<WireItemView> {
    match (
        j.str_at("custom_id"@),
        j.str_at("method"@),
        j.str_at("url"@),
        j.get("body"@),
        j.u64_at("lease_generation"@),
        token_count(j.get("attempts"@)),
    ) {
        (
            Some(custom_id),
            Some(method),
            Some(url),
            Some(body),
            Some(lease_generation),
            Some(attempts),
        ) => if attempts <= u32::MAX {
            Some(
                WireItemView {
                    custom_id,
                    method,
                    url,
                    body,
                    lease_generation,
                    attempts: attempts as u32,
                },
            )
        } else {
            None
        },
        _ => None,
    }
}

/// Items in JSON.
pub open spec fn items_json(items: Seq<WireItemView>) -> Seq<JsonView> {
    items.map_values(|w: WireItemView| item_json(w))
}

/// A grant in JSON.
pub open spec fn grant_json(items: Seq<WireItemView>) -> JsonView {
    JsonView::Object(seq![("items"@, JsonView::Array(items_json(items)))])
}

/// The items that values describe; nothing where one describes none.
pub open spec fn items_of(list: Seq<JsonView>) -> Option<Seq<WireItemView>>
    decreases list.len(),
{
    if list.len() == 0 {
        Some(Seq::empty())
    } else {
        match (items_of(list.drop_last()), item_of(list.last())) {
            (Some(init), Some(w)) => Some(init.push(w)),
            _ => None,
        }
    }
}

/// The grant that a value describes.
pub open spec fn grant_of(j: JsonView) -> Option<Seq<WireItemView>> {
    grant_fields(as_record(j, grant_names(), 1))
}

/// The fields of a grant.
pub open spec fn grant_names() -> Seq<Seq<char>> {
    seq![
        "items"@,
    ]
}

fn grant_names_list() -> (r: Vec<String>)
    ensures
        views(r@) == grant_names(),
{
    let r: Vec<String> = vec![
        "items".to_owned(),
    ];
    assert(views(r@) == grant_names());
    r
}

/// The same, of an object.
pub open spec fn grant_fields(j: JsonView) -> Option<Seq<WireItemView>> {
    match j.array_at("items"@) {
        Some(list) => items_of(list),
        None => None,
    }
}

/// Token counts in JSON.
pub open spec fn wire_usage_json(u: WireUsage) -> JsonView {
    JsonView::Object(
        seq![
            ("completion_tokens"@, count_json(u.completion_tokens)),
            ("prompt_tokens"@, count_json(u.prompt_tokens)),
            ("total_tokens"@, count_json(u.total_tokens)),
        ],
    )
}

/// The token counts that a value describes. Any of them may be missing.
pub open spec fn wire_usage_of(j: JsonView) -> Option<WireUsage> {
    wire_usage_fields(as_record(j, wire_usage_names(), 0))
}

/// The token counts, in their order.
pub open spec fn wire_usage_names() -> Seq<Seq<char>> {
    seq![
        "prompt_tokens"@,
        "completion_tokens"@,
        "total_tokens"@,
    ]
}

fn wire_usage_names_list() -> (r: Vec<String>)
    ensures
        views(r@) == wire_usage_names(),
{
    let r: Vec<String> = vec![
        "prompt_tokens".to_owned(),
        "completion_tokens".to_owned(),
        "total_tokens".to_owned(),
    ];
    assert(views(r@) == wire_usage_names());
    r
}

/// The same, of an object.
pub open spec fn wire_usage_fields(j: JsonView) -> Option<WireUsage> {
    if j is Object {
        match (
            token_count(j.get("prompt_tokens"@)),
            token_count(j.get("completion_tokens"@)),
            token_count(j.get("total_tokens"@)),
        ) {
            (Some(prompt_tokens), Some(completion_tokens), Some(total_tokens)) => Some(
                WireUsage { prompt_tokens, completion_tokens, total_tokens },
            ),
            _ => None,
        }
    } else {
        None
    }
}

/// The fields of a success in JSON.
pub open spec fn done_json(
    status_code: u16,
    response: JsonView,
    usage: WireUsage,
    latency_ms: u64,
) -> JsonView {
    JsonView::Object(
        seq![
            ("latency_ms"@, count_json(latency_ms)),
            ("response"@, response),
            ("status_code"@, count_json(status_code as u64)),
            ("usage"@, wire_usage_json(usage)),
        ],
    )
}

/// An outcome in JSON: an object whose one member is named by the disposition.
pub open spec fn outcome_json(o: WireOutcomeView) -> JsonView {
    match o {
        WireOutcomeView::Done { status_code, response, usage, latency_ms } => JsonView::Object(
            seq![("done"@, done_json(status_code, response, usage, latency_ms))],
        ),
        WireOutcomeView::DeadLetter { error } => JsonView::Object(
            seq![("dead_letter"@, JsonView::Object(seq![("error"@, JsonView::Text(error))]))],
        ),
    }
}

/// The success that a value describes. Usage and latency may be missing.
pub open spec fn done_of(j: JsonView) -> Option<WireOutcomeView> {
    done_fields(as_record(j, done_names(), 2))
}

/// The fields of a success, in their order.
pub open spec fn done_names() -> Seq<Seq<char>> {
    seq![
        "status_code"@,
        "response"@,
        "usage"@,
        "latency_ms"@,
    ]
}

fn done_names_list() -> (r: Vec<String>)
    ensures
        views(r@) == done_names(),
{
    let r: Vec<String> = vec![
        "status_code".to_owned(),
        "response".to_owned(),
        "usage".to_owned(),
        "latency_ms".to_owned(),
    ];
    assert(views(r@) == done_names());
    r
}

/// The same, of an object.
pub open spec fn done_fields(j: JsonView) -> Option<WireOutcomeView> {
    let usage = match j.get("usage"@) {
        None => Some(no_wire_usage()),
        Some(v) => wire_usage_of(v),
    };
    match (j.u64_at("status_code"@), j.get("response"@), usage, token_count(j.get("latency_ms"@))) {
        (Some(code), Some(response), Some(usage), Some(latency_ms)) => if code <= u16::MAX {
            Some(WireOutcomeView::Done { status_code: code as u16, response, usage, latency_ms })
        } else {
            None
        },
        _ => None,
    }
}

/// The fields of a failure.
pub open spec fn dead_names() -> Seq<Seq<char>> {
    seq![
        "error"@,
    ]
}

fn dead_names_list() -> (r: Vec<String>)
    ensures
        views(r@) == dead_names(),
{
    let r: Vec<String> = vec![
        "error".to_owned(),
    ];
    assert(views(r@) == dead_names());
    r
}

/// The outcome that a value describes: its one member says which.
pub open spec fn outcome_of(j: JsonView) -> Option<WireOutcomeView> {
    match j {
        JsonView::Object(members) => if members.len() != 1 {
            None
        } else if members[0].0 == "done"@ {
            done_of(members[0].1)
        } else if members[0].0 == "dead_letter"@ {
            match as_record(members[0].1, dead_names(), 1).str_at("error"@) {
                Some(error) => Some(WireOutcomeView::DeadLetter { error }),
                None => None,
            }
        } else {
            None
        },
        _ => None,
    }
}

/// A post in JSON.
pub open spec fn post_json(p: ResultPostView) -> JsonView {
    JsonView::Object(
        seq![
            ("custom_id"@, JsonView::Text(p.custom_id)),
            ("lease_generation"@, count_json(p.lease_generation)),
            ("outcome"@, outcome_json(p.outcome)),
            ("worker_id"@, JsonView::Text(p.worker_id)),
        ],
    )
}

/// The outcome under a name.
pub open spec fn outcome_at(j: JsonView, key: Seq<char>) -> Option<WireOutcomeView> {
    match j.get(key) {
        Some(v) => outcome_of(v),
        None => None,
    }
}

/// The post that a value describes.
pub open spec fn post_of(j: JsonView) -> Option<ResultPostView> {
    post_fields(as_record(j, post_names(), 4))
}

/// The fields of a post, in their order.
pub open spec fn post_names() -> Seq<Seq<char>> {
    seq![
        "custom_id"@,
        "lease_generation"@,
        "worker_id"@,
        "outcome"@,
    ]
}

fn post_names_list() -> (r: Vec<String>)
    ensures
        views(r@) == post_names(),
{
    let r: Vec<String> = vec![
        "custom_id".to_owned(),
        "lease_generation".to_owned(),
        "worker_id".to_owned(),
        "outcome".to_owned(),
    ];
    assert(views(r@) == post_names());
    r
}

/// The same, of an object.
pub open spec fn post_fields(j: JsonView) -> Option<ResultPostView> {
    match (
        j.str_at("custom_id"@),
        j.u64_at("lease_generation"@),
        j.str_at("worker_id"@),
        outcome_at(j, "outcome"@),
    ) {
        (Some(custom_id), Some(lease_generation), Some(worker_id), Some(outcome)) => Some(
            ResultPostView { custom_id, lease_generation, worker_id, outcome },
        ),
        _ => None,
    }
}

/// An ack in JSON.
pub open spec fn ack_json(a: AckReply) -> JsonView {
    JsonView::Object(seq![("acked"@, JsonView::Bool(a.acked))])
}

/// The ack that a value describes.
pub open spec fn ack_of(j: JsonView) -> Option<AckReply> {
    ack_fields(as_record(j, ack_names(), 1))
}

/// The fields of an ack.
pub open spec fn ack_names() -> Seq<Seq<char>> {
    seq![
        "acked"@,
    ]
}

fn ack_names_list() -> (r: Vec<String>)
    ensures
        views(r@) == ack_names(),
{
    let r: Vec<String> = vec![
        "acked".to_owned(),
    ];
    assert(views(r@) == ack_names());
    r
}

/// The same, of an object.
pub open spec fn ack_fields(j: JsonView) -> Option<AckReply> {
    match j.get("acked"@) {
        Some(JsonView::Bool(acked)) => Some(AckReply { acked }),
        _ => None,
    }
}

/// A notice in JSON; a deadline that is not there is left out.
pub open spec fn notice_json(n: InterruptionNoticeView) -> JsonView {
    JsonView::Object(
        seq![("cloud"@, JsonView::Text(n.cloud))] + (match n.deadline {
            Some(d) => seq![("deadline"@, JsonView::Text(d))],
            None => Seq::empty(),
        }) + seq![
            ("kind"@, JsonView::Text(n.kind)),
            ("worker_id"@, JsonView::Text(n.worker_id)),
        ],
    )
}

/// The notice that a value describes.
pub open spec fn notice_of(j: JsonView) -> Option<InterruptionNoticeView> {
    notice_fields(as_record(j, notice_names(), 3))
}

/// The fields of a notice, in their order.
pub open spec fn notice_names() -> Seq<Seq<char>> {
    seq![
        "worker_id"@,
        "cloud"@,
        "kind"@,
        "deadline"@,
    ]
}

fn notice_names_list() -> (r: Vec<String>)
    ensures
        views(r@) == notice_names(),
{
    let r: Vec<String> = vec![
        "worker_id".to_owned(),
        "cloud".to_owned(),
        "kind".to_owned(),
        "deadline".to_owned(),
    ];
    assert(views(r@) == notice_names());
    r
}

/// The same, of an object.
pub open spec fn notice_fields(j: JsonView) -> Option<InterruptionNoticeView> {
    match (
        j.str_at("worker_id"@),
        j.str_at("cloud"@),
        j.str_at("kind"@),
        nullable_text(j, "deadline"@),
    ) {
        (Some(worker_id), Some(cloud), Some(kind), Some(deadline)) => Some(
            InterruptionNoticeView { worker_id, cloud, kind, deadline },
        ),
        _ => None,
    }
}

impl LeasePull {
    /// This request in JSON.
    pub fn to_json(&self) -> (j: Json)
        ensures
            j@ == pull_json(self@),
    {
        let members: Vec<(String, Json)> = vec![
            ("lease_secs".to_owned(), count(self.lease_secs)),
            ("max".to_owned(), count(self.max as u64)),
            ("worker_id".to_owned(), text(self.worker_id.as_str())),
        ];
        proof {
            lemma_object_view(members);
            assert(members_view(members@) == pull_json(self@)->Object_0);
        }
        Json::Object(members)
    }

    /// The request that a value describes.
    pub fn from_json(j: &Json) -> (r: Option<LeasePull>)
        ensures
            match r {
                Some(p) => pull_of(j@) == Some(p@),
                None => pull_of(j@) is None,
            },
    {
        match record_of_array(j, &pull_names_list(), 3) {
            Some(record) => Self::from_fields(&record),
            None => Self::from_fields(j),
        }
    }

    fn from_fields(j: &Json) -> (r: Option<LeasePull>)
        ensures
            match r {
                Some(p) => pull_fields(j@) == Some(p@),
                None => pull_fields(j@) is None,
            },
    {
        match (j.str_at("worker_id"), j.u64_at("max"), j.u64_at("lease_secs")) {
            (Some(worker_id), Some(max), Some(lease_secs)) => {
                if max <= 0xffff_ffff {
                    Some(LeasePull { worker_id: worker_id.to_owned(), max: max as u32, lease_secs })
                } else {
                    None
                }
            },
            _ => None,
        }
    }
}

fn count_or_zero(j: Option<&Json>) -> (r: Option<u64>)
    ensures
        r == token_count(
            match j {
                Some(v) => Some(v@),
                None => None,
            },
        ),
{
    match j {
        None => Some(0),
        Some(v) => v.as_u64(),
    }
}

impl WireItem {
    /// This item in JSON.
    pub fn to_json(&self) -> (j: Json)
        ensures
            j@ == item_json(self@),
    {
        let members: Vec<(String, Json)> = vec![
            ("attempts".to_owned(), count(self.attempts as u64)),
            ("body".to_owned(), self.body.duplicate()),
            ("custom_id".to_owned(), text(self.custom_id.as_str())),
            ("lease_generation".to_owned(), count(self.lease_generation)),
            ("method".to_owned(), text(self.method.as_str())),
            ("url".to_owned(), text(self.url.as_str())),
        ];
        proof {
            lemma_object_view(members);
            assert(members_view(members@) == item_json(self@)->Object_0);
        }
        Json::Object(members)
    }

    /// The item that a value describes.
    pub fn from_json(j: &Json) -> (r: Option<WireItem>)
        ensures
            match r {
                Some(w) => item_of(j@) == Some(w@),
                None => item_of(j@) is None,
            },
    {
        match record_of_array(j, &item_names_list(), 5) {
            Some(record) => Self::from_fields(&record),
            None => Self::from_fields(j),
        }
    }

    fn from_fields(j: &Json) -> (r: Option<WireItem>)
        ensures
            match r {
                Some(w) => item_fields(j@) == Some(w@),
                None => item_fields(j@) is None,
            },
    {
        match (
            j.str_at("custom_id"),
            j.str_at("method"),
            j.str_at("url"),
            j.get("body"),
            j.u64_at("lease_generation"),
            count_or_zero(j.get("attempts")),
        ) {
            (
                Some(custom_id),
                Some(method),
                Some(url),
                Some(body),
                Some(lease_generation),
                Some(attempts),
            ) => {
                if attempts > 0xffff_ffff {
                    return None;
                }
                Some(
                    WireItem {
                        custom_id: custom_id.to_owned(),
                        method: method.to_owned(),
                        url: url.to_owned(),
                        body: body.duplicate(),
                        lease_generation,
                        attempts: attempts as u32,
                    },
                )
            },
            _ => None,
        }
    }
}

impl LeaseGrant {
    /// This grant in JSON.
    pub fn to_json(&self) -> (j: Json)
        ensures
            j@ == grant_json(self@),
    {
        let ghost all = self@;
        let mut out: Vec<Json> = Vec::new();
        let mut i: usize = 0;
        assert(list_view(out@) == items_json(all.take(0)));
        while i < self.items.len()
            invariant
                i <= self.items@.len(),
                all == self@,
                list_view(out@) == items_json(all.take(i as int)),
            decreases self.items@.len() - i,
        {
            let ghost before = out@;
            out.push(self.items[i].to_json());
            proof {
                assert(list_view(out@) == list_view(before).push(item_json(all[i as int])));
                assert(items_json(all.take(i + 1)) == items_json(all.take(i as int)).push(
                    item_json(all[i as int]),
                ));
            }
            i = i + 1;
        }
        assert(all.take(all.len() as int) == all);
        proof {
            crate::json::lemma_array_view(out);
        }
        let members: Vec<(String, Json)> = vec![("items".to_owned(), Json::Array(out))];
        proof {
            lemma_object_view(members);
            assert(members_view(members@) == grant_json(all)->Object_0);
        }
        Json::Object(members)
    }

    /// The grant that a value describes.
    pub fn from_json(j: &Json) -> (r: Option<LeaseGrant>)
        ensures
            match r {
                Some(g) => grant_of(j@) == Some(g@),
                None => grant_of(j@) is None,
            },
    {
        match record_of_array(j, &grant_names_list(), 1) {
            Some(record) => Self::from_fields(&record),
            None => Self::from_fields(j),
        }
    }

    fn from_fields(j: &Json) -> (r: Option<LeaseGrant>)
        ensures
            match r {
                Some(g) => grant_fields(j@) == Some(g@),
                None => grant_fields(j@) is None,
            },
    {
        let list: &Vec<Json> = match j.get("items") {
            Some(v) => match v.as_array() {
                Some(a) => a,
                None => {
                    return None;
                },
            },
            None => {
                return None;
            },
        };
        let ghost all = list_view(list@);
        let mut items: Vec<WireItem> = Vec::new();
        let mut i: usize = 0;
        assert(all.take(0) == Seq::<JsonView>::empty());
        assert(wire_views(items@) == Seq::<WireItemView>::empty());
        while i < list.len()
            invariant
                i <= list@.len(),
                all == list_view(list@),
                j@.array_at("items"@) == Some(all),
                items_of(all.take(i as int)) == Some(wire_views(items@)),
            decreases list@.len() - i,
        {
            let ghost before = items@;
            proof {
                assert(all.take(i + 1).drop_last() == all.take(i as int));
                assert(all.take(i + 1).last() == list@[i as int]@);
            }
            match WireItem::from_json(&list[i]) {
                Some(w) => {
                    items.push(w);
                    assert(wire_views(items@) == wire_views(before).push(w@));
                },
                None => {
                    proof {
                        lemma_items_stop(all, i + 1);
                    }
                    return None;
                },
            }
            i = i + 1;
        }
        assert(all.take(all.len() as int) == all);
        Some(LeaseGrant { items })
    }
}

/// A start that describes no items makes the whole describe none.
proof fn lemma_items_stop(list: Seq<JsonView>, n: int)
    requires
        0 <= n <= list.len(),
        items_of(list.take(n)) is None,
    ensures
        items_of(list) is None,
    decreases list.len(),
{
    if n < list.len() {
        assert(list.drop_last().take(n) == list.take(n));
        lemma_items_stop(list.drop_last(), n);
    } else {
        assert(list.take(n) == list);
    }
}

impl WireUsage {
    /// These counts in JSON.
    pub fn to_json(&self) -> (j: Json)
        ensures
            j@ == wire_usage_json(*self),
    {
        let members: Vec<(String, Json)> = vec![
            ("completion_tokens".to_owned(), count(self.completion_tokens)),
            ("prompt_tokens".to_owned(), count(self.prompt_tokens)),
            ("total_tokens".to_owned(), count(self.total_tokens)),
        ];
        proof {
            lemma_object_view(members);
            assert(members_view(members@) == wire_usage_json(*self)->Object_0);
        }
        Json::Object(members)
    }

    /// The counts that a value describes.
    pub fn from_json(j: &Json) -> (r: Option<WireUsage>)
        ensures
            r == wire_usage_of(j@),
    {
        match record_of_array(j, &wire_usage_names_list(), 0) {
            Some(record) => Self::from_fields(&record),
            None => Self::from_fields(j),
        }
    }

    fn from_fields(j: &Json) -> (r: Option<WireUsage>)
        ensures
            r == wire_usage_fields(j@),
    {
        if !j.is_object() {
            return None;
        }
        match (
            count_or_zero(j.get("prompt_tokens")),
            count_or_zero(j.get("completion_tokens")),
            count_or_zero(j.get("total_tokens")),
        ) {
            (Some(prompt_tokens), Some(completion_tokens), Some(total_tokens)) => Some(
                WireUsage { prompt_tokens, completion_tokens, total_tokens },
            ),
            _ => None,
        }
    }
}

impl WireOutcome {
    /// This outcome in JSON.
    pub fn to_json(&self) -> (j: Json)
        ensures
            j@ == outcome_json(self@),
    {
        match self {
            WireOutcome::Done { status_code, response, usage, latency_ms } => {
                let fields: Vec<(String, Json)> = vec![
                    ("latency_ms".to_owned(), count(*latency_ms)),
                    ("response".to_owned(), response.duplicate()),
                    ("status_code".to_owned(), count(*status_code as u64)),
                    ("usage".to_owned(), usage.to_json()),
                ];
                proof {
                    lemma_object_view(fields);
                    assert(members_view(fields@) == done_json(
                        *status_code,
                        response@,
                        *usage,
                        *latency_ms,
                    )->Object_0);
                }
                let members: Vec<(String, Json)> = vec![("done".to_owned(), Json::Object(fields))];
                proof {
                    lemma_object_view(members);
                    assert(members_view(members@) == outcome_json(self@)->Object_0);
                }
                Json::Object(members)
            },
            WireOutcome::DeadLetter { error } => {
                let fields: Vec<(String, Json)> = vec![("error".to_owned(), text(error.as_str()))];
                proof {
                    lemma_object_view(fields);
                    assert(members_view(fields@) == seq![("error"@, JsonView::Text(error@))]);
                }
                let members: Vec<(String, Json)> = vec![
                    ("dead_letter".to_owned(), Json::Object(fields)),
                ];
                proof {
                    lemma_object_view(members);
                    assert(members_view(members@) == outcome_json(self@)->Object_0);
                }
                Json::Object(members)
            },
        }
    }

    /// The success that a value describes.
    fn done_from_json(j: &Json) -> (r: Option<WireOutcome>)
        ensures
            match r {
                Some(o) => done_of(j@) == Some(o@),
                None => done_of(j@) is None,
            },
    {
        match record_of_array(j, &done_names_list(), 2) {
            Some(record) => Self::done_from_fields(&record),
            None => Self::done_from_fields(j),
        }
    }

    fn done_from_fields(j: &Json) -> (r: Option<WireOutcome>)
        ensures
            match r {
                Some(o) => done_fields(j@) == Some(o@),
                None => done_fields(j@) is None,
            },
    {
        let usage: Option<WireUsage> = match j.get("usage") {
            None => Some(WireUsage::default()),
            Some(v) => WireUsage::from_json(v),
        };
        match (
            j.u64_at("status_code"),
            j.get("response"),
            usage,
            count_or_zero(j.get("latency_ms")),
        ) {
            (Some(code), Some(response), Some(usage), Some(latency_ms)) => {
                if code > 0xffff {
                    return None;
                }
                Some(
                    WireOutcome::Done {
                        status_code: code as u16,
                        response: response.duplicate(),
                        usage,
                        latency_ms,
                    },
                )
            },
            _ => None,
        }
    }

    fn dead_from_fields(j: &Json) -> (r: Option<WireOutcome>)
        ensures
            match r {
                Some(o) => j@.str_at("error"@) matches Some(error) && o@ == (
                WireOutcomeView::DeadLetter { error }),
                None => j@.str_at("error"@) is None,
            },
    {
        match j.str_at("error") {
            Some(t) => Some(WireOutcome::DeadLetter { error: t.to_owned() }),
            None => None,
        }
    }

    /// The outcome that a value describes.
    pub fn from_json(j: &Json) -> (r: Option<WireOutcome>)
        ensures
            match r {
                Some(o) => outcome_of(j@) == Some(o@),
                None => outcome_of(j@) is None,
            },
    {
        match j {
            Json::Object(members) => {
                proof {
                    lemma_object_view(*members);
                }
                if members.len() != 1 {
                    return None;
                }
                let name: &str = members[0].0.as_str();
                let value: &Json = &members[0].1;
                assert(j@->Object_0[0] == (name@, value@));
                if crate::text::str_eq(name, "done") {
                    Self::done_from_json(value)
                } else if crate::text::str_eq(name, "dead_letter") {
                    match record_of_array(value, &dead_names_list(), 1) {
                        Some(record) => Self::dead_from_fields(&record),
                        None => Self::dead_from_fields(value),
                    }
                } else {
                    None
                }
            },
            _ => None,
        }
    }
}

impl ResultPost {
    /// This post in JSON.
    pub fn to_json(&self) -> (j: Json)
        ensures
            j@ == post_json(self@),
    {
        let members: Vec<(String, Json)> = vec![
            ("custom_id".to_owned(), text(self.custom_id.as_str())),
            ("lease_generation".to_owned(), count(self.lease_generation)),
            ("outcome".to_owned(), self.outcome.to_json()),
            ("worker_id".to_owned(), text(self.worker_id.as_str())),
        ];
        proof {
            lemma_object_view(members);
            assert(members_view(members@) == post_json(self@)->Object_0);
        }
        Json::Object(members)
    }

    /// The post that a value describes.
    pub fn from_json(j: &Json) -> (r: Option<ResultPost>)
        ensures
            match r {
                Some(p) => post_of(j@) == Some(p@),
                None => post_of(j@) is None,
            },
    {
        match record_of_array(j, &post_names_list(), 4) {
            Some(record) => Self::from_fields(&record),
            None => Self::from_fields(j),
        }
    }

    fn from_fields(j: &Json) -> (r: Option<ResultPost>)
        ensures
            match r {
                Some(p) => post_fields(j@) == Some(p@),
                None => post_fields(j@) is None,
            },
    {
        let outcome: Option<WireOutcome> = match j.get("outcome") {
            Some(v) => WireOutcome::from_json(v),
            None => None,
        };
        match (j.str_at("custom_id"), j.u64_at("lease_generation"), j.str_at("worker_id"), outcome) {
            (Some(custom_id), Some(lease_generation), Some(worker_id), Some(outcome)) => Some(
                ResultPost {
                    custom_id: custom_id.to_owned(),
                    lease_generation,
                    worker_id: worker_id.to_owned(),
                    outcome,
                },
            ),
            _ => None,
        }
    }
}

impl AckReply {
    /// This ack in JSON.
    pub fn to_json(&self) -> (j: Json)
        ensures
            j@ == ack_json(*self),
    {
        let members: Vec<(String, Json)> = vec![("acked".to_owned(), Json::Bool(self.acked))];
        proof {
            lemma_object_view(members);
            assert(members_view(members@) == ack_json(*self)->Object_0);
        }
        Json::Object(members)
    }

    /// The ack that a value describes.
    pub fn from_json(j: &Json) -> (r: Option<AckReply>)
        ensures
            r == ack_of(j@),
    {
        match record_of_array(j, &ack_names_list(), 1) {
            Some(record) => Self::from_fields(&record),
            None => Self::from_fields(j),
        }
    }

    fn from_fields(j: &Json) -> (r: Option<AckReply>)
        ensures
            r == ack_fields(j@),
    {
        match j.get("acked") {
            Some(v) => match v.as_bool() {
                Some(acked) => Some(AckReply { acked }),
                None => None,
            },
            None => None,
        }
    }
}

impl InterruptionNotice {
    /// This notice in JSON.
    pub fn to_json(&self) -> (j: Json)
        ensures
            j@ == notice_json(self@),
    {
        let mut members: Vec<(String, Json)> = vec![("cloud".to_owned(), text(self.cloud.as_str()))];
        if let Some(d) = &self.deadline {
            members.push(("deadline".to_owned(), text(d.as_str())));
        }
        members.push(("kind".to_owned(), text(self.kind.as_str())));
        members.push(("worker_id".to_owned(), text(self.worker_id.as_str())));
        proof {
            lemma_object_view(members);
            assert(members_view(members@) == notice_json(self@)->Object_0);
        }
        Json::Object(members)
    }

    /// The notice that a value describes.
    pub fn from_json(j: &Json) -> (r: Option<InterruptionNotice>)
        ensures
            match r {
                Some(n) => notice_of(j@) == Some(n@),
                None => notice_of(j@) is None,
            },
    {
        match record_of_array(j, &notice_names_list(), 3) {
            Some(record) => Self::from_fields(&record),
            None => Self::from_fields(j),
        }
    }

    fn from_fields(j: &Json) -> (r: Option<InterruptionNotice>)
        ensures
            match r {
                Some(n) => notice_fields(j@) == Some(n@),
                None => notice_fields(j@) is None,
            },
    {
        let deadline: Option<String> = match j.get("deadline") {
            None => None,
            Some(v) => {
                if v.is_null() {
                    None
                } else {
                    match v.as_str() {
                        Some(t) => Some(t.to_owned()),
                        None => {
                            return None;
                        },
                    }
                }
            },
        };
        match (j.str_at("worker_id"), j.str_at("cloud"), j.str_at("kind")) {
            (Some(worker_id), Some(cloud), Some(kind)) => Some(
                InterruptionNotice {
                    worker_id: worker_id.to_owned(),
                    cloud: cloud.to_owned(),
                    kind: kind.to_owned(),
                    deadline,
                },
            ),
            _ => None,
        }
    }
}

/// A request for a lease is read back as it was sent.
pub proof fn law_pull_round_trip(p: LeasePullView)
    ensures
        pull_of(pull_json(p)) == Some(p),
        canonical(pull_json(p)),
{
    reveal_strlit("lease_secs");
    reveal_strlit("max");
    reveal_strlit("worker_id");
    reveal_with_fuel(crate::json::member, 4);
    reveal_with_fuel(canonical, 2);
    let m = pull_json(p)->Object_0;
    assert("lease_secs"@[0] == 'l' && "max"@[0] == 'm' && "worker_id"@[0] == 'w');
    assert(names_ascend(m));
    assert(m.skip(1)[0] == m[1] && m.skip(1).skip(1)[0] == m[2]);
}

/// The names of an item's members are apart.
proof fn lemma_item_members(w: WireItemView)
    ensures
        ({
            let j = item_json(w);
            &&& j.get("attempts"@) == Some(count_json(w.attempts as u64))
            &&& j.get("body"@) == Some(w.body)
            &&& j.get("custom_id"@) == Some(JsonView::Text(w.custom_id))
            &&& j.get("lease_generation"@) == Some(count_json(w.lease_generation))
            &&& j.get("method"@) == Some(JsonView::Text(w.method))
            &&& j.get("url"@) == Some(JsonView::Text(w.url))
            &&& names_ascend(j->Object_0)
        }),
{
    reveal_strlit("attempts");
    reveal_strlit("body");
    reveal_strlit("custom_id");
    reveal_strlit("lease_generation");
    reveal_strlit("method");
    reveal_strlit("url");
    reveal_with_fuel(crate::json::member, 7);
    let m = item_json(w)->Object_0;
    assert("attempts"@[0] == 'a' && "body"@[0] == 'b' && "custom_id"@[0] == 'c'
        && "lease_generation"@[0] == 'l' && "method"@[0] == 'm' && "url"@[0] == 'u');
    let m1 = m.skip(1);
    let m2 = m1.skip(1);
    let m3 = m2.skip(1);
    let m4 = m3.skip(1);
    let m5 = m4.skip(1);
    assert(m1[0] == m[1] && m2[0] == m[2] && m3[0] == m[3] && m4[0] == m[4] && m5[0] == m[5]);
}

/// An item is read back as it was sent.
pub proof fn law_item_round_trip(w: WireItemView)
    ensures
        item_of(item_json(w)) == Some(w),
        canonical(w.body) ==> canonical(item_json(w)),
{
    lemma_item_members(w);
    if canonical(w.body) {
        let m = item_json(w)->Object_0;
        reveal_with_fuel(canonical, 2);
        assert forall|i: int| 0 <= i < m.len() implies canonical((#[trigger] m[i]).1) by {}
    }
}

/// A grant is read back as it was sent.
pub proof fn law_grant_round_trip(items: Seq<WireItemView>)
    ensures
        grant_of(grant_json(items)) == Some(items),
        (forall|i: int| 0 <= i < items.len() ==> canonical((#[trigger] items[i]).body))
            ==> canonical(grant_json(items)),
{
    lemma_items_round_trip(items);
    let m = grant_json(items)->Object_0;
    assert(m[0].0 == "items"@);
    if forall|i: int| 0 <= i < items.len() ==> canonical((#[trigger] items[i]).body) {
        let list = items_json(items);
        assert forall|i: int| 0 <= i < list.len() implies canonical(#[trigger] list[i]) by {
            assert(canonical(items[i].body));
            law_item_round_trip(items[i]);
        }
        assert(canonical(JsonView::Array(list)));
        assert(names_ascend(m));
        assert forall|i: int| 0 <= i < m.len() implies canonical((#[trigger] m[i]).1) by {}
    }
}

proof fn lemma_items_round_trip(items: Seq<WireItemView>)
    ensures
        items_of(items_json(items)) == Some(items),
    decreases items.len(),
{
    if items.len() > 0 {
        let init = items.drop_last();
        lemma_items_round_trip(init);
        law_item_round_trip(items.last());
        assert(items_json(items).drop_last() == items_json(init));
        assert(items == init.push(items.last()));
    } else {
        assert(items_json(items) == Seq::<JsonView>::empty());
        assert(items == Seq::<WireItemView>::empty());
    }
}

/// Token counts are read back as they were sent.
pub proof fn law_wire_usage_round_trip(u: WireUsage)
    ensures
        wire_usage_of(wire_usage_json(u)) == Some(u),
        canonical(wire_usage_json(u)),
{
    reveal_strlit("completion_tokens");
    reveal_strlit("prompt_tokens");
    reveal_strlit("total_tokens");
    reveal_with_fuel(crate::json::member, 4);
    reveal_with_fuel(canonical, 2);
    let m = wire_usage_json(u)->Object_0;
    assert("completion_tokens"@[0] == 'c' && "prompt_tokens"@[0] == 'p' && "total_tokens"@[0]
        == 't');
    assert(names_ascend(m));
    assert(m.skip(1)[0] == m[1] && m.skip(1).skip(1)[0] == m[2]);
}

/// An outcome is read back as it was sent.
pub proof fn law_outcome_round_trip(o: WireOutcomeView)
    ensures
        outcome_of(outcome_json(o)) == Some(o),
        (o matches WireOutcomeView::Done { response, .. } ==> canonical(response)) ==> canonical(
            outcome_json(o),
        ),
{
    let m = outcome_json(o)->Object_0;
    assert(names_ascend(m));
    match o {
        WireOutcomeView::Done { status_code, response, usage, latency_ms } => {
            let d = done_json(status_code, response, usage, latency_ms);
            let f = d->Object_0;
            law_wire_usage_round_trip(usage);
            reveal_strlit("latency_ms");
            reveal_strlit("response");
            reveal_strlit("status_code");
            reveal_strlit("usage");
            reveal_with_fuel(crate::json::member, 5);
            assert("latency_ms"@[0] == 'l' && "response"@[0] == 'r' && "status_code"@[0] == 's'
                && "usage"@[0] == 'u');
            let f1 = f.skip(1);
            let f2 = f1.skip(1);
            let f3 = f2.skip(1);
            assert(f1[0] == f[1] && f2[0] == f[2] && f3[0] == f[3]);
            assert(names_ascend(f));
            if canonical(response) {
                assert(canonical(count_json(latency_ms)));
                assert(canonical(count_json(status_code as u64)));
                assert forall|i: int| 0 <= i < f.len() implies canonical((#[trigger] f[i]).1) by {}
                assert(canonical(d));
                assert forall|i: int| 0 <= i < m.len() implies canonical((#[trigger] m[i]).1) by {}
            }
        },
        WireOutcomeView::DeadLetter { error } => {
            reveal_strlit("done");
            reveal_strlit("dead_letter");
            assert("done"@.len() != "dead_letter"@.len());
            let d = JsonView::Object(seq![("error"@, JsonView::Text(error))]);
            let f = d->Object_0;
            assert(names_ascend(f));
            assert(canonical(f[0].1));
            assert(canonical(d));
            assert forall|i: int| 0 <= i < m.len() implies canonical((#[trigger] m[i]).1) by {}
        },
    }
}

/// A post is read back as it was sent.
pub proof fn law_post_round_trip(p: ResultPostView)
    ensures
        post_of(post_json(p)) == Some(p),
        (p.outcome matches WireOutcomeView::Done { response, .. } ==> canonical(response))
            ==> canonical(post_json(p)),
{
    law_outcome_round_trip(p.outcome);
    reveal_strlit("custom_id");
    reveal_strlit("lease_generation");
    reveal_strlit("outcome");
    reveal_strlit("worker_id");
    reveal_with_fuel(crate::json::member, 5);
    let m = post_json(p)->Object_0;
    assert("custom_id"@[0] == 'c' && "lease_generation"@[0] == 'l' && "outcome"@[0] == 'o'
        && "worker_id"@[0] == 'w');
    let m1 = m.skip(1);
    let m2 = m1.skip(1);
    let m3 = m2.skip(1);
    assert(m1[0] == m[1] && m2[0] == m[2] && m3[0] == m[3]);
    assert(names_ascend(m));
    if canonical(outcome_json(p.outcome)) {
        assert(canonical(JsonView::Text(p.custom_id)));
        assert(canonical(JsonView::Text(p.worker_id)));
        assert(canonical(count_json(p.lease_generation)));
        assert forall|i: int| 0 <= i < m.len() implies canonical((#[trigger] m[i]).1) by {}
    }
}

/// An ack is read back as it was sent.
pub proof fn law_ack_round_trip(a: AckReply)
    ensures
        ack_of(ack_json(a)) == Some(a),
        canonical(ack_json(a)),
{
    let m = ack_json(a)->Object_0;
    assert(m[0].0 == "acked"@);
    assert(names_ascend(m));
    assert(canonical(m[0].1));
}

/// A notice is read back as it was sent; one without a deadline names none.
pub proof fn law_notice_round_trip(n: InterruptionNoticeView)
    ensures
        notice_of(notice_json(n)) == Some(n),
        canonical(notice_json(n)),
        n.deadline is None ==> notice_json(n).get("deadline"@) is None,
{
    reveal_strlit("cloud");
    reveal_strlit("deadline");
    reveal_strlit("kind");
    reveal_strlit("worker_id");
    reveal_with_fuel(crate::json::member, 5);
    let m = notice_json(n)->Object_0;
    assert("cloud"@[0] == 'c' && "deadline"@[0] == 'd' && "kind"@[0] == 'k' && "worker_id"@[0]
        == 'w');
    let m1 = m.skip(1);
    let m2 = m1.skip(1);
    assert(m1[0] == m[1] && m2[0] == m[2]);
    if n.deadline is Some {
        let m3 = m2.skip(1);
        assert(m3[0] == m[3]);
        assert(m3.skip(1).len() == 0);
    } else {
        assert(m2.skip(1).len() == 0);
    }
    assert(names_ascend(m));
    assert(canonical(JsonView::Text(n.cloud)));
    assert(canonical(JsonView::Text(n.kind)));
    assert(canonical(JsonView::Text(n.worker_id)));
    if let Some(d) = n.deadline {
        assert(canonical(JsonView::Text(d)));
    }
    assert forall|i: int| 0 <= i < m.len() implies canonical((#[trigger] m[i]).1) by {}
}

/// A request for a lease is read by the names of its fields.
pub proof fn law_pulls_are_read_by_name(j: &Json, r: Option<LeasePull>)
    requires
        j@ is Object,
        call_ensures(LeasePull::from_json, (j,), r),
    ensures
        r matches Some(p) ==> j@.str_at("worker_id"@) == Some(p.worker_id@) && j@.u64_at("max"@)
            == Some(p.max as u64) && j@.u64_at("lease_secs"@) == Some(p.lease_secs),
        j@.str_at("worker_id"@) is Some && j@.u64_at("lease_secs"@) is Some && (j@.u64_at(
            "max"@,
        ) matches Some(n) && n <= u32::MAX) ==> r is Some,
{
}

/// A leased item is read by the names of its fields; attempts that it does not name are
/// none.
pub proof fn law_wire_items_are_read_by_name(j: &Json, r: Option<WireItem>)
    requires
        j@ is Object,
        call_ensures(WireItem::from_json, (j,), r),
    ensures
        r matches Some(w) ==> j@.str_at("custom_id"@) == Some(w.custom_id@) && j@.str_at("method"@)
            == Some(w.method@) && j@.str_at("url"@) == Some(w.url@) && j@.get("body"@) == Some(
            w.body@,
        ) && j@.u64_at("lease_generation"@) == Some(w.lease_generation) && (j@.get("attempts"@)
            is Some ==> j@.u64_at("attempts"@) == Some(w.attempts as u64)) && (j@.get("attempts"@)
            is None ==> w.attempts == 0),
        j@.str_at("custom_id"@) is Some && j@.str_at("method"@) is Some && j@.str_at("url"@) is Some
            && j@.get("body"@) is Some && j@.u64_at("lease_generation"@) is Some && j@.get(
            "attempts"@,
        ) is None ==> r is Some,
{
}

/// A grant holds an item for each value of its list, in order.
pub proof fn law_grants_are_read_item_by_item(j: &Json, r: Option<LeaseGrant>)
    requires
        j@ is Object,
        call_ensures(LeaseGrant::from_json, (j,), r),
        r is Some,
    ensures
        j@.array_at("items"@) matches Some(list) && list.len() == r->0.items@.len() && forall|i: int|
            0 <= i < list.len() ==> item_of(list[i]) == Some((#[trigger] r->0.items@[i])@),
{
    let list = j@.array_at("items"@)->0;
    lemma_items_of(list);
    assert forall|i: int| 0 <= i < list.len() implies item_of(list[i]) == Some(
        (#[trigger] r->0.items@[i])@,
    ) by {
        assert(r->0@[i] == r->0.items@[i]@);
    }
}

proof fn lemma_items_of(list: Seq<JsonView>)
    ensures
        items_of(list) matches Some(items) ==> items.len() == list.len() && forall|i: int|
            0 <= i < list.len() ==> item_of(list[i]) == Some(#[trigger] items[i]),
    decreases list.len(),
{
    if list.len() > 0 {
        lemma_items_of(list.drop_last());
    }
}

/// Token counts are read by their names; a count that is not there is none.
pub proof fn law_wire_usage_is_read_by_name(j: &Json, r: Option<WireUsage>)
    requires
        j@ is Object,
        call_ensures(WireUsage::from_json, (j,), r),
    ensures
        r matches Some(u) ==> (j@.get("prompt_tokens"@) is Some ==> j@.u64_at("prompt_tokens"@)
            == Some(u.prompt_tokens)) && (j@.get("prompt_tokens"@) is None ==> u.prompt_tokens == 0)
            && (j@.get("completion_tokens"@) is Some ==> j@.u64_at("completion_tokens"@) == Some(
            u.completion_tokens,
        )) && (j@.get("completion_tokens"@) is None ==> u.completion_tokens == 0) && (j@.get(
            "total_tokens"@,
        ) is Some ==> j@.u64_at("total_tokens"@) == Some(u.total_tokens)) && (j@.get(
            "total_tokens"@,
        ) is None ==> u.total_tokens == 0),
        j@.get("prompt_tokens"@) is None && j@.get("completion_tokens"@) is None && j@.get(
            "total_tokens"@,
        ) is None ==> r is Some,
{
}

/// An outcome is read by the name of its one member: `done` with the engine's response, or
/// `dead_letter` with an error.
pub proof fn law_outcomes_are_read_by_name(
    j: &Json,
    r: Option<WireOutcome>,
    name: Seq<char>,
    value: JsonView,
)
    requires
        j@ == JsonView::Object(seq![(name, value)]),
        value is Object,
        call_ensures(WireOutcome::from_json, (j,), r),
    ensures
        name != "done"@ && name != "dead_letter"@ ==> r is None,
        name == "done"@ && r is Some ==> (r matches Some(
            WireOutcome::Done { status_code, response, usage, latency_ms },
        ) && value.get("response"@) == Some(response@) && value.u64_at("status_code"@) == Some(
            status_code as u64,
        ) && (value.get("latency_ms"@) is Some ==> value.u64_at("latency_ms"@) == Some(latency_ms))
            && (value.get("latency_ms"@) is None ==> latency_ms == 0) && (value.get("usage"@) is None
            ==> usage.prompt_tokens == 0 && usage.completion_tokens == 0 && usage.total_tokens == 0)
            && (value.get("usage"@) matches Some(u) ==> wire_usage_of(u) == Some(usage))),
        name == "done"@ && value.get("response"@) is Some && (value.u64_at(
            "status_code"@,
        ) matches Some(n) && n <= u16::MAX) && value.get("usage"@) is None && value.get(
            "latency_ms"@,
        ) is None ==> r is Some,
        name == "dead_letter"@ ==> (r is Some <==> value.str_at("error"@) is Some),
        name == "dead_letter"@ && r is Some ==> (r matches Some(WireOutcome::DeadLetter { error })
            && value.str_at("error"@) == Some(error@)),
{
    let m = j@->Object_0;
    assert(m.len() == 1 && m[0] == (name, value));
    reveal_strlit("done");
    reveal_strlit("dead_letter");
    assert("done"@.len() != "dead_letter"@.len());
}

/// A post is read by the names of its fields.
pub proof fn law_posts_are_read_by_name(j: &Json, r: Option<ResultPost>)
    requires
        j@ is Object,
        call_ensures(ResultPost::from_json, (j,), r),
    ensures
        r matches Some(p) ==> j@.str_at("custom_id"@) == Some(p.custom_id@) && j@.u64_at(
            "lease_generation"@,
        ) == Some(p.lease_generation) && j@.str_at("worker_id"@) == Some(p.worker_id@) && (j@.get(
            "outcome"@,
        ) matches Some(o) && outcome_of(o) == Some(p.outcome@)),
        j@.str_at("custom_id"@) is Some && j@.u64_at("lease_generation"@) is Some && j@.str_at(
            "worker_id"@,
        ) is Some && (j@.get("outcome"@) matches Some(o) && outcome_of(o) is Some) ==> r is Some,
{
}

/// An ack and a notice are read by the names of their fields.
pub proof fn law_acks_and_notices_are_read_by_name(
    j: &Json,
    a: Option<AckReply>,
    n: Option<InterruptionNotice>,
)
    requires
        j@ is Object,
        call_ensures(AckReply::from_json, (j,), a),
        call_ensures(InterruptionNotice::from_json, (j,), n),
    ensures
        a matches Some(x) ==> j@.get("acked"@) == Some(JsonView::Bool(x.acked)),
        (j@.get("acked"@) matches Some(JsonView::Bool(_))) ==> a is Some,
        n matches Some(x) ==> j@.str_at("worker_id"@) == Some(x.worker_id@) && j@.str_at("cloud"@)
            == Some(x.cloud@) && j@.str_at("kind"@) == Some(x.kind@) && (x.deadline matches Some(d)
            ==> j@.str_at("deadline"@) == Some(d@)) && (x.deadline is None ==> j@.str_at(
            "deadline"@,
        ) is None),
        j@.str_at("worker_id"@) is Some && j@.str_at("cloud"@) is Some && j@.str_at("kind"@) is Some
            && j@.get("deadline"@) is None ==> n is Some,
{
}

} // verus!

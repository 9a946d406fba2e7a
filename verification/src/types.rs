//! Domain types. The line contract is the OpenAI Batch contract: one independent
//! request per line keyed by a caller-supplied `custom_id`; the output is keyed by
//! the same id, in no particular order.

use vstd::prelude::*;

use crate::clock::now_ms;
use crate::error::{error_text, ForgeError};
use crate::json::{Json, JsonView};
use crate::state::ItemState;
use crate::text::{
    concat2, contains_str, opt_view, text_contains, trim_end_char, trim_end_matches_char,
};

verus! {

/// Which endpoint a worker serves.
#[derive(Debug, Clone, Copy, PartialEq, Eq, Structural)]
pub enum EndpointKind {
    Chat,
    Completions,
    Embeddings,
    /// The Anthropic Messages shape.
    Messages,
}

impl Default for EndpointKind {
    fn default() -> (k: Self)
        ensures
            k == EndpointKind::Chat,
    {
        EndpointKind::Chat
    }
}

/// The request path of an endpoint.
pub open spec fn endpoint_path(k: EndpointKind) -> Seq<char> {
    match k {
        EndpointKind::Chat => "/v1/chat/completions"@,
        EndpointKind::Completions => "/v1/completions"@,
        EndpointKind::Embeddings => "/v1/embeddings"@,
        EndpointKind::Messages => "/v1/messages"@,
    }
}

/// The endpoint that a request path names. The chat path is looked for before the
/// bare completions one, which it contains.
pub open spec fn endpoint_of_path(path: Seq<char>) -> Option<EndpointKind> {
    if text_contains(path, "/embeddings"@) {
        Some(EndpointKind::Embeddings)
    } else if text_contains(path, "/chat/completions"@) {
        Some(EndpointKind::Chat)
    } else if text_contains(path, "/completions"@) {
        Some(EndpointKind::Completions)
    } else if text_contains(path, "/messages"@) {
        Some(EndpointKind::Messages)
    } else {
        None
    }
}

impl EndpointKind {
    /// Default request path for this endpoint kind.
    pub fn default_path(self) -> (r: &'static str)
        ensures
            r@ == endpoint_path(self),
    {
        match self {
            EndpointKind::Chat => "/v1/chat/completions",
            EndpointKind::Completions => "/v1/completions",
            EndpointKind::Embeddings => "/v1/embeddings",
            EndpointKind::Messages => "/v1/messages",
        }
    }

    /// Classify an item's request path, so that per-item response validation matches
    /// the item's endpoint even when one run carries a mix. Nothing when the path
    /// does not look like any known endpoint.
    pub fn from_path(path: &str) -> (r: Option<EndpointKind>)
        ensures
            r == endpoint_of_path(path@),
    {
        if contains_str(path, "/embeddings") {
            Some(EndpointKind::Embeddings)
        } else if contains_str(path, "/chat/completions") {
            Some(EndpointKind::Chat)
        } else if contains_str(path, "/completions") {
            Some(EndpointKind::Completions)
        } else if contains_str(path, "/messages") {
            Some(EndpointKind::Messages)
        } else {
            None
        }
    }
}

/// A hint about the engine behind a worker: the shape of its health probe and of its
/// queue-depth metric, never the wire contract.
#[derive(Debug, Clone, Copy, PartialEq, Eq, Structural)]
pub enum EngineHint {
    Vllm,
    Sglang,
    LlamaCpp,
    Router,
    /// A hosted provider that speaks the OpenAI API.
    OpenaiApi,
    /// A hosted provider that speaks the Anthropic Messages API.
    AnthropicApi,
}

impl Default for EngineHint {
    fn default() -> (h: Self)
        ensures
            h == EngineHint::Vllm,
    {
        EngineHint::Vllm
    }
}

/// The path of an engine's queue-depth metric.
pub open spec fn metrics_path_of(h: EngineHint) -> Option<Seq<char>> {
    match h {
        EngineHint::Vllm => Some("/metrics"@),
        EngineHint::Sglang => Some("/get_server_info"@),
        EngineHint::LlamaCpp => Some("/slots"@),
        EngineHint::Router => None,
        EngineHint::OpenaiApi => None,
        EngineHint::AnthropicApi => None,
    }
}

impl EngineHint {
    /// The engine's queue-depth metric endpoint for load-aware dispatch, or nothing
    /// when there is no standard one to read.
    pub fn metrics_path(self) -> (r: Option<&'static str>)
        ensures
            match r {
                Some(p) => metrics_path_of(self) == Some(p@),
                None => metrics_path_of(self) is None,
            },
    {
        match self {
            EngineHint::Vllm => Some("/metrics"),
            EngineHint::Sglang => Some("/get_server_info"),
            EngineHint::LlamaCpp => Some("/slots"),
            EngineHint::Router => None,
            EngineHint::OpenaiApi => None,
            EngineHint::AnthropicApi => None,
        }
    }
}

/// Per-request token accounting.
#[derive(Debug, Clone, Copy, PartialEq, Eq, Structural)]
pub struct TokenUsage {
    pub prompt_tokens: u64,
    pub completion_tokens: u64,
    pub total_tokens: u64,
    /// Input tokens served from the provider's prompt cache: a subset of
    /// `prompt_tokens`, billed at a discount.
    pub cached_tokens: u64,
    /// Reasoning tokens: a subset of `completion_tokens`.
    pub reasoning_tokens: u64,
}

impl Default for TokenUsage {
    fn default() -> (u: Self)
        ensures
            u == no_usage(),
    {
        TokenUsage {
            prompt_tokens: 0,
            completion_tokens: 0,
            total_tokens: 0,
            cached_tokens: 0,
            reasoning_tokens: 0,
        }
    }
}

/// No tokens at all.
pub open spec fn no_usage() -> TokenUsage {
    TokenUsage {
        prompt_tokens: 0,
        completion_tokens: 0,
        total_tokens: 0,
        cached_tokens: 0,
        reasoning_tokens: 0,
    }
}

/// The first of the integers that is there, or zero.
pub open spec fn first_of(a: Option<u64>, b: Option<u64>, c: Option<u64>) -> u64 {
    match (a, b, c) {
        (Some(n), _, _) => n,
        (None, Some(n), _) => n,
        (None, None, Some(n)) => n,
        (None, None, None) => 0,
    }
}

/// The integer member `child` of the object member `parent`, or zero.
pub open spec fn nested_count(v: JsonView, parent: Seq<char>, child: Seq<char>) -> u64 {
    match v.get(parent) {
        Some(d) => match d.u64_at(child) {
            Some(n) => n,
            None => 0,
        },
        None => 0,
    }
}

/// The token counts of a `usage` object. The Messages API and llama.cpp name the
/// prompt and completion counts in ways of their own, which count where the OpenAI
/// name is not there.
pub open spec fn usage_of(v: JsonView) -> TokenUsage {
    TokenUsage {
        prompt_tokens: first_of(
            v.u64_at("prompt_tokens"@),
            v.u64_at("input_tokens"@),
            v.u64_at("tokens_evaluated"@),
        ),
        completion_tokens: first_of(
            v.u64_at("completion_tokens"@),
            v.u64_at("output_tokens"@),
            v.u64_at("tokens_predicted"@),
        ),
        total_tokens: first_of(v.u64_at("total_tokens"@), None, None),
        cached_tokens: nested_count(v, "prompt_tokens_details"@, "cached_tokens"@),
        reasoning_tokens: nested_count(v, "completion_tokens_details"@, "reasoning_tokens"@),
    }
}

fn first_count(a: Option<u64>, b: Option<u64>, c: Option<u64>) -> (r: u64)
    ensures
        r == first_of(a, b, c),
{
    match a {
        Some(n) => n,
        None => match b {
            Some(n) => n,
            None => match c {
                Some(n) => n,
                None => 0,
            },
        },
    }
}

fn nested(v: &Json, parent: &str, child: &str) -> (r: u64)
    ensures
        r == nested_count(v@, parent@, child@),
{
    match v.get(parent) {
        Some(d) => match d.u64_at(child) {
            Some(n) => n,
            None => 0,
        },
        None => 0,
    }
}

impl TokenUsage {
    /// The token counts of a `usage` object, with those that stand in its detail
    /// objects. A count that is missing or no integer is zero.
    pub fn from_openai_usage(v: &Json) -> (u: Self)
        ensures
            u == usage_of(v@),
    {
        TokenUsage {
            prompt_tokens: first_count(
                v.u64_at("prompt_tokens"),
                v.u64_at("input_tokens"),
                v.u64_at("tokens_evaluated"),
            ),
            completion_tokens: first_count(
                v.u64_at("completion_tokens"),
                v.u64_at("output_tokens"),
                v.u64_at("tokens_predicted"),
            ),
            total_tokens: first_count(v.u64_at("total_tokens"), None, None),
            cached_tokens: nested(v, "prompt_tokens_details", "cached_tokens"),
            reasoning_tokens: nested(v, "completion_tokens_details", "reasoning_tokens"),
        }
    }
}

/// The declared capability of one endpoint.
///
/// `concurrency_limit` mirrors the engine's own cap, so that a worker is never
/// oversubscribed.
#[derive(Debug, Clone, PartialEq, Eq)]
pub struct WorkerSpec {
    pub worker_id: String,
    pub base_url: String,
    pub endpoint_kind: EndpointKind,
    /// The engine's maximum of concurrent sequences.
    pub concurrency_limit: usize,
    pub engine_hint: EngineHint,
    pub health_path: String,
    /// Runtime readiness, updated by the health probe.
    pub ready: bool,
    /// Optional request-rate ceiling in requests per second.
    pub rate_limit_per_second: Option<u32>,
}

impl WorkerSpec {
    /// A worker with a concurrency of 256, the vLLM engine hint and the health path
    /// `/health`.
    pub fn new(worker_id: &str, base_url: &str, endpoint_kind: EndpointKind) -> (s: Self)
        ensures
            s.worker_id@ == worker_id@,
            s.base_url@ == base_url@,
            s.endpoint_kind == endpoint_kind,
            s.concurrency_limit == 256,
            s.engine_hint == EngineHint::Vllm,
            s.health_path@ == "/health"@,
            !s.ready,
            s.rate_limit_per_second is None,
    {
        WorkerSpec {
            worker_id: worker_id.to_owned(),
            base_url: base_url.to_owned(),
            endpoint_kind,
            concurrency_limit: 256,
            engine_hint: EngineHint::default(),
            health_path: "/health".to_owned(),
            ready: false,
            rate_limit_per_second: None,
        }
    }

    /// Set the in-flight cap.
    pub fn concurrency(self, limit: usize) -> (s: Self)
        ensures
            s == (WorkerSpec { concurrency_limit: limit, ..self }),
    {
        WorkerSpec { concurrency_limit: limit, ..self }
    }

    /// Set an optional request-rate ceiling.
    pub fn rate_limit(self, per_second: u32) -> (s: Self)
        ensures
            s == (WorkerSpec { rate_limit_per_second: Some(per_second), ..self }),
    {
        WorkerSpec { rate_limit_per_second: Some(per_second), ..self }
    }

    /// Set the engine hint.
    pub fn engine_hint(self, hint: EngineHint) -> (s: Self)
        ensures
            s == (WorkerSpec { engine_hint: hint, ..self }),
    {
        WorkerSpec { engine_hint: hint, ..self }
    }

    /// Override the health-probe path.
    pub fn health_path(self, path: &str) -> (s: Self)
        ensures
            s.health_path@ == path@,
            s == (WorkerSpec { health_path: s.health_path, ..self }),
    {
        WorkerSpec { health_path: path.to_owned(), ..self }
    }

    /// The full request URL for this worker, given the item's `url`, or the endpoint
    /// default when the item left it blank.
    pub fn request_url(&self, item_url: &str) -> (r: String)
        ensures
            r@ == trim_end_char(self.base_url@, '/') + (if item_url@.len() == 0 {
                endpoint_path(self.endpoint_kind)
            } else {
                item_url@
            }),
    {
        let base: String = trim_end_matches_char(self.base_url.as_str(), '/');
        if item_url.is_empty() {
            concat2(base.as_str(), self.endpoint_kind.default_path())
        } else {
            concat2(base.as_str(), item_url)
        }
    }

    /// The URL of the health probe.
    pub fn health_url(&self) -> (r: String)
        ensures
            r@ == trim_end_char(self.base_url@, '/') + self.health_path@,
    {
        let base: String = trim_end_matches_char(self.base_url.as_str(), '/');
        concat2(base.as_str(), self.health_path.as_str())
    }

    /// The URL of the engine's queue-depth metric, if it has one.
    pub fn metrics_url(&self) -> (r: Option<String>)
        ensures
            match r {
                Some(u) => metrics_path_of(self.engine_hint) is Some && u@ == trim_end_char(
                    self.base_url@,
                    '/',
                ) + metrics_path_of(self.engine_hint)->0,
                None => metrics_path_of(self.engine_hint) is None,
            },
    {
        match self.engine_hint.metrics_path() {
            Some(path) => {
                let base: String = trim_end_matches_char(self.base_url.as_str(), '/');
                Some(concat2(base.as_str(), path))
            },
            None => None,
        }
    }

    /// The endpoint against which an item's response is checked: that of its own
    /// path, or the worker's where the path names none.
    pub fn item_kind(&self, item_url: &str) -> (k: EndpointKind)
        ensures
            k == match endpoint_of_path(item_url@) {
                Some(k) => k,
                None => self.endpoint_kind,
            },
    {
        match EndpointKind::from_path(item_url) {
            Some(k) => k,
            None => self.endpoint_kind,
        }
    }
}

/// The method of a line that names none.
pub fn default_method() -> (r: String)
    ensures
        r@ == "POST"@,
{
    "POST".to_owned()
}

/// The atomic unit of fan-out: one inference request with its queue bookkeeping.
#[derive(Debug, Clone, PartialEq)]
pub struct Item {
    /// Identity, idempotency key, and resume key, all at once.
    pub custom_id: String,
    pub method: String,
    /// Request path; blank stands for the worker's endpoint default.
    pub url: String,
    /// The request payload, passed through to the engine.
    pub body: Json,
    pub status: ItemState,
    pub attempts: u32,
    pub leased_until: Option<i64>,
    pub leased_by: Option<String>,
    pub last_error: Option<String>,
}

/// The mathematical value of an [`Item`].
#[verifier::ext_equal]
pub struct ItemView {
    pub custom_id: Seq<char>,
    pub method: Seq<char>,
    pub url: Seq<char>,
    pub body: JsonView,
    pub status: ItemState,
    pub attempts: u32,
    pub leased_until: Option<i64>,
    pub leased_by: Option<Seq<char>>,
    pub last_error: Option<Seq<char>>,
}

impl View for Item {
    type V = ItemView;

    open spec fn view(&self) -> ItemView {
        ItemView {
            custom_id: self.custom_id@,
            method: self.method@,
            url: self.url@,
            body: self.body@,
            status: self.status,
            attempts: self.attempts,
            leased_until: self.leased_until,
            leased_by: opt_view(self.leased_by),
            last_error: opt_view(self.last_error),
        }
    }
}

/// The values of a list of items.
pub open spec fn item_views(items: Seq<Item>) -> Seq<ItemView> {
    items.map_values(|i: Item| i@)
}

/// An equal optional text.
pub fn duplicate_opt(s: &Option<String>) -> (r: Option<String>)
    ensures
        opt_view(r) == opt_view(*s),
{
    match s {
        Some(t) => Some(t.clone()),
        None => None,
    }
}

impl Item {
    /// An equal item.
    pub fn duplicate(&self) -> (r: Item)
        ensures
            r@ == self@,
    {
        Item {
            custom_id: self.custom_id.clone(),
            method: self.method.clone(),
            url: self.url.clone(),
            body: self.body.duplicate(),
            status: self.status,
            attempts: self.attempts,
            leased_until: self.leased_until,
            leased_by: duplicate_opt(&self.leased_by),
            last_error: duplicate_opt(&self.last_error),
        }
    }
}

/// The success body of an [`ItemResult`].
#[derive(Debug, Clone, PartialEq)]
pub struct ItemResponse {
    pub status_code: u16,
    pub request_id: Option<String>,
    pub body: Json,
}

/// The error body of an [`ItemResult`].
#[derive(Debug, Clone, PartialEq)]
pub struct ItemError {
    pub code: String,
    pub message: String,
}

/// What gets written to the store, keyed by `custom_id`. Persisted before the item
/// is acked.
#[derive(Debug, Clone, PartialEq)]
pub struct ItemResult {
    pub custom_id: String,
    pub response: Option<ItemResponse>,
    pub error: Option<ItemError>,
    pub usage: TokenUsage,
    pub worker_id: String,
    pub latency_ms: u64,
    pub attempt: u32,
    pub completed_at: i64,
}

/// `r` is the terminal-failure result of `item` on `worker_id` for the error text
/// `message`.
pub open spec fn is_failure_result(
    r: ItemResult,
    custom_id: Seq<char>,
    attempts: u32,
    worker_id: Seq<char>,
    message: Seq<char>,
) -> bool {
    &&& r.custom_id@ == custom_id
    &&& r.response is None
    &&& r.error matches Some(e) && e.code@ == "worker_error"@ && e.message@ == message
    &&& r.usage == no_usage()
    &&& r.worker_id@ == worker_id
    &&& r.latency_ms == 0
    &&& r.attempt == attempts
}

impl ItemResult {
    /// The terminal-failure result of an item whose retries are exhausted, completed
    /// at `completed_at`.
    pub fn failed_at(
        item: &Item,
        worker_id: &str,
        error: &ForgeError,
        completed_at: i64,
    ) -> (r: Self)
        ensures
            is_failure_result(
                r,
                item.custom_id@,
                item.attempts,
                worker_id@,
                error_text(*error),
            ),
            r.completed_at == completed_at,
    {
        ItemResult {
            custom_id: item.custom_id.clone(),
            response: None,
            error: Some(
                ItemError { code: "worker_error".to_owned(), message: error.to_string() },
            ),
            usage: TokenUsage::default(),
            worker_id: worker_id.to_owned(),
            latency_ms: 0,
            attempt: item.attempts,
            completed_at,
        }
    }

    /// The terminal-failure result of an item whose retries are exhausted, completed
    /// now.
    pub fn failed(item: &Item, worker_id: &str, error: &ForgeError) -> (r: Self)
        ensures
            is_failure_result(
                r,
                item.custom_id@,
                item.attempts,
                worker_id@,
                error_text(*error),
            ),
    {
        ItemResult::failed_at(item, worker_id, error, now_ms())
    }

    /// True when this result is a successful response and no dead letter.
    pub fn is_success(&self) -> (r: bool)
        ensures
            r == (self.response is Some && self.error is None),
    {
        self.response.is_some() && self.error.is_none()
    }
}

/// Coarse run status.
#[derive(Debug, Clone, Copy, PartialEq, Eq, Structural)]
pub enum JobStatus {
    Running,
    Done,
    Failed,
    Paused,
}

impl Default for JobStatus {
    fn default() -> (s: Self)
        ensures
            s == JobStatus::Running,
    {
        JobStatus::Running
    }
}

/// Aggregate progress for a run.
#[derive(Debug, Clone, Copy, PartialEq, Eq, Structural)]
pub struct JobTotals {
    pub items_total: u64,
    pub items_done: u64,
    pub items_dead: u64,
    pub tokens_prompt: u64,
    pub tokens_completion: u64,
}

impl Default for JobTotals {
    fn default() -> (t: Self)
        ensures
            t == zero_totals(),
    {
        JobTotals {
            items_total: 0,
            items_done: 0,
            items_dead: 0,
            tokens_prompt: 0,
            tokens_completion: 0,
        }
    }
}

/// No progress at all.
pub open spec fn zero_totals() -> JobTotals {
    JobTotals {
        items_total: 0,
        items_done: 0,
        items_dead: 0,
        tokens_prompt: 0,
        tokens_completion: 0,
    }
}

/// The totals with one more success folded in.
pub open spec fn totals_with(t: JobTotals, usage: TokenUsage) -> JobTotals {
    JobTotals {
        items_done: (t.items_done + 1) as u64,
        tokens_prompt: (t.tokens_prompt + usage.prompt_tokens) as u64,
        tokens_completion: (t.tokens_completion + usage.completion_tokens) as u64,
        ..t
    }
}

/// One more success with `usage` fits in the totals' counters.
pub open spec fn totals_fit(t: JobTotals, usage: TokenUsage) -> bool {
    &&& t.items_done < u64::MAX
    &&& t.tokens_prompt + usage.prompt_tokens <= u64::MAX
    &&& t.tokens_completion + usage.completion_tokens <= u64::MAX
}

impl JobTotals {
    /// All tokens of the run.
    pub fn tokens_total(&self) -> (r: u64)
        requires
            self.tokens_prompt + self.tokens_completion <= u64::MAX,
        ensures
            r == self.tokens_prompt + self.tokens_completion,
    {
        self.tokens_prompt + self.tokens_completion
    }

    /// Whether one more success with `usage` fits in the counters.
    pub fn fits(&self, usage: &TokenUsage) -> (r: bool)
        ensures
            r == totals_fit(*self, *usage),
    {
        self.items_done < 0xffff_ffff_ffff_ffff && self.tokens_prompt.checked_add(
            usage.prompt_tokens,
        ).is_some() && self.tokens_completion.checked_add(usage.completion_tokens).is_some()
    }

    /// Fold a successful result's usage into the totals.
    pub fn record_done(&mut self, usage: &TokenUsage)
        requires
            totals_fit(*old(self), *usage),
        ensures
            *final(self) == totals_with(*old(self), *usage),
    {
        self.items_done = self.items_done + 1;
        self.tokens_prompt = self.tokens_prompt + usage.prompt_tokens;
        self.tokens_completion = self.tokens_completion + usage.completion_tokens;
    }
}

/// Run metadata. Progress is authoritative in the queue; this records the shape of
/// the run.
#[derive(Debug, Clone, PartialEq)]
pub struct Job {
    pub job_id: String,
    pub input_uri: String,
    pub endpoint_kind: EndpointKind,
    pub worker_specs: Vec<WorkerSpec>,
    pub output_uri: String,
    pub model: Option<String>,
    pub created_at: i64,
    pub status: JobStatus,
    pub totals: JobTotals,
}

/// A contiguous line range of the input that has been durably hydrated, for resume
/// bookkeeping only.
#[derive(Debug, Clone, Copy, PartialEq, Eq, Structural)]
pub struct Shard {
    pub shard_id: u64,
    pub byte_offset_start: u64,
    pub byte_offset_end: u64,
    pub line_start: u64,
    pub line_end: u64,
    pub lines_hydrated: u64,
}

/// A text that holds a word names it.
pub proof fn lemma_holds_word(a: Seq<char>, word: Seq<char>, b: Seq<char>)
    ensures
        text_contains(a + word + b, word),
{
    let s = a + word + b;
    assert(s.subrange(a.len() as int, (a.len() + word.len()) as int) =~= word);
    assert(crate::text::occurs_at(s, word, a.len() as int));
}

/// A path is that of the endpoint whose name stands in it, whatever stands around it; the
/// default path of an endpoint is its own.
pub proof fn law_paths_name_their_endpoint(
    path: &str,
    r: Option<EndpointKind>,
    a: Seq<char>,
    b: Seq<char>,
)
    requires
        call_ensures(EndpointKind::from_path, (path,), r),
    ensures
        path@ == a + "/embeddings"@ + b ==> r == Some(EndpointKind::Embeddings),
        path@ == a + "/chat/completions"@ + b && !text_contains(path@, "/embeddings"@) ==> r == Some(
            EndpointKind::Chat,
        ),
        path@ == a + "/completions"@ + b && !text_contains(path@, "/embeddings"@)
            && !text_contains(path@, "/chat/completions"@) ==> r == Some(EndpointKind::Completions),
        path@ == a + "/messages"@ + b && !text_contains(path@, "/embeddings"@) && !text_contains(
            path@,
            "/completions"@,
        ) && !text_contains(path@, "/chat/completions"@) ==> r == Some(EndpointKind::Messages),
        r == Some(EndpointKind::Embeddings) ==> text_contains(path@, "/embeddings"@),
        r == Some(EndpointKind::Chat) ==> text_contains(path@, "/chat/completions"@),
        r == Some(EndpointKind::Completions) ==> text_contains(path@, "/completions"@),
        r == Some(EndpointKind::Messages) ==> text_contains(path@, "/messages"@),
        path@.len() == 0 ==> r is None,
{
    lemma_holds_word(a, "/embeddings"@, b);
    lemma_holds_word(a, "/chat/completions"@, b);
    lemma_holds_word(a, "/completions"@, b);
    lemma_holds_word(a, "/messages"@, b);
    reveal_strlit("/embeddings");
    reveal_strlit("/chat/completions");
    reveal_strlit("/completions");
    reveal_strlit("/messages");
}

/// Each endpoint has its documented path.
pub proof fn law_endpoints_have_their_path(k: EndpointKind, path: &'static str)
    requires
        call_ensures(EndpointKind::default_path, (k,), path),
    ensures
        k == EndpointKind::Chat ==> path@ == "/v1/chat/completions"@,
        k == EndpointKind::Completions ==> path@ == "/v1/completions"@,
        k == EndpointKind::Embeddings ==> path@ == "/v1/embeddings"@,
        k == EndpointKind::Messages ==> path@ == "/v1/messages"@,
{
}

/// A request goes to the path that its item names, below the worker's base without the
/// slashes at its end; an item that names none goes to the worker's endpoint.
pub proof fn law_requests_go_where_the_item_says(
    spec: &WorkerSpec,
    item_url: &str,
    url: String,
    health: String,
    metrics: Option<String>,
    base: Seq<char>,
)
    requires
        call_ensures(WorkerSpec::request_url, (spec, item_url), url),
        call_ensures(WorkerSpec::health_url, (spec,), health),
        call_ensures(WorkerSpec::metrics_url, (spec,), metrics),
        base.len() > 0,
        base.last() != '/',
        spec.base_url@ == base || spec.base_url@ == base + seq!['/'],
    ensures
        item_url@.len() > 0 ==> url@ == base + item_url@,
        item_url@.len() == 0 && spec.endpoint_kind == EndpointKind::Chat ==> url@ == base
            + "/v1/chat/completions"@,
        item_url@.len() == 0 && spec.endpoint_kind == EndpointKind::Embeddings ==> url@ == base
            + "/v1/embeddings"@,
        item_url@.len() == 0 && spec.endpoint_kind == EndpointKind::Completions ==> url@ == base
            + "/v1/completions"@,
        item_url@.len() == 0 && spec.endpoint_kind == EndpointKind::Messages ==> url@ == base
            + "/v1/messages"@,
        health@ == base + spec.health_path@,
        spec.engine_hint == EngineHint::Vllm ==> (metrics matches Some(m) && m@ == base
            + "/metrics"@),
        spec.engine_hint == EngineHint::Sglang ==> (metrics matches Some(m) && m@ == base
            + "/get_server_info"@),
        spec.engine_hint == EngineHint::LlamaCpp ==> (metrics matches Some(m) && m@ == base
            + "/slots"@),
        spec.engine_hint == EngineHint::Router ==> metrics is None,
{
    let u = spec.base_url@;
    if u != base {
        assert(u.last() == '/');
        assert(u.drop_last() =~= base);
    }
    reveal_with_fuel(trim_end_char, 3);
    assert(trim_end_char(u, '/') == base);
}

/// Tokens are counted under the names that engines use for them: the OpenAI name counts
/// before that of the Messages API, and that before the one of llama.cpp. A count that no
/// name gives is zero.
pub proof fn law_usage_is_read_by_name(v: &Json, u: TokenUsage)
    requires
        call_ensures(TokenUsage::from_openai_usage, (v,), u),
    ensures
        v@.u64_at("prompt_tokens"@) matches Some(n) ==> u.prompt_tokens == n,
        v@.u64_at("completion_tokens"@) matches Some(n) ==> u.completion_tokens == n,
        v@.u64_at("total_tokens"@) matches Some(n) ==> u.total_tokens == n,
        v@.u64_at("total_tokens"@) is None ==> u.total_tokens == 0,
        v@.u64_at("prompt_tokens"@) is None ==> (v@.u64_at("input_tokens"@) matches Some(n)
            ==> u.prompt_tokens == n),
        v@.u64_at("completion_tokens"@) is None ==> (v@.u64_at("output_tokens"@) matches Some(n)
            ==> u.completion_tokens == n),
        v@.u64_at("prompt_tokens"@) is None && v@.u64_at("input_tokens"@) is None ==> (v@.u64_at(
            "tokens_evaluated"@,
        ) matches Some(n) ==> u.prompt_tokens == n),
        v@.u64_at("completion_tokens"@) is None && v@.u64_at("output_tokens"@) is None ==> (v@.u64_at(
            "tokens_predicted"@,
        ) matches Some(n) ==> u.completion_tokens == n),
        v@.u64_at("prompt_tokens"@) is None && v@.u64_at("input_tokens"@) is None && v@.u64_at(
            "tokens_evaluated"@,
        ) is None ==> u.prompt_tokens == 0,
        v@.u64_at("completion_tokens"@) is None && v@.u64_at("output_tokens"@) is None && v@.u64_at(
            "tokens_predicted"@,
        ) is None ==> u.completion_tokens == 0,
        v@.get("prompt_tokens_details"@) matches Some(d) ==> (d.u64_at("cached_tokens"@) matches Some(
            n,
        ) ==> u.cached_tokens == n),
        v@.get("completion_tokens_details"@) matches Some(d) ==> (d.u64_at(
            "reasoning_tokens"@,
        ) matches Some(n) ==> u.reasoning_tokens == n),
        v@.get("prompt_tokens_details"@) is None ==> u.cached_tokens == 0,
        v@.get("completion_tokens_details"@) is None ==> u.reasoning_tokens == 0,
{
}

/// A failed item has a result that says why, under its id, at its attempt, without a
/// response and without tokens; it is no success.
pub proof fn law_failures_say_why(
    item: &Item,
    worker_id: &str,
    error: &ForgeError,
    completed_at: i64,
    r: ItemResult,
    success: bool,
)
    requires
        call_ensures(ItemResult::failed_at, (item, worker_id, error, completed_at), r),
        call_ensures(ItemResult::is_success, (&r,), success),
    ensures
        r.custom_id@ == item.custom_id@,
        r.attempt == item.attempts,
        r.worker_id@ == worker_id@,
        r.completed_at == completed_at,
        r.response is None,
        r.error matches Some(e) && e.code@ == "worker_error"@ && e.message@ == error_text(*error),
        r.usage.prompt_tokens == 0 && r.usage.completion_tokens == 0 && r.usage.total_tokens == 0,
        !success,
{
}

/// A result is a success just where it has a response and no error.
pub proof fn law_success_is_a_response_without_error(r: &ItemResult, success: bool)
    requires
        call_ensures(ItemResult::is_success, (r,), success),
    ensures
        success <==> r.response is Some && r.error is None,
{
}

/// One more success adds one item and its tokens to the totals, and nothing else.
pub proof fn law_totals_add_up(before: JobTotals, after: JobTotals, usage: &TokenUsage, tokens: u64)
    requires
        totals_fit(before, *usage),
        exists|t: &mut JobTotals|
            *t == before && *final(t) == after && #[trigger] call_ensures(
                JobTotals::record_done,
                (t, usage),
                (),
            ),
        call_ensures(JobTotals::tokens_total, (&after,), tokens),
    ensures
        after.items_done == before.items_done + 1,
        after.items_dead == before.items_dead,
        after.items_total == before.items_total,
        after.tokens_prompt == before.tokens_prompt + usage.prompt_tokens,
        after.tokens_completion == before.tokens_completion + usage.completion_tokens,
        tokens == after.tokens_prompt + after.tokens_completion,
{
}

/// A worker is what it was declared as: the builders set what they name and leave the rest,
/// and one that is just made has the stated defaults.
pub proof fn law_workers_are_what_they_are_declared(
    worker_id: &str,
    base_url: &str,
    kind: EndpointKind,
    made: WorkerSpec,
    spec: WorkerSpec,
    limit: usize,
    wide: WorkerSpec,
    per_second: u32,
    slow: WorkerSpec,
    hint: EngineHint,
    hinted: WorkerSpec,
    path: &str,
    healthy: WorkerSpec,
)
    requires
        call_ensures(WorkerSpec::new, (worker_id, base_url, kind), made),
        call_ensures(WorkerSpec::concurrency, (spec, limit), wide),
        call_ensures(WorkerSpec::rate_limit, (spec, per_second), slow),
        call_ensures(WorkerSpec::engine_hint, (spec, hint), hinted),
        call_ensures(WorkerSpec::health_path, (spec, path), healthy),
    ensures
        made.worker_id@ == worker_id@ && made.base_url@ == base_url@ && made.endpoint_kind == kind,
        made.concurrency_limit == 256 && made.engine_hint == EngineHint::Vllm && !made.ready,
        made.health_path@ == "/health"@ && made.rate_limit_per_second is None,
        wide.concurrency_limit == limit && wide.worker_id == spec.worker_id && wide.base_url
            == spec.base_url && wide.engine_hint == spec.engine_hint,
        slow.rate_limit_per_second == Some(per_second) && slow.concurrency_limit
            == spec.concurrency_limit && slow.base_url == spec.base_url,
        hinted.engine_hint == hint && hinted.concurrency_limit == spec.concurrency_limit
            && hinted.base_url == spec.base_url,
        healthy.health_path@ == path@ && healthy.base_url == spec.base_url && healthy.engine_hint
            == spec.engine_hint,
{
}

/// Each engine tells its load in a place of its own; hosted services tell none.
pub proof fn law_engines_tell_their_load(h: EngineHint, r: Option<&'static str>)
    requires
        call_ensures(EngineHint::metrics_path, (h,), r),
    ensures
        h == EngineHint::Vllm ==> (r matches Some(p) && p@ == "/metrics"@),
        h == EngineHint::Sglang ==> (r matches Some(p) && p@ == "/get_server_info"@),
        h == EngineHint::LlamaCpp ==> (r matches Some(p) && p@ == "/slots"@),
        h == EngineHint::Router || h == EngineHint::OpenaiApi || h == EngineHint::AnthropicApi
            ==> r is None,
{
}

/// A failure that is told now says the same as one that is told at a given instant.
pub proof fn law_failures_are_told_now(
    item: &Item,
    worker_id: &str,
    error: &ForgeError,
    r: ItemResult,
)
    requires
        call_ensures(ItemResult::failed, (item, worker_id, error), r),
    ensures
        r.custom_id@ == item.custom_id@,
        r.attempt == item.attempts,
        r.worker_id@ == worker_id@,
        r.response is None,
        r.error matches Some(e) && e.code@ == "worker_error"@ && e.message@ == error_text(*error),
        r.usage.prompt_tokens == 0 && r.usage.completion_tokens == 0 && r.usage.total_tokens == 0,
        r.latency_ms == 0,
{
}


} // verus!

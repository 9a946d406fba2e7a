//! One worker over a black-box HTTP engine: its cached state, and the decisions of
//! its retry loop.
//!
//! The requests themselves are made elsewhere. For each one, what came back is
//! handed to [`Submission::settle`], which says whether the submission is over or
//! another attempt follows.

use vstd::prelude::*;

use crate::aimd::{gives_back, learns, takes, AimdLimit};
use crate::cooldown::Cooldown;
use crate::duration::Duration;
use crate::error::ForgeError;
use crate::json::{json_parse, parse_json, parse_view, Json, JsonView};
use crate::retry::RetryPolicy;
use crate::text::{
    chars_of, concat2, decimal, decimal_of, decode, lossy, opt_view, shown, string_from, text_of,
};
use crate::types::{
    no_usage, usage_of, EndpointKind, Item, ItemResponse, ItemResult, TokenUsage, WorkerSpec,
};
use crate::validate::{verdict, ResponseCheck};

verus! {

/// The cached load that stands for an unknown queue depth.
pub const LOAD_UNKNOWN: u32 = 0xffff_ffff;

/// 429, the request timeout, and any 5xx are transient.
pub open spec fn retryable(code: u16) -> bool {
    code == 429 || code == 408 || 500 <= code <= 599
}

/// 429, the request timeout, and any 5xx are transient and tried again. Other 4xx
/// are a bad request: terminal.
pub fn is_retryable_status(code: u16) -> (r: bool)
    ensures
        r == retryable(code),
{
    code == 429 || code == 408 || (500 <= code && code <= 599)
}

/// The first `n` characters of a text.
pub open spec fn truncated(s: Seq<char>, n: nat) -> Seq<char> {
    if s.len() <= n {
        s
    } else {
        s.take(n as int)
    }
}

/// The first `n` characters of `s`.
pub fn truncate(s: &str, n: usize) -> (r: String)
    ensures
        r@ == truncated(s@, n as nat),
{
    let cs: Vec<char> = chars_of(s);
    let end: usize = if cs.len() <= n {
        cs.len()
    } else {
        n
    };
    assert(s@.subrange(0, end as int) == truncated(s@, n as nat));
    string_from(cs.as_slice(), 0, end)
}

/// What came back from one request.
pub enum Reply {
    /// A 2xx, with its body decoded, or the reason why it could not be.
    Success { code: u16, request_id: Option<String>, body: Result<Json, String> },
    /// Any other status: its printed form, such as `404 Not Found`, and the body text.
    Refused { code: u16, status: String, text: String },
    /// No answer: the message of the transport error.
    Unreachable { message: String },
}

/// What came back is a success, with its body parsed, or a refusal with its text.
pub open spec fn is_reply(
    r: Reply,
    code: u16,
    status: Seq<char>,
    request_id: Option<Seq<char>>,
    body: Result<Seq<u8>, Seq<char>>,
) -> bool {
    if 200 <= code <= 299 {
        &&& r matches Reply::Success { code: c, request_id: id, body: parsed } && c == code
            && opt_view(id) == request_id && parse_view(parsed) == match body {
            Ok(raw) => match text_of(raw) {
                Some(text) => json_parse(text),
                None => Err("not valid UTF-8"@),
            },
            Err(why) => Err(why),
        }
    } else {
        &&& r matches Reply::Refused { code: c, status: s, text } && c == code && s@ == status
            && text@ == match body {
            Ok(raw) => shown(raw),
            Err(_) => Seq::empty(),
        }
    }
}

/// The view of a body as it was read, or of the reason why it could not be.
pub open spec fn body_view(body: Result<Vec<u8>, String>) -> Result<Seq<u8>, Seq<char>> {
    match body {
        Ok(raw) => Ok(raw@),
        Err(why) => Err(why@),
    }
}

/// What came back from a request that was answered: the status code with its printed form,
/// the request id of the headers, and the body as it was read. The body of a 2xx is
/// parsed; that of any other is taken as text.
pub fn reply_of(
    code: u16,
    status: String,
    request_id: Option<String>,
    body: Result<Vec<u8>, String>,
) -> (r: Reply)
    ensures
        is_reply(r, code, status@, opt_view(request_id), body_view(body)),
{
    if 200 <= code && code <= 299 {
        let parsed: Result<Json, String> = match body {
            Ok(raw) => match decode(raw.as_slice()) {
                Some(text) => parse_json(text.as_str()),
                None => Err("not valid UTF-8".to_owned()),
            },
            Err(why) => Err(why),
        };
        Reply::Success { code, request_id, body: parsed }
    } else {
        let text: String = match body {
            Ok(raw) => match decode(raw.as_slice()) {
                Some(text) => text,
                None => lossy(raw.as_slice()),
            },
            Err(_) => String::new(),
        };
        Reply::Refused { code, status, text }
    }
}

/// What a submission does next.
pub enum Next {
    /// It is over.
    Done(Result<ItemResult, ForgeError>),
    /// It tries again, once a backoff for this zero-based attempt has passed.
    Retry(u32),
}

/// The outcome of one attempt.
pub struct Settled {
    /// The congestion signal for the in-flight limiter, if the attempt gives one.
    pub signal: Option<bool>,
    pub next: Next,
}

/// A submission of one item: the attempts that it may make, and those it has made.
pub struct Submission {
    attempts: u32,
    attempt: u32,
}

/// The attempts that a policy allows: at least one.
pub open spec fn attempts_allowed(p: RetryPolicy) -> nat {
    if p.max_attempts < 1 {
        1
    } else {
        p.max_attempts as nat
    }
}

/// The message once every attempt has failed.
pub open spec fn exhausted_text(attempts: nat, last_error: Seq<char>) -> Seq<char> {
    "retries exhausted after "@ + decimal(attempts) + (" attempt(s): "@ + last_error)
}

/// The usage that a response body reports.
pub open spec fn reported_usage(body: JsonView) -> TokenUsage {
    match body.get("usage"@) {
        Some(u) => usage_of(u),
        None => no_usage(),
    }
}

/// `r` is the result of `item` for an accepted response.
pub open spec fn is_success_result(
    r: ItemResult,
    item: Item,
    spec: WorkerSpec,
    code: u16,
    request_id: Option<Seq<char>>,
    body: JsonView,
    latency_ms: u64,
    completed_at: i64,
) -> bool {
    &&& r.custom_id@ == item.custom_id@
    &&& r.response matches Some(resp) && resp.status_code == code && opt_view(resp.request_id)
        == request_id && resp.body@ == body
    &&& r.error is None
    &&& r.usage == reported_usage(body)
    &&& r.worker_id@ == spec.worker_id@
    &&& r.latency_ms == latency_ms
    &&& r.attempt == item.attempts
    &&& r.completed_at == completed_at
}

/// `e` is a worker error with the message `message`.
pub open spec fn is_worker_error(e: ForgeError, message: Seq<char>) -> bool {
    e matches ForgeError::Worker(m) && m@ == message
}

/// The endpoint against which a response is checked.
pub open spec fn checked_kind(spec: WorkerSpec, item: Item) -> EndpointKind {
    match crate::types::endpoint_of_path(item.url@) {
        Some(k) => k,
        None => spec.endpoint_kind,
    }
}

/// How an attempt that failed in a way that may pass ends: with another attempt, or
/// with the error that says that none is left.
pub open spec fn retried(attempt: nat, attempts: nat, last_error: Seq<char>, next: Next) -> bool {
    if attempt + 1 < attempts {
        next matches Next::Retry(a) && a == attempt
    } else {
        next matches Next::Done(Err(e)) && is_worker_error(e, exhausted_text(attempts, last_error))
    }
}

impl Submission {
    /// The attempts that this submission may make.
    pub closed spec fn spec_attempts(self) -> nat {
        self.attempts as nat
    }

    /// The zero-based attempt that is under way.
    pub closed spec fn spec_attempt(self) -> nat {
        self.attempt as nat
    }

    /// An attempt is under way.
    pub open spec fn wf(self) -> bool {
        self.spec_attempt() < self.spec_attempts() <= u32::MAX
    }

    /// A submission under the policy `retry`, at its first attempt.
    pub fn start(retry: &RetryPolicy) -> (s: Self)
        ensures
            s.wf(),
            s.spec_attempts() == attempts_allowed(*retry),
            s.spec_attempt() == 0,
    {
        let attempts: u32 = if retry.max_attempts < 1 {
            1
        } else {
            retry.max_attempts
        };
        Submission { attempts, attempt: 0 }
    }

    /// The zero-based attempt that is under way.
    pub fn attempt(&self) -> (r: u32)
        ensures
            r == self.spec_attempt(),
    {
        self.attempt
    }

    fn try_again(&mut self, last_error: &str) -> (next: Next)
        requires
            old(self).wf(),
        ensures
            retried(
                old(self).spec_attempt(),
                old(self).spec_attempts(),
                last_error@,
                next,
            ),
            final(self).spec_attempts() == old(self).spec_attempts(),
            next is Retry ==> final(self).wf() && final(self).spec_attempt() == old(
                self,
            ).spec_attempt() + 1,
            next is Done ==> *final(self) == *old(self),
    {
        if self.attempt + 1 < self.attempts {
            let a: u32 = self.attempt;
            self.attempt = self.attempt + 1;
            Next::Retry(a)
        } else {
            let head: String = concat2(
                "retries exhausted after ",
                decimal_of(self.attempts as u64).as_str(),
            );
            let tail: String = concat2(" attempt(s): ", last_error);
            Next::Done(Err(ForgeError::Worker(concat2(head.as_str(), tail.as_str()))))
        }
    }

    /// Settles one attempt by what came back.
    ///
    /// A 2xx whose content passes the check ends the submission with its result. A
    /// terminal status ends it with an error. All else, a 2xx whose body cannot be
    /// decoded too, is tried again while attempts are left. `latency_ms` and
    /// `completed_at` are the time since the start and the wall clock.
    pub fn settle(
        &mut self,
        spec: &WorkerSpec,
        check: ResponseCheck,
        item: &Item,
        reply: Reply,
        latency_ms: u64,
        completed_at: i64,
    ) -> (r: Settled)
        requires
            old(self).wf(),
        ensures
            final(self).spec_attempts() == old(self).spec_attempts(),
            r.next is Retry ==> final(self).wf() && final(self).spec_attempt() == old(
                self,
            ).spec_attempt() + 1,
            match reply {
                Reply::Success { code, request_id, body } => match body {
                    Err(why) => {
                        &&& r.signal is None
                        &&& retried(
                            old(self).spec_attempt(),
                            old(self).spec_attempts(),
                            "decoding response: "@ + why@,
                            r.next,
                        )
                    },
                    Ok(b) => match verdict(check, checked_kind(*spec, *item), b@) {
                        Ok(_) => {
                            &&& r.signal == Some(true)
                            &&& r.next matches Next::Done(Ok(result)) && is_success_result(
                                result,
                                *item,
                                *spec,
                                code,
                                opt_view(request_id),
                                b@,
                                latency_ms,
                                completed_at,
                            )
                        },
                        Err(why) => {
                            &&& r.signal is None
                            &&& retried(
                                old(self).spec_attempt(),
                                old(self).spec_attempts(),
                                "validation failed: "@ + why,
                                r.next,
                            )
                        },
                    },
                },
                Reply::Refused { code, status, text } => if retryable(code) {
                    &&& r.signal == Some(false)
                    &&& retried(
                        old(self).spec_attempt(),
                        old(self).spec_attempts(),
                        "HTTP "@ + status@,
                        r.next,
                    )
                } else {
                    &&& r.signal is None
                    &&& r.next matches Next::Done(Err(e)) && is_worker_error(
                        e,
                        "HTTP "@ + status@ + (" (terminal): "@ + truncated(text@, 200)),
                    )
                },
                Reply::Unreachable { message } => {
                    &&& r.signal == Some(false)
                    &&& retried(
                        old(self).spec_attempt(),
                        old(self).spec_attempts(),
                        "request error: "@ + message@,
                        r.next,
                    )
                },
            },
    {
        match reply {
            Reply::Success { code, request_id, body } => match body {
                Err(why) => {
                    let last: String = concat2("decoding response: ", why.as_str());
                    Settled { signal: None, next: self.try_again(last.as_str()) }
                },
                Ok(b) => {
                    let kind: EndpointKind = spec.item_kind(item.url.as_str());
                    match check.validate(kind, &b) {
                        Ok(_) => {
                            let usage: TokenUsage = match b.get("usage") {
                                Some(u) => TokenUsage::from_openai_usage(u),
                                None => TokenUsage::default(),
                            };
                            Settled {
                                signal: Some(true),
                                next: Next::Done(
                                    Ok(
                                        ItemResult {
                                            custom_id: item.custom_id.clone(),
                                            response: Some(
                                                ItemResponse {
                                                    status_code: code,
                                                    request_id,
                                                    body: b,
                                                },
                                            ),
                                            error: None,
                                            usage,
                                            worker_id: spec.worker_id.clone(),
                                            latency_ms,
                                            attempt: item.attempts,
                                            completed_at,
                                        },
                                    ),
                                ),
                            }
                        },
                        Err(why) => {
                            let last: String = concat2("validation failed: ", why.as_str());
                            Settled { signal: None, next: self.try_again(last.as_str()) }
                        },
                    }
                },
            },
            Reply::Refused { code, status, text } => {
                if is_retryable_status(code) {
                    let last: String = concat2("HTTP ", status.as_str());
                    Settled { signal: Some(false), next: self.try_again(last.as_str()) }
                } else {
                    let head: String = concat2("HTTP ", status.as_str());
                    let tail: String = concat2(" (terminal): ", truncate(text.as_str(), 200).as_str());
                    Settled {
                        signal: None,
                        next: Next::Done(
                            Err(ForgeError::Worker(concat2(head.as_str(), tail.as_str()))),
                        ),
                    }
                }
            },
            Reply::Unreachable { message } => {
                let last: String = concat2("request error: ", message.as_str());
                Settled { signal: Some(false), next: self.try_again(last.as_str()) }
            },
        }
    }
}

/// The state of a worker bound to one endpoint.
pub struct HttpWorker {
    spec: WorkerSpec,
    rate: Option<u32>,
    limit: AimdLimit,
    ready: bool,
    load: u32,
    cooldown: Cooldown,
    retry: RetryPolicy,
    check: ResponseCheck,
}

/// A ceiling of at least one request per second.
pub open spec fn at_least_one(per_second: u32) -> u32 {
    if per_second < 1 {
        1
    } else {
        per_second
    }
}

fn ceiling(per_second: u32) -> (r: u32)
    ensures
        r == at_least_one(per_second),
{
    if per_second < 1 {
        1
    } else {
        per_second
    }
}

impl HttpWorker {
    /// The declared endpoint.
    pub closed spec fn spec_spec(self) -> WorkerSpec {
        self.spec
    }

    /// The in-flight limiter.
    pub closed spec fn spec_limit(self) -> AimdLimit {
        self.limit
    }

    /// Cached readiness.
    pub closed spec fn spec_ready(self) -> bool {
        self.ready
    }

    /// Cached queue depth, if known.
    pub closed spec fn spec_load(self) -> Option<u32> {
        if self.load == LOAD_UNKNOWN {
            None
        } else {
            Some(self.load)
        }
    }

    /// A worker that nothing has happened to: ready, of unknown load, with its whole limit
    /// free and nothing to wait out.
    pub open spec fn is_fresh(self) -> bool {
        &&& self.spec_ready()
        &&& self.spec_load() is None
        &&& self.spec_cooldown().until_ms == 0
        &&& self.spec_limit().spec_in_flight() == 0
        &&& self.spec_limit().spec_effective() == self.spec_limit().spec_ceiling()
        &&& self.spec_limit().spec_debt() == 0
        &&& self.spec_limit().spec_streak() == 0
    }

    /// The cooldown that responses have asked for.
    pub closed spec fn spec_cooldown(self) -> Cooldown {
        self.cooldown
    }

    /// The retry policy.
    pub closed spec fn spec_retry(self) -> RetryPolicy {
        self.retry
    }

    /// The ceiling on requests per second, if there is one.
    pub closed spec fn spec_rate(self) -> Option<u32> {
        self.rate
    }

    /// The content check.
    pub closed spec fn spec_check(self) -> ResponseCheck {
        self.check
    }

    /// The limiter is sound, and its ceiling is the declared concurrency.
    pub open spec fn wf(self) -> bool {
        &&& self.spec_limit().wf()
        &&& self.spec_limit().spec_ceiling() == if self.spec_spec().concurrency_limit < 1 {
            1
        } else {
            self.spec_spec().concurrency_limit as nat
        }
    }

    /// Everything but readiness, load, limiter and cooldown is the same.
    pub open spec fn same_setup(self, other: HttpWorker) -> bool {
        &&& self.spec_spec() == other.spec_spec()
        &&& self.spec_retry() == other.spec_retry()
        &&& self.spec_check() == other.spec_check()
        &&& self.spec_rate() == other.spec_rate()
    }

    /// A worker from its spec. It counts as ready until the first probe, so that a run
    /// can begin before that; its load is unknown.
    pub fn new(spec: WorkerSpec) -> (w: Self)
        ensures
            w.wf(),
            w.spec_spec() == spec,
            w.is_fresh(),
            w.spec_rate() == match spec.rate_limit_per_second {
                Some(n) => Some(at_least_one(n)),
                None => None,
            },
            w.spec_check() == ResponseCheck::Any,
            w.spec_retry().max_attempts == 5,
            w.spec_retry().base@ == 500_000_000,
            w.spec_retry().cap@ == 30_000_000_000,
    {
        let limit: AimdLimit = AimdLimit::new(spec.concurrency_limit);
        let rate: Option<u32> = match spec.rate_limit_per_second {
            Some(n) => Some(ceiling(n)),
            None => None,
        };
        HttpWorker {
            spec,
            rate,
            limit,
            ready: true,
            load: LOAD_UNKNOWN,
            cooldown: Cooldown::none(),
            retry: RetryPolicy::default(),
            check: ResponseCheck::default(),
        }
    }

    /// Override the retry policy.
    pub fn with_retry(self, retry: RetryPolicy) -> (w: Self)
        requires
            self.wf(),
        ensures
            w.wf(),
            w.spec_retry() == retry,
            w.spec_spec() == self.spec_spec(),
            w.spec_check() == self.spec_check(),
            w.spec_limit() == self.spec_limit(),
            w.spec_ready() == self.spec_ready(),
            w.spec_load() == self.spec_load(),
            w.spec_cooldown() == self.spec_cooldown(),
            w.spec_rate() == self.spec_rate(),
    {
        HttpWorker { retry, ..self }
    }

    /// Require a content check on every 2xx response.
    pub fn with_validation(self, check: ResponseCheck) -> (w: Self)
        requires
            self.wf(),
        ensures
            w.wf(),
            w.spec_check() == check,
            w.spec_spec() == self.spec_spec(),
            w.spec_retry() == self.spec_retry(),
            w.spec_limit() == self.spec_limit(),
            w.spec_ready() == self.spec_ready(),
            w.spec_load() == self.spec_load(),
            w.spec_cooldown() == self.spec_cooldown(),
            w.spec_rate() == self.spec_rate(),
    {
        HttpWorker { check, ..self }
    }

    /// Set a request-rate ceiling, of at least one request per second. The declared
    /// capability stays as it is.
    pub fn with_rate_limit(self, per_second: u32) -> (w: Self)
        requires
            self.wf(),
        ensures
            w.wf(),
            w.spec_rate() == Some(at_least_one(per_second)),
            w.spec_spec() == self.spec_spec(),
            w.spec_retry() == self.spec_retry(),
            w.spec_check() == self.spec_check(),
            w.spec_limit() == self.spec_limit(),
            w.spec_ready() == self.spec_ready(),
            w.spec_load() == self.spec_load(),
            w.spec_cooldown() == self.spec_cooldown(),
    {
        HttpWorker { rate: Some(ceiling(per_second)), ..self }
    }

    /// The ceiling on requests per second, if there is one.
    pub fn rate(&self) -> (r: Option<u32>)
        ensures
            r == self.spec_rate(),
    {
        self.rate
    }

    /// The declared capability of this endpoint.
    pub fn spec(&self) -> (r: &WorkerSpec)
        ensures
            *r == self.spec_spec(),
    {
        &self.spec
    }

    /// The retry policy.
    pub fn retry(&self) -> (r: RetryPolicy)
        ensures
            r == self.spec_retry(),
    {
        self.retry
    }

    /// The content check.
    pub fn check(&self) -> (r: ResponseCheck)
        ensures
            r == self.spec_check(),
    {
        self.check
    }

    /// Cached readiness.
    pub fn is_ready(&self) -> (r: bool)
        ensures
            r == self.spec_ready(),
    {
        self.ready
    }

    /// Override the cached readiness.
    pub fn set_ready(&mut self, ready: bool)
        requires
            old(self).wf(),
        ensures
            final(self).wf(),
            final(self).spec_ready() == ready,
            final(self).same_setup(*old(self)),
            final(self).spec_limit() == old(self).spec_limit(),
            final(self).spec_load() == old(self).spec_load(),
            final(self).spec_cooldown() == old(self).spec_cooldown(),
    {
        self.ready = ready;
    }

    /// Cached queue depth for load-aware dispatch; lower is less loaded.
    pub fn load(&self) -> (r: Option<u32>)
        ensures
            r == self.spec_load(),
    {
        if self.load == LOAD_UNKNOWN {
            None
        } else {
            Some(self.load)
        }
    }

    /// Takes in a health probe: the readiness, and the queue depth if it could be
    /// read. A worker that is not ready has no known load, so a stale one never
    /// sticks.
    pub fn probed(&mut self, ready: bool, depth: Option<u32>)
        requires
            old(self).wf(),
        ensures
            final(self).wf(),
            final(self).spec_ready() == ready,
            final(self).spec_load() == match depth {
                Some(n) => if ready && n != LOAD_UNKNOWN {
                    Some(n)
                } else {
                    None
                },
                None => None,
            },
            final(self).same_setup(*old(self)),
            final(self).spec_limit() == old(self).spec_limit(),
            final(self).spec_cooldown() == old(self).spec_cooldown(),
    {
        self.ready = ready;
        self.load = match depth {
            Some(n) => if ready {
                n
            } else {
                LOAD_UNKNOWN
            },
            None => LOAD_UNKNOWN,
        };
    }

    /// Takes an in-flight slot if the limiter has one.
    pub fn try_acquire(&mut self) -> (taken: bool)
        requires
            old(self).wf(),
        ensures
            final(self).wf(),
            takes(old(self).spec_limit(), final(self).spec_limit(), taken),
            final(self).same_setup(*old(self)),
            final(self).spec_ready() == old(self).spec_ready(),
            final(self).spec_load() == old(self).spec_load(),
            final(self).spec_cooldown() == old(self).spec_cooldown(),
    {
        self.limit.try_acquire()
    }

    /// Gives an in-flight slot back.
    pub fn release(&mut self)
        requires
            old(self).wf(),
            old(self).spec_limit().spec_in_flight() > 0,
        ensures
            final(self).wf(),
            gives_back(old(self).spec_limit(), final(self).spec_limit()),
            final(self).same_setup(*old(self)),
            final(self).spec_ready() == old(self).spec_ready(),
            final(self).spec_load() == old(self).spec_load(),
            final(self).spec_cooldown() == old(self).spec_cooldown(),
    {
        self.limit.release();
    }

    /// The in-flight limiter.
    pub fn limit(&self) -> (r: AimdLimit)
        ensures
            r == self.spec_limit(),
    {
        self.limit
    }

    /// Passes a congestion signal on to the limiter.
    pub fn record(&mut self, success: bool)
        requires
            old(self).wf(),
        ensures
            final(self).wf(),
            learns(old(self).spec_limit(), success, final(self).spec_limit()),
            final(self).same_setup(*old(self)),
            final(self).spec_ready() == old(self).spec_ready(),
            final(self).spec_load() == old(self).spec_load(),
            final(self).spec_cooldown() == old(self).spec_cooldown(),
    {
        self.limit.record(success);
    }

    /// Arms the shared cooldown by what a response's headers asked for.
    pub fn arm_cooldown(&mut self, now: i64, d: Option<Duration>)
        requires
            old(self).wf(),
            d matches Some(s) ==> s@ <= crate::cooldown::max_cooldown_nanos(),
        ensures
            final(self).wf(),
            final(self).spec_cooldown().until_ms >= old(self).spec_cooldown().until_ms,
            match d {
                Some(s) => final(self).spec_cooldown().until_ms
                    == if crate::cooldown::instant_after(now, (s@ / 1_000_000) as int) > old(
                    self,
                ).spec_cooldown().until_ms {
                    crate::cooldown::instant_after(now, (s@ / 1_000_000) as int)
                } else {
                    old(self).spec_cooldown().until_ms as int
                },
                None => final(self).spec_cooldown() == old(self).spec_cooldown(),
            },
            final(self).same_setup(*old(self)),
            final(self).spec_limit() == old(self).spec_limit(),
            final(self).spec_ready() == old(self).spec_ready(),
            final(self).spec_load() == old(self).spec_load(),
    {
        self.cooldown.arm(now, d);
    }

    /// How long to nap at `now` before the next request, in milliseconds.
    pub fn cooldown_nap(&self, now: i64) -> (r: Option<u64>)
        ensures
            match r {
                Some(ms) => self.spec_cooldown().until_ms > now && ms
                    == if self.spec_cooldown().until_ms - now < 120_000 {
                    self.spec_cooldown().until_ms - now
                } else {
                    120_000
                },
                None => self.spec_cooldown().until_ms <= now,
            },
    {
        self.cooldown.nap(now)
    }
}

/// A submission makes no more attempts than its policy allows: an attempt is followed
/// by another only while one is left.
pub proof fn law_attempts_are_bounded(attempt: nat, attempts: nat, last_error: Seq<char>, next: Next)
    requires
        attempt < attempts,
        retried(attempt, attempts, last_error, next),
    ensures
        next is Retry <==> attempt + 1 < attempts,
{
}

/// A server that is overloaded, out of order or too slow is asked again: for any 5xx, for
/// 429 and for 408, while an attempt is left the submission goes on, one attempt further
/// and after the backoff of the attempt made, and the limiter is told of the overload.
/// Once none is left, the submission fails.
pub proof fn law_transient_refusals_are_tried_again(
    before: Submission,
    after: Submission,
    spec: &WorkerSpec,
    check: ResponseCheck,
    item: &Item,
    reply: Reply,
    latency_ms: u64,
    completed_at: i64,
    settled: Settled,
)
    requires
        before.wf(),
        exists|m: &mut Submission|
            *m == before && *final(m) == after && #[trigger] call_ensures(
                Submission::settle,
                (m, spec, check, item, reply, latency_ms, completed_at),
                settled,
            ),
        reply matches Reply::Refused { code, .. } && (500 <= code <= 599 || code == 429 || code
            == 408),
    ensures
        settled.signal == Some(false),
        before.spec_attempt() + 1 < before.spec_attempts() ==> (settled.next matches Next::Retry(
            a,
        ) && a == before.spec_attempt() && after.spec_attempt() == before.spec_attempt() + 1
            && after.spec_attempts() == before.spec_attempts()),
        before.spec_attempt() + 1 == before.spec_attempts() ==> settled.next matches Next::Done(
            Err(ForgeError::Worker(_)),
        ),
{
}

/// A request that the server finds at fault is not sent again: any other refusal below 500
/// ends the submission at once, with an error and without a word to the limiter.
pub proof fn law_terminal_refusals_end_at_once(
    before: Submission,
    after: Submission,
    spec: &WorkerSpec,
    check: ResponseCheck,
    item: &Item,
    reply: Reply,
    latency_ms: u64,
    completed_at: i64,
    settled: Settled,
)
    requires
        before.wf(),
        exists|m: &mut Submission|
            *m == before && *final(m) == after && #[trigger] call_ensures(
                Submission::settle,
                (m, spec, check, item, reply, latency_ms, completed_at),
                settled,
            ),
        reply matches Reply::Refused { code, .. } && code < 500 && code != 429 && code != 408,
    ensures
        settled.signal is None,
        settled.next matches Next::Done(Err(ForgeError::Worker(_))),
        reply matches Reply::Refused { status, text, .. } ==> (settled.next matches Next::Done(
            Err(ForgeError::Worker(m)),
        ) && m@.len() <= status@.len() + 218 && (text@.len() <= 200 ==> m@ == "HTTP "@ + status@
            + (" (terminal): "@ + text@))),
{
    reveal_strlit("HTTP ");
    reveal_strlit(" (terminal): ");
}

/// No answer at all counts as an overload, and is tried again while an attempt is left.
pub proof fn law_silence_is_tried_again(
    before: Submission,
    after: Submission,
    spec: &WorkerSpec,
    check: ResponseCheck,
    item: &Item,
    reply: Reply,
    latency_ms: u64,
    completed_at: i64,
    settled: Settled,
)
    requires
        before.wf(),
        exists|m: &mut Submission|
            *m == before && *final(m) == after && #[trigger] call_ensures(
                Submission::settle,
                (m, spec, check, item, reply, latency_ms, completed_at),
                settled,
            ),
        reply is Unreachable,
    ensures
        settled.signal == Some(false),
        before.spec_attempt() + 1 < before.spec_attempts() ==> (settled.next matches Next::Retry(
            a,
        ) && a == before.spec_attempt() && after.spec_attempt() == before.spec_attempt() + 1),
        before.spec_attempt() + 1 == before.spec_attempts() ==> settled.next matches Next::Done(
            Err(ForgeError::Worker(_)),
        ),
{
}

/// A success that needs no check is the result: the engine's answer as it came, with its
/// status and request id, under the id and the attempt of the item.
pub proof fn law_unchecked_success_is_the_result(
    before: Submission,
    after: Submission,
    spec: &WorkerSpec,
    item: &Item,
    reply: Reply,
    latency_ms: u64,
    completed_at: i64,
    settled: Settled,
)
    requires
        before.wf(),
        exists|m: &mut Submission|
            *m == before && *final(m) == after && #[trigger] call_ensures(
                Submission::settle,
                (m, spec, ResponseCheck::Any, item, reply, latency_ms, completed_at),
                settled,
            ),
        reply matches Reply::Success { body: Ok(_), .. },
    ensures
        settled.signal == Some(true),
        reply matches Reply::Success { code, request_id, body: Ok(body) } && (
        settled.next matches Next::Done(Ok(r)) && r.custom_id@ == item.custom_id@ && r.error is None
            && r.worker_id@ == spec.worker_id@ && r.latency_ms == latency_ms && r.attempt
            == item.attempts && r.completed_at == completed_at && (
        r.response matches Some(resp) && resp.status_code == code && resp.body@ == body@
            && opt_view(resp.request_id) == opt_view(request_id))),
{
}

/// Whatever the check, a success is passed on whole or tried again: a submission that ends
/// well has the body that came, and one that fails the check tells the limiter nothing.
pub proof fn law_checked_success_is_whole_or_tried_again(
    before: Submission,
    after: Submission,
    spec: &WorkerSpec,
    check: ResponseCheck,
    item: &Item,
    reply: Reply,
    latency_ms: u64,
    completed_at: i64,
    settled: Settled,
)
    requires
        before.wf(),
        exists|m: &mut Submission|
            *m == before && *final(m) == after && #[trigger] call_ensures(
                Submission::settle,
                (m, spec, check, item, reply, latency_ms, completed_at),
                settled,
            ),
        reply is Success,
    ensures
        reply matches Reply::Success { body: Err(_), .. } ==> settled.signal is None,
        settled.signal != Some(false),
        settled.next matches Next::Done(Ok(r)) ==> settled.signal == Some(true) && (
        reply matches Reply::Success { code, body: Ok(body), .. } && r.response matches Some(resp)
            && resp.body@ == body@ && resp.status_code == code && r.custom_id@ == item.custom_id@
            && r.error is None),
        settled.signal is None && before.spec_attempt() + 1 < before.spec_attempts() ==> (
        settled.next matches Next::Retry(a) && a == before.spec_attempt() && after.spec_attempt()
            == before.spec_attempt() + 1),
        settled.signal is None && before.spec_attempt() + 1 == before.spec_attempts() ==> (
        settled.next matches Next::Done(Err(ForgeError::Worker(_)))),
{
}

/// A 2xx is a success, with its body read as JSON; any other status is a refusal, with its
/// body as text.
pub proof fn law_replies_go_by_their_status(
    code: u16,
    status: String,
    request_id: Option<String>,
    body: Result<Vec<u8>, String>,
    r: Reply,
)
    requires
        call_ensures(reply_of, (code, status, request_id, body), r),
    ensures
        200 <= code <= 299 <==> r is Success,
        !(200 <= code <= 299) <==> r is Refused,
        r matches Reply::Success { code: c, request_id: id, body: parsed } ==> c == code && opt_view(
            id,
        ) == opt_view(request_id) && (body matches Ok(raw) ==> (text_of(raw@) matches Some(t)
            ==> parse_view(parsed) == json_parse(t))) && (body is Err ==> parsed is Err),
        r matches Reply::Refused { code: c, status: s, text } ==> c == code && s@ == status@ && (
        body matches Ok(raw) ==> (text_of(raw@) matches Some(t) ==> text@ == t)) && (body is Err
            ==> text@.len() == 0),
{
}

/// A new worker counts as ready, of unknown load, with its whole concurrency free, the rate
/// that its spec declares, and no check; its policy allows five attempts.
pub proof fn law_new_workers_are_ready(spec: WorkerSpec, w: HttpWorker)
    requires
        call_ensures(HttpWorker::new, (spec,), w),
    ensures
        w.spec_ready(),
        w.spec_load() is None,
        w.spec_spec() == spec,
        w.spec_check() == ResponseCheck::Any,
        w.spec_retry().max_attempts == 5,
        w.spec_limit().spec_in_flight() == 0,
        spec.concurrency_limit >= 1 ==> w.spec_limit().spec_effective() == spec.concurrency_limit,
        spec.rate_limit_per_second is None ==> w.spec_rate() is None,
        spec.rate_limit_per_second matches Some(n) ==> n >= 1 ==> w.spec_rate() == Some(n),
        spec.rate_limit_per_second == Some(0u32) ==> w.spec_rate() == Some(1u32),
{
}

/// A probe sets the readiness, and the load of a worker that is ready; one that is not has
/// no known load.
pub proof fn law_probes_set_readiness_and_load(
    before: HttpWorker,
    after: HttpWorker,
    ready: bool,
    depth: Option<u32>,
)
    requires
        before.wf(),
        exists|w: &mut HttpWorker|
            *w == before && *final(w) == after && #[trigger] call_ensures(
                HttpWorker::probed,
                (w, ready, depth),
                (),
            ),
    ensures
        after.spec_ready() == ready,
        !ready || depth is None ==> after.spec_load() is None,
        ready ==> (depth matches Some(n) ==> n < u32::MAX ==> after.spec_load() == Some(n)),
        after.spec_limit() == before.spec_limit(),
{
}

/// A builder sets what it names and leaves the rest.
pub proof fn law_builders_set_what_they_name(
    w: HttpWorker,
    retry: RetryPolicy,
    check: ResponseCheck,
    per_second: u32,
    a: HttpWorker,
    b: HttpWorker,
    c: HttpWorker,
)
    requires
        w.wf(),
        call_ensures(HttpWorker::with_retry, (w, retry), a),
        call_ensures(HttpWorker::with_validation, (w, check), b),
        call_ensures(HttpWorker::with_rate_limit, (w, per_second), c),
    ensures
        a.spec_retry() == retry && a.spec_check() == w.spec_check() && a.spec_rate() == w.spec_rate(),
        b.spec_check() == check && b.spec_retry() == w.spec_retry() && b.spec_rate() == w.spec_rate(),
        per_second >= 1 ==> c.spec_rate() == Some(per_second),
        per_second == 0 ==> c.spec_rate() == Some(1u32),
        c.spec_retry() == w.spec_retry() && c.spec_check() == w.spec_check() && c.spec_spec()
            == w.spec_spec(),
{
}

/// The tokens of a success are those that its body reports under `usage`.
pub proof fn law_results_count_the_reported_tokens(
    before: Submission,
    after: Submission,
    spec: &WorkerSpec,
    check: ResponseCheck,
    item: &Item,
    reply: Reply,
    latency_ms: u64,
    completed_at: i64,
    settled: Settled,
)
    requires
        before.wf(),
        exists|m: &mut Submission|
            *m == before && *final(m) == after && #[trigger] call_ensures(
                Submission::settle,
                (m, spec, check, item, reply, latency_ms, completed_at),
                settled,
            ),
        settled.next matches Next::Done(Ok(_)),
    ensures
        reply matches Reply::Success { body: Ok(body), .. } && settled.next matches Next::Done(Ok(r))
            && (body@.get("usage"@) is None ==> r.usage.prompt_tokens == 0
            && r.usage.completion_tokens == 0 && r.usage.total_tokens == 0) && (body@.get(
            "usage"@,
        ) matches Some(u) ==> (u.u64_at("prompt_tokens"@) matches Some(n) ==> r.usage.prompt_tokens
            == n) && (u.u64_at("completion_tokens"@) matches Some(n) ==> r.usage.completion_tokens
            == n) && (u.u64_at("total_tokens"@) matches Some(n) ==> r.usage.total_tokens == n)),
{
}

/// A submission may make as many attempts as its policy allows, and at least one.
pub proof fn law_submissions_start_at_their_first_attempt(retry: &RetryPolicy, s: Submission)
    requires
        call_ensures(Submission::start, (retry,), s),
    ensures
        s.spec_attempt() == 0,
        retry.max_attempts >= 1 ==> s.spec_attempts() == retry.max_attempts,
        retry.max_attempts == 0 ==> s.spec_attempts() == 1,
{
}

/// Once every attempt has failed, the error says how many were made and why the last one
/// failed.
pub proof fn law_exhausted_submissions_say_why(
    before: Submission,
    after: Submission,
    spec: &WorkerSpec,
    check: ResponseCheck,
    item: &Item,
    status: String,
    text: String,
    code: u16,
    latency_ms: u64,
    completed_at: i64,
    settled: Settled,
)
    requires
        before.wf(),
        before.spec_attempt() + 1 == before.spec_attempts(),
        500 <= code <= 599,
        exists|m: &mut Submission|
            *m == before && *final(m) == after && #[trigger] call_ensures(
                Submission::settle,
                (m, spec, check, item, Reply::Refused { code, status, text }, latency_ms, completed_at),
                settled,
            ),
    ensures
        settled.next matches Next::Done(Err(ForgeError::Worker(m))) && m@
            == "retries exhausted after "@ + decimal(before.spec_attempts()) + (" attempt(s): "@ + (
        "HTTP "@ + status@)),
{
}

/// A reply is checked as the kind of endpoint that the item went to. One that passes ends
/// the submission well; one that fails is tried again, and where no attempt is left the
/// error says that the check failed, and why.
pub proof fn law_replies_are_held_to_the_check(
    before: Submission,
    after: Submission,
    spec: &WorkerSpec,
    check: ResponseCheck,
    item: &Item,
    code: u16,
    request_id: Option<String>,
    body: Json,
    latency_ms: u64,
    completed_at: i64,
    settled: Settled,
    url: &str,
    kind: EndpointKind,
    v: Result<(), String>,
)
    requires
        before.wf(),
        exists|m: &mut Submission|
            *m == before && *final(m) == after && #[trigger] call_ensures(
                Submission::settle,
                (
                    m,
                    spec,
                    check,
                    item,
                    Reply::Success { code, request_id, body: Ok(body) },
                    latency_ms,
                    completed_at,
                ),
                settled,
            ),
        url@ == item.url@,
        call_ensures(WorkerSpec::item_kind, (spec, url), kind),
        call_ensures(ResponseCheck::validate, (check, kind, &body), v),
    ensures
        v is Ok ==> settled.signal == Some(true) && settled.next matches Next::Done(Ok(_)),
        v is Err ==> settled.signal is None && !(settled.next matches Next::Done(Ok(_))),
        v is Err && before.spec_attempt() + 1 == before.spec_attempts() ==> (
        settled.next matches Next::Done(Err(ForgeError::Worker(m))) && m@
            == "retries exhausted after "@ + decimal(before.spec_attempts()) + (" attempt(s): "@ + (
        "validation failed: "@ + v->Err_0@))),
        v is Err && before.spec_attempt() + 1 < before.spec_attempts() ==> settled.next is Retry,
{
}

/// Once every attempt has failed, the error tells a rate limit, a request timeout, an
/// answer that cannot be read and no answer apart.
pub proof fn law_exhausted_submissions_tell_their_cause(
    before: Submission,
    after: Submission,
    spec: &WorkerSpec,
    check: ResponseCheck,
    item: &Item,
    reply: Reply,
    latency_ms: u64,
    completed_at: i64,
    settled: Settled,
)
    requires
        before.wf(),
        before.spec_attempt() + 1 == before.spec_attempts(),
        exists|m: &mut Submission|
            *m == before && *final(m) == after && #[trigger] call_ensures(
                Submission::settle,
                (m, spec, check, item, reply, latency_ms, completed_at),
                settled,
            ),
    ensures
        ({
            let head = "retries exhausted after "@ + decimal(before.spec_attempts());
            &&& reply matches Reply::Refused { code, status, .. } ==> (code == 429 || code == 408 ==> (
            settled.next matches Next::Done(Err(ForgeError::Worker(m))) && m@ == head + (
            " attempt(s): "@ + ("HTTP "@ + status@))))
            &&& reply matches Reply::Unreachable { message } ==> (settled.next matches Next::Done(
                Err(ForgeError::Worker(m)),
            ) && m@ == head + (" attempt(s): "@ + ("request error: "@ + message@)))
            &&& reply matches Reply::Success { body: Err(why), .. } ==> (
            settled.next matches Next::Done(Err(ForgeError::Worker(m))) && m@ == head + (
            " attempt(s): "@ + ("decoding response: "@ + why@)))
        }),
{
}

/// A worker lends its limiter's slots: one is taken just while fewer are in flight than
/// the limit, and one that is given back is free again.
pub proof fn law_workers_lend_their_slots(
    before: HttpWorker,
    held: HttpWorker,
    after: HttpWorker,
    taken: bool,
)
    requires
        before.wf(),
        exists|w: &mut HttpWorker|
            *w == before && *final(w) == held && #[trigger] call_ensures(
                HttpWorker::try_acquire,
                (w,),
                taken,
            ),
        taken ==> exists|w: &mut HttpWorker|
            *w == held && *final(w) == after && #[trigger] call_ensures(
                HttpWorker::release,
                (w,),
                (),
            ),
    ensures
        taken <==> before.spec_limit().spec_in_flight() < before.spec_limit().spec_effective(),
        held.spec_limit().spec_in_flight() == before.spec_limit().spec_in_flight() + if taken {
            1int
        } else {
            0int
        },
        held.spec_limit().spec_effective() == before.spec_limit().spec_effective(),
        taken ==> after.spec_limit().spec_in_flight() == before.spec_limit().spec_in_flight(),
        held.spec_ready() == before.spec_ready(),
{
}

/// A worker's limit is halved by an overload, down to one, and never lowered by a success.
pub proof fn law_workers_learn_from_signals(
    before: HttpWorker,
    over: HttpWorker,
    well: HttpWorker,
)
    requires
        before.wf(),
        exists|w: &mut HttpWorker|
            *w == before && *final(w) == over && #[trigger] call_ensures(
                HttpWorker::record,
                (w, false),
                (),
            ),
        exists|w: &mut HttpWorker|
            *w == before && *final(w) == well && #[trigger] call_ensures(
                HttpWorker::record,
                (w, true),
                (),
            ),
    ensures
        before.spec_limit().spec_effective() >= 2 ==> over.spec_limit().spec_effective()
            == before.spec_limit().spec_effective() / 2,
        before.spec_limit().spec_effective() == 1 ==> over.spec_limit().spec_effective() == 1,
        well.spec_limit().spec_effective() >= before.spec_limit().spec_effective(),
        over.spec_limit().spec_in_flight() == before.spec_limit().spec_in_flight(),
        well.spec_limit().spec_in_flight() == before.spec_limit().spec_in_flight(),
        over.spec_ready() == before.spec_ready() && well.spec_ready() == before.spec_ready(),
{
}

/// A worker that was asked to cool down naps until then, but for no more than two minutes
/// at a time, and never for less long than it was asked to before.
pub proof fn law_workers_cool_down_as_asked(
    before: HttpWorker,
    after: HttpWorker,
    now: i64,
    d: Duration,
    nap: Option<u64>,
    ms: int,
)
    requires
        before.wf(),
        d@ <= 120_000_000_000,
        ms == d@ / 1_000_000,
        0 <= now && now + ms <= i64::MAX,
        exists|w: &mut HttpWorker|
            *w == before && *final(w) == after && #[trigger] call_ensures(
                HttpWorker::arm_cooldown,
                (w, now, Some(d)),
                (),
            ),
        call_ensures(HttpWorker::cooldown_nap, (&after, now), nap),
    ensures
        before.spec_cooldown().until_ms <= now && ms > 0 ==> (nap matches Some(n) && n == ms),
        before.spec_cooldown().until_ms <= now && ms == 0 ==> nap is None,
        after.spec_cooldown().until_ms >= before.spec_cooldown().until_ms,
        after.spec_cooldown().until_ms >= now + ms,
        nap matches Some(n) ==> n <= 120_000,
{
}

/// What a worker was told of its readiness is what it says.
pub proof fn law_readiness_is_what_was_told(
    before: HttpWorker,
    after: HttpWorker,
    ready: bool,
    says: bool,
)
    requires
        before.wf(),
        exists|w: &mut HttpWorker|
            *w == before && *final(w) == after && #[trigger] call_ensures(
                HttpWorker::set_ready,
                (w, ready),
                (),
            ),
        call_ensures(HttpWorker::is_ready, (&after,), says),
    ensures
        says == ready,
        after.spec_load() == before.spec_load(),
{
}


} // verus!

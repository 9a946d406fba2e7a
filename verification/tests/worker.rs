use forge::aimd::{AimdLimit, AIMD_INCREASE_AFTER};
use forge::cooldown::{cooldown_from_headers, parse_reset_duration, Cooldown, MAX_COOLDOWN_SECS};
use forge::duration::Duration;
use forge::json::{parse_json, Json};
use forge::load::{parse_llamacpp_busy_slots, parse_load, parse_sglang_waiting, parse_vllm_waiting};
use forge::retry::RetryPolicy;
use forge::types::{EndpointKind, EngineHint, Item, WorkerSpec};
use forge::validate::ResponseCheck;
use forge::worker::{reply_of, HttpWorker, Next, Reply, Submission};
use governor::clock::FakeRelativeClock;
use governor::{Quota, RateLimiter};

fn json(text: &str) -> Json {
    parse_json(text).unwrap()
}

fn spec() -> WorkerSpec {
    WorkerSpec::new("w0", "http://w0", EndpointKind::Chat).concurrency(4)
}

fn retry() -> RetryPolicy {
    RetryPolicy {
        max_attempts: 3,
        base: Duration::from_millis(1),
        cap: Duration::from_millis(4),
    }
}

fn item() -> Item {
    let mut i = forge::item::parse_line(
        r#"{"custom_id":"req-1","url":"/v1/chat/completions","body":{"model":"m","messages":[]}}"#,
    )
    .unwrap();
    i.attempts = 1;
    i
}

fn refused(code: u16, status: &str, text: &str) -> Reply {
    Reply::Refused { code, status: status.into(), text: text.into() }
}

fn success(body: &str) -> Reply {
    Reply::Success { code: 200, request_id: None, body: Ok(json(body)) }
}

/// Submits an item against a list of replies. Returns the outcome and the calls made.
fn submit(
    replies: Vec<Reply>,
    check: ResponseCheck,
    item: &Item,
) -> (Result<forge::types::ItemResult, forge::error::ForgeError>, usize) {
    let mut s = Submission::start(&retry());
    let mut calls = 0;
    for reply in replies {
        calls += 1;
        match s.settle(&spec(), check, item, reply, 5, 0).next {
            Next::Done(r) => return (r, calls),
            Next::Retry(_) => {}
        }
    }
    panic!("out of replies after {calls} call(s)")
}

#[test]
fn builds_from_spec() {
    let spec = WorkerSpec::new("gpu1", "http://gpu1:8000", EndpointKind::Chat).concurrency(64);
    let mut w = HttpWorker::new(spec);
    assert_eq!(w.spec().worker_id, "gpu1");
    assert_eq!(w.spec().concurrency_limit, 64);
    assert!(w.is_ready());
    w.set_ready(false);
    assert!(!w.is_ready());
}

#[test]
fn submit_success_parses_usage() {
    let body = r#"{"choices": [{"message": {"content": "hi"}}],
        "usage": {"prompt_tokens": 12, "completion_tokens": 3, "total_tokens": 15}}"#;
    let (r, calls) = submit(vec![success(body)], ResponseCheck::Any, &item());
    let r = r.unwrap();
    assert_eq!(calls, 1);
    assert!(r.is_success());
    assert_eq!(r.usage.total_tokens, 15);
    assert_eq!(r.response.unwrap().status_code, 200);
}

#[test]
fn submit_retries_then_exhausts_on_persistent_5xx() {
    let replies = (0..9).map(|_| refused(503, "503 Service Unavailable", "")).collect();
    let (r, calls) = submit(replies, ResponseCheck::Any, &item());
    assert_eq!(calls, 3);
    let err = r.unwrap_err().to_string();
    assert!(err.contains("exhausted"), "got: {err}");
}

#[test]
fn submit_retries_then_succeeds_on_transient_outage() {
    let body = r#"{"choices": [{"message": {"content": "ok"}}],
        "usage": {"prompt_tokens": 1, "completion_tokens": 1, "total_tokens": 2}}"#;
    let (r, calls) = submit(
        vec![
            refused(503, "503 Service Unavailable", ""),
            refused(503, "503 Service Unavailable", ""),
            success(body),
        ],
        ResponseCheck::Any,
        &item(),
    );
    assert_eq!(calls, 3);
    let r = r.unwrap();
    assert!(r.is_success(), "should recover on the 3rd attempt");
    assert_eq!(r.usage.total_tokens, 2);
}

#[test]
fn submit_terminal_4xx_does_not_retry() {
    let (r, calls) = submit(
        vec![refused(400, "400 Bad Request", "bad request")],
        ResponseCheck::Any,
        &item(),
    );
    assert_eq!(calls, 1);
    let err = r.unwrap_err().to_string();
    assert!(err.contains("400"), "got: {err}");
}

#[test]
fn an_unreachable_worker_is_tried_again() {
    let gone = || Reply::Unreachable { message: "connection refused".into() };
    let (r, calls) = submit(vec![gone(), gone(), gone()], ResponseCheck::Any, &item());
    assert_eq!(calls, 3);
    assert!(r.unwrap_err().to_string().contains("request error: connection refused"));
}

#[test]
fn a_body_that_does_not_decode_is_tried_again() {
    let torn = || Reply::Success { code: 200, request_id: None, body: Err("EOF".into()) };
    let (r, calls) = submit(vec![torn(), torn(), torn()], ResponseCheck::Any, &item());
    assert_eq!(calls, 3);
    let err = r.unwrap_err().to_string();
    assert!(err.contains("exhausted"), "got: {err}");
    assert!(err.contains("decoding response: EOF"), "got: {err}");
    let (r, calls) = submit(vec![torn(), success("{}")], ResponseCheck::Any, &item());
    assert_eq!(calls, 2);
    assert!(r.unwrap().is_success());
    let s = Submission::start(&retry()).settle(&spec(), ResponseCheck::Any, &item(), torn(), 5, 0);
    assert_eq!(s.signal, None, "the worker did answer");
}

#[test]
fn validation_failure_retries_then_dead_letters() {
    let body = r#"{"choices": [{"message": {"content": "sure, here is your answer!"}}],
        "usage": {"prompt_tokens": 5, "completion_tokens": 2, "total_tokens": 7}}"#;
    let (r, calls) = submit(
        vec![success(body), success(body), success(body)],
        ResponseCheck::Json,
        &item(),
    );
    assert_eq!(calls, 3);
    let msg = r.unwrap_err().to_string();
    assert!(msg.contains("validation failed"), "got: {msg}");
    assert!(msg.contains("not valid JSON"), "got: {msg}");
}

#[test]
fn validation_uses_item_endpoint_not_worker_default() {
    let body = r#"{"data": [{"embedding": [0.1, -0.2, 0.3]}],
        "usage": {"prompt_tokens": 4, "completion_tokens": 0, "total_tokens": 4}}"#;
    let mut emb = item();
    emb.url = "/v1/embeddings".into();
    let (r, _) = submit(vec![success(body)], ResponseCheck::Json, &emb);
    assert!(r.unwrap().is_success());
}

#[test]
fn validation_success_emits_result() {
    let body = r#"{"choices": [{"message": {"content": "{\"answer\": 42}"}}],
        "usage": {"prompt_tokens": 5, "completion_tokens": 2, "total_tokens": 7}}"#;
    let (r, calls) = submit(vec![success(body)], ResponseCheck::Json, &item());
    assert_eq!(calls, 1);
    let r = r.unwrap();
    assert!(r.is_success());
    assert_eq!(r.usage.total_tokens, 7);
}

#[test]
fn parse_reset_duration_forms() {
    assert_eq!(parse_reset_duration("1s"), Some(Duration::from_secs(1)));
    assert_eq!(parse_reset_duration("6m0s"), Some(Duration::from_secs(360)));
    assert_eq!(parse_reset_duration("500ms"), Some(Duration::from_millis(500)));
    assert_eq!(parse_reset_duration("2"), Some(Duration::from_secs(2)));
    assert_eq!(parse_reset_duration(""), None);
    assert_eq!(parse_reset_duration("soon"), None);
}

#[test]
fn a_reset_may_be_now_or_out_of_range() {
    assert_eq!(parse_reset_duration("0s"), Some(Duration::from_secs(0)));
    assert_eq!(parse_reset_duration("0m0s"), Some(Duration::from_secs(0)));
    assert_eq!(parse_reset_duration("0ms"), Some(Duration::from_secs(0)));
    let exhausted = |reset: &str| {
        cooldown_from_headers(&headers(&[
            ("x-ratelimit-remaining-requests", "0"),
            ("x-ratelimit-reset-requests", reset),
        ]))
    };
    assert_eq!(exhausted("1e30"), Some(Duration::from_secs(MAX_COOLDOWN_SECS)));
    assert_eq!(exhausted("99999999999999999999h"), Some(Duration::from_secs(MAX_COOLDOWN_SECS)));
    assert_eq!(exhausted("0s"), Some(Duration::from_secs(0)));
}

#[test]
fn a_reset_is_read_in_double_precision() {
    assert_eq!(parse_reset_duration("1e400"), None);
    assert!(parse_reset_duration("1e308").is_some());
    assert_eq!(parse_reset_duration("1.0000000005"), Some(Duration::from_total_nanos(1_000_000_001)));
    assert_eq!(parse_reset_duration("0.0000000015"), Some(Duration::from_total_nanos(1)));
    assert_eq!(parse_reset_duration("2.5"), Some(Duration::from_millis(2_500)));
    assert_eq!(parse_reset_duration("1e-400"), Some(Duration::from_secs(0)));
    assert_eq!(parse_reset_duration("1m0.5s"), Some(Duration::from_millis(60_500)));
}

#[test]
fn a_reset_rounds_as_the_machine_does() {
    let mut texts: Vec<String> = [
        "9007199254740993", "9007199254740992.999", "1e15", "1e19", "4503599627370497.5",
        "0.1", "0.3", "1e-9", "5e-10", "4.9e-324", "2.4703282292062327e-324", "1e-320",
        "123456789.123456789", "17999999999999999999", "3.0000000015", ".5", "7.", "1E3",
    ]
    .iter()
    .map(|t| t.to_string())
    .collect();
    let mut x: u64 = 88_172_645_463_325_252;
    for i in 0..400 {
        x ^= x << 13;
        x ^= x >> 7;
        x ^= x << 17;
        texts.push(format!("{}.{}e{}", x % 1_000_003, x, (i % 31) - 18));
    }
    for t in texts {
        let exact = std::time::Duration::from_secs_f64(t.parse::<f64>().unwrap());
        let read = parse_reset_duration(&t).unwrap();
        assert_eq!(read.as_nanos(), exact.as_nanos(), "{t}");
    }
    for t in ["1h", "90m", "2m59.56s", "0.1s0.2s", "1.5h33.3ms", "7ms7ms", "0.7m1.1s"] {
        let mut total = 0f64;
        let mut rest = t;
        while !rest.is_empty() {
            let n = rest.find(|c: char| c.is_ascii_alphabetic()).unwrap();
            let unit = &rest[n..];
            let k = unit.find(|c: char| !c.is_ascii_alphabetic()).unwrap_or(unit.len());
            let v: f64 = rest[..n].parse().unwrap();
            total += match &unit[..k] {
                "h" => v * 3600.0,
                "m" => v * 60.0,
                "ms" => v / 1000.0,
                _ => v,
            };
            rest = &unit[k..];
        }
        let exact = std::time::Duration::from_secs_f64(total);
        assert_eq!(parse_reset_duration(t).unwrap().as_nanos(), exact.as_nanos(), "{t}");
    }
}

#[test]
fn a_budget_too_small_for_a_double_is_spent() {
    let left = |remaining: &str| {
        cooldown_from_headers(&headers(&[
            ("x-ratelimit-remaining-requests", remaining),
            ("x-ratelimit-reset-requests", "10s"),
        ]))
    };
    assert_eq!(left("1e-400"), Some(Duration::from_secs(10)));
    assert_eq!(left("1e-300"), None);
    assert_eq!(left("0.0"), Some(Duration::from_secs(10)));
}

#[test]
fn a_gauge_is_rounded_as_a_double() {
    let gauge = |v: &str| parse_vllm_waiting(&format!("vllm:num_requests_waiting {v}\n"));
    assert_eq!(gauge("0.49999999999999999999"), Some(1));
    assert_eq!(gauge("0.4999999999999999"), Some(0));
    assert_eq!(gauge("2.5"), Some(3));
    assert_eq!(gauge("1e300"), Some(u32::MAX));
    assert_eq!(gauge("1e400"), None);
}

#[test]
fn a_reply_is_a_success_or_a_refusal() {
    let bytes = |t: &str| Ok(t.as_bytes().to_vec());
    match reply_of(201, "201 Created".into(), Some("r".into()), bytes("{\"a\":1}")) {
        Reply::Success { code, request_id, body } => {
            assert_eq!((code, request_id.as_deref()), (201, Some("r")));
            assert_eq!(body, parse_json("{\"a\":1}"));
        }
        _ => panic!("a success"),
    }
    match reply_of(200, "200 OK".into(), None, Ok(vec![0xff])) {
        Reply::Success { body, .. } => assert!(body.is_err()),
        _ => panic!("a success that cannot be read"),
    }
    match reply_of(200, "200 OK".into(), None, Err("reset".into())) {
        Reply::Success { body, .. } => assert_eq!(body, Err("reset".to_string())),
        _ => panic!("a success that cannot be read"),
    }
    match reply_of(404, "404 Not Found".into(), None, bytes("no such model")) {
        Reply::Refused { code, status, text } => {
            assert_eq!((code, status.as_str(), text.as_str()), (404, "404 Not Found", "no such model"));
        }
        _ => panic!("a refusal"),
    }
    match reply_of(300, "300 Multiple Choices".into(), None, Err("reset".into())) {
        Reply::Refused { text, .. } => assert_eq!(text, ""),
        _ => panic!("a refusal"),
    }
}

fn headers(pairs: &[(&str, &str)]) -> Vec<(String, String)> {
    pairs.iter().map(|(k, v)| (k.to_string(), v.to_string())).collect()
}

#[test]
fn cooldown_prefers_retry_after_and_honors_exhausted_budget() {
    assert_eq!(
        cooldown_from_headers(&headers(&[("retry-after", "3")])),
        Some(Duration::from_secs(3))
    );
    assert_eq!(
        cooldown_from_headers(&headers(&[
            ("x-ratelimit-remaining-requests", "42"),
            ("x-ratelimit-reset-requests", "10s"),
        ])),
        None,
        "reset with budget left must not cool down"
    );
    assert_eq!(
        cooldown_from_headers(&headers(&[
            ("x-ratelimit-remaining-tokens", "0"),
            ("x-ratelimit-reset-tokens", "5s"),
        ])),
        Some(Duration::from_secs(5))
    );
    assert_eq!(
        cooldown_from_headers(&headers(&[("retry-after", "999999")])),
        Some(Duration::from_secs(MAX_COOLDOWN_SECS))
    );
    assert_eq!(cooldown_from_headers(&headers(&[])), None);
}

#[test]
fn a_429_with_retry_after_arms_the_shared_cooldown() {
    let mut c = Cooldown::none();
    assert_eq!(c.nap(1_000), None);
    c.arm(1_000, cooldown_from_headers(&headers(&[("retry-after", "1")])));
    assert_eq!(c.nap(1_000), Some(1_000));
    assert_eq!(c.nap(1_900), Some(100));
    assert_eq!(c.nap(2_000), None);
    let body = r#"{"choices": [{"message": {"content": "ok"}}],
        "usage": {"prompt_tokens": 1, "completion_tokens": 1, "total_tokens": 2}}"#;
    let (r, calls) = submit(
        vec![refused(429, "429 Too Many Requests", "slow down"), success(body)],
        ResponseCheck::Any,
        &item(),
    );
    assert_eq!(calls, 2);
    r.unwrap();
}

#[test]
fn aimd_halves_on_failure_then_recovers_on_success() {
    let mut l = AimdLimit::new(8);
    assert_eq!(l.effective(), 8);

    l.record(false);
    assert_eq!(l.effective(), 4);
    assert_eq!(l.debt(), 0);
    assert_eq!(l.available(), 4);

    l.record(false);
    assert_eq!(l.effective(), 2);
    assert_eq!(l.available(), 2);

    for _ in 0..AIMD_INCREASE_AFTER {
        l.record(true);
    }
    assert_eq!(l.effective(), 3);
    assert_eq!(l.available(), 3);

    for _ in 0..(AIMD_INCREASE_AFTER * 100) {
        l.record(true);
    }
    assert_eq!(l.effective(), 8);
    assert_eq!(l.available(), 8);
}

#[test]
fn aimd_debt_is_paid_as_in_flight_permits_return() {
    let mut l = AimdLimit::new(4);
    for _ in 0..4 {
        assert!(l.try_acquire());
    }
    assert!(!l.try_acquire());
    assert_eq!(l.available(), 0);

    l.record(false);
    assert_eq!(l.effective(), 2);
    assert_eq!(l.debt(), 2);
    assert_eq!(l.available(), 0);

    l.release();
    l.release();
    assert_eq!(l.debt(), 0);
    assert_eq!(l.available(), 0);

    l.release();
    l.release();
    assert_eq!(l.available(), 2);
    assert_eq!(l.effective(), 2);
}

#[test]
fn parse_vllm_waiting_picks_the_right_gauge() {
    let body = "\
# HELP vllm:num_requests_waiting Number of requests waiting.
# TYPE vllm:num_requests_waiting gauge
vllm:num_requests_running{model_name=\"x\"} 2.0
vllm:num_requests_waiting{model_name=\"x\"} 7.0
";
    assert_eq!(parse_vllm_waiting(body), Some(7));
    assert_eq!(parse_vllm_waiting("vllm:num_requests_waiting 3"), Some(3));
    assert_eq!(parse_vllm_waiting("vllm:num_requests_waiting 7 1718000000000"), Some(7));
    assert_eq!(parse_vllm_waiting("vllm:num_requests_running 1.0"), None);
    assert_eq!(parse_vllm_waiting("vllm:num_requests_waiting NaNish"), None);
}

#[test]
fn labels_may_hold_blanks_and_brackets() {
    let of = |labels: &str| parse_vllm_waiting(&format!("vllm:num_requests_waiting{labels} 9"));
    assert_eq!(of(r#"{model_name="my model"}"#), Some(9));
    assert_eq!(of(r#"{model_name="a } b",k="\" } 4"}"#), Some(9));
    assert_eq!(of("{}"), Some(9));
}

#[test]
fn parse_llamacpp_counts_busy_slots() {
    let slots = json(
        r#"[{"id": 0, "is_processing": true},
            {"id": 1, "is_processing": false},
            {"id": 2, "is_processing": true}]"#,
    );
    assert_eq!(parse_llamacpp_busy_slots(&slots), Some(2));
    assert_eq!(parse_llamacpp_busy_slots(&json("[]")), Some(0));
    assert_eq!(parse_llamacpp_busy_slots(&json(r#"[{"state": 1}, {"state": 0}]"#)), Some(1));
    assert_eq!(parse_llamacpp_busy_slots(&json(r#"{"slots": 1}"#)), None);
}

#[test]
fn parse_sglang_sums_waiting_reqs() {
    let info =
        json(r#"{"internal_states": [{"num_waiting_reqs": 5}, {"num_waiting_reqs": 3}]}"#);
    assert_eq!(parse_sglang_waiting(&info), Some(8));
    assert_eq!(parse_sglang_waiting(&json(r#"{"waiting_queue_len": 4}"#)), Some(4));
    assert_eq!(parse_sglang_waiting(&json(r#"{"version": "0.4"}"#)), None);
}

fn worker_hint(hint: EngineHint) -> HttpWorker {
    HttpWorker::new(WorkerSpec::new("w0", "http://w0", EndpointKind::Chat).engine_hint(hint))
}

#[test]
fn probe_reflects_health() {
    let mut w = worker_hint(EngineHint::Router);
    w.set_ready(false);
    w.probed(true, None);
    assert!(w.is_ready());
}

#[test]
fn probe_marks_unreachable_unready() {
    let mut w = worker_hint(EngineHint::Router);
    w.probed(false, None);
    assert!(!w.is_ready());
}

#[test]
fn probe_updates_load_for_vllm() {
    let mut w = worker_hint(EngineHint::Vllm);
    w.probed(
        true,
        parse_load(EngineHint::Vllm, "vllm:num_requests_waiting{model_name=\"m\"} 4.0\n"),
    );
    assert_eq!(w.load(), Some(4));
}

#[test]
fn probe_updates_load_for_llamacpp() {
    let mut w = worker_hint(EngineHint::LlamaCpp);
    let body = r#"[{"id": 0, "is_processing": true},
        {"id": 1, "is_processing": true},
        {"id": 2, "is_processing": false}]"#;
    w.probed(true, parse_load(EngineHint::LlamaCpp, body));
    assert_eq!(w.load(), Some(2));
}

#[test]
fn load_unknown_when_metrics_missing_but_health_ok() {
    let mut w = worker_hint(EngineHint::Vllm);
    w.probed(true, None);
    assert!(w.is_ready());
    assert_eq!(w.load(), None);
}

#[test]
fn router_hint_never_fetches_load() {
    let w = worker_hint(EngineHint::Router);
    assert_eq!(w.spec().metrics_url(), None);
    assert_eq!(parse_load(EngineHint::Router, "vllm:num_requests_waiting 3"), None);
}

#[test]
fn unready_clears_stale_load() {
    let mut w = worker_hint(EngineHint::Vllm);
    w.probed(true, Some(5));
    assert_eq!(w.load(), Some(5));
    w.probed(false, None);
    assert_eq!(w.load(), None);
}

#[test]
fn gcra_bounds_rate_deterministically() {
    let clock = FakeRelativeClock::default();
    let q = Quota::per_second(std::num::NonZeroU32::new(2).unwrap());
    let rl = RateLimiter::direct_with_clock(q, clock.clone());

    assert!(rl.check().is_ok(), "cell 1 (burst)");
    assert!(rl.check().is_ok(), "cell 2 (burst)");
    assert!(rl.check().is_err(), "burst exhausted → throttled");

    clock.advance(std::time::Duration::from_millis(500));
    assert!(rl.check().is_ok(), "one cell back after 500ms");
    assert!(rl.check().is_err(), "and throttled again");
}

#[test]
fn rate_limit_is_orthogonal_to_aimd() {
    let mut w = HttpWorker::new(spec()).with_rate_limit(1000);
    assert_eq!(w.rate(), Some(1000));
    assert_eq!(w.spec().rate_limit_per_second, None, "the declared capability stays");
    assert_eq!(HttpWorker::new(spec()).with_rate_limit(0).rate(), Some(1));
    assert_eq!(HttpWorker::new(spec()).rate(), None);
    for _ in 0..3 {
        assert!(w.try_acquire());
        w.record(true);
        w.release();
    }
    assert!((0..4).all(|_| w.try_acquire()), "AIMD untouched by the rate gate");
    assert!(!w.try_acquire());
}

#[test]
fn worker_with_rate_limit_still_submits() {
    let body = r#"{"choices": [{"message": {"content": "ok"}}],
        "usage": {"prompt_tokens": 1, "completion_tokens": 1, "total_tokens": 2}}"#;
    let mut w = HttpWorker::new(spec()).with_retry(retry()).with_rate_limit(1000);
    assert!(w.try_acquire());
    let mut s = Submission::start(&w.retry());
    let settled = s.settle(w.spec(), w.check(), &item(), success(body), 1, 0);
    assert_eq!(settled.signal, Some(true));
    match settled.next {
        Next::Done(r) => assert!(r.unwrap().is_success()),
        Next::Retry(_) => panic!("a success is not tried again"),
    }
    w.release();
}

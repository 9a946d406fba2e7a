use forge::cost::UsageTotals;
use forge::dispatch::dispatch_assignment;
use forge::duration::Duration;
use forge::error::ForgeError;
use forge::failure::{classify_failure, FailureKind};
use forge::json::{parse_json, render_json, Json, Number, DEPTH_LIMIT};
use forge::retry::RetryPolicy;
use forge::run::adaptive_lease;
use forge::state::ItemState;
use forge::types::{EndpointKind, EngineHint, ItemResult, JobTotals, TokenUsage, WorkerSpec};
use forge::validate::ResponseCheck;

fn usage(p: u64, c: u64) -> TokenUsage {
    TokenUsage {
        prompt_tokens: p,
        completion_tokens: c,
        total_tokens: p + c,
        ..Default::default()
    }
}

fn json(text: &str) -> Json {
    parse_json(text).unwrap()
}

#[test]
fn totals_fold() {
    let mut t = UsageTotals::default();
    t.add(&usage(700, 150));
    t.add(&usage(300, 50));
    assert_eq!(t.items, 2);
    assert_eq!((t.prompt_tokens, t.completion_tokens), (1000, 200));
    assert_eq!(t.total_tokens(), 1200);
}

#[test]
fn usage_that_does_not_fit_is_seen_before_it_is_added() {
    let full = UsageTotals { prompt_tokens: u64::MAX, ..Default::default() };
    assert!(!full.fits(&usage(1, 0)));
    assert!(full.fits(&usage(0, 1)));
}

#[test]
fn usage_captures_nested_cached_and_reasoning() {
    let v = json(
        r#"{"prompt_tokens": 100, "completion_tokens": 50, "total_tokens": 150,
            "prompt_tokens_details": {"cached_tokens": 80},
            "completion_tokens_details": {"reasoning_tokens": 30}}"#,
    );
    let u = TokenUsage::from_openai_usage(&v);
    assert_eq!((u.cached_tokens, u.reasoning_tokens), (80, 30));
    assert_eq!((u.prompt_tokens, u.completion_tokens), (100, 50));
    let bare = TokenUsage::from_openai_usage(&json(r#"{"prompt_tokens": 5}"#));
    assert_eq!((bare.cached_tokens, bare.reasoning_tokens), (0, 0));
}

#[test]
fn native_token_counts_map_into_the_same_shape() {
    let u = TokenUsage::from_openai_usage(&json(
        r#"{"tokens_evaluated": 9, "tokens_predicted": 4}"#,
    ));
    assert_eq!((u.prompt_tokens, u.completion_tokens), (9, 4));
    let m = TokenUsage::from_openai_usage(&json(r#"{"input_tokens": 7, "output_tokens": 2}"#));
    assert_eq!((m.prompt_tokens, m.completion_tokens), (7, 2));
}

#[test]
fn classifies_worker_error_strings() {
    let cases = [
        (
            "worker: retries exhausted after 3 attempt(s): validation failed: output is not valid JSON: ...",
            FailureKind::Validation,
        ),
        (
            "worker: retries exhausted after 5 attempt(s): HTTP 429 Too Many Requests",
            FailureKind::RateLimited,
        ),
        (
            "worker: retries exhausted after 5 attempt(s): HTTP 500 Internal Server Error",
            FailureKind::ServerError,
        ),
        ("worker: HTTP 400 (terminal): bad request", FailureKind::ClientError),
        ("worker: HTTP 404 (terminal): not found", FailureKind::ClientError),
        (
            "worker: retries exhausted after 5 attempt(s): request error: connection refused",
            FailureKind::Connection,
        ),
        (
            "worker: retries exhausted after 5 attempt(s): request error: operation timed out",
            FailureKind::Timeout,
        ),
        ("something unexpected", FailureKind::Other),
    ];
    for (s, want) in cases {
        assert_eq!(classify_failure(s), want, "for {s:?}");
    }
}

#[test]
fn validation_wins_over_http_code() {
    assert_eq!(
        classify_failure("validation failed: output is not valid JSON (HTTP 200)"),
        FailureKind::Validation
    );
}

#[test]
fn http_status_matched_in_context_not_as_bare_substring() {
    assert_eq!(
        classify_failure("worker: retries exhausted after 5 attempt(s): HTTP 504 Gateway Timeout"),
        FailureKind::ServerError
    );
    assert_eq!(
        classify_failure("worker: retries exhausted after 5 attempt(s): HTTP 408 Request Timeout"),
        FailureKind::Timeout
    );
    assert_eq!(
        classify_failure(
            "worker: retries exhausted after 429 attempt(s): HTTP 500 Internal Server Error"
        ),
        FailureKind::ServerError
    );
}

#[test]
fn every_failure_kind_has_its_name() {
    assert_eq!(FailureKind::Validation.as_str(), "validation");
    assert_eq!(FailureKind::RateLimited.as_str(), "rate_limited");
    assert_eq!(FailureKind::ServerError.as_str(), "server_error");
    assert_eq!(FailureKind::ClientError.as_str(), "client_error");
    assert_eq!(FailureKind::Timeout.as_str(), "timeout");
    assert_eq!(FailureKind::Connection.as_str(), "connection");
    assert_eq!(FailureKind::Other.as_str(), "other");
}

#[test]
fn backoff_never_exceeds_cap() {
    let p = RetryPolicy {
        max_attempts: 8,
        base: Duration::from_millis(100),
        cap: Duration::from_secs(2),
    };
    for attempt in 0..40 {
        assert!(p.backoff(attempt) <= p.cap, "attempt {attempt} exceeded cap");
    }
}

#[test]
fn backoff_draws_below_a_ceiling_that_doubles_up_to_the_cap() {
    let p = RetryPolicy {
        max_attempts: 8,
        base: Duration::from_millis(100),
        cap: Duration::from_secs(2),
    };
    assert_eq!(p.backoff_ceiling(0), Duration::from_millis(100));
    assert_eq!(p.backoff_ceiling(1), Duration::from_millis(200));
    assert_eq!(p.backoff_ceiling(4), Duration::from_millis(1600));
    assert_eq!(p.backoff_ceiling(5), Duration::from_secs(2));
    assert_eq!(p.backoff_ceiling(4_000_000_000), Duration::from_secs(2));
    let below = (0..200).filter(|_| p.backoff(4) < Duration::from_millis(1600)).count();
    assert!(below > 100, "the draw spreads below its ceiling, got {below}");
}

#[test]
fn exhaustion_boundary() {
    let p = RetryPolicy { max_attempts: 3, ..Default::default() };
    assert!(!p.is_exhausted(2));
    assert!(p.is_exhausted(3));
    assert!(p.is_exhausted(4));
}

#[test]
fn adaptive_lease_grows_with_latency_and_caps() {
    let base = Duration::from_secs(300);
    let max = Duration::from_secs(1800);
    assert_eq!(adaptive_lease(base, max, 0), base);
    assert_eq!(adaptive_lease(base, max, 100), base);
    assert_eq!(adaptive_lease(base, max, 250_000), Duration::from_secs(500));
    assert_eq!(adaptive_lease(base, max, 1_000_000), max);
}

#[test]
fn adaptive_lease_tolerates_max_below_base() {
    let base = Duration::from_secs(300);
    let max = Duration::from_secs(100);
    assert_eq!(adaptive_lease(base, max, 0), base);
    assert_eq!(adaptive_lease(base, max, 10_000_000), base);
}

#[test]
fn all_unknown_load_falls_back_to_round_robin() {
    let loads = [None, None, None];
    let caps = [4, 4, 4];
    for base in 0..6 {
        let got = dispatch_assignment(&loads, &caps, base, 5, true);
        let want: Vec<usize> = (0..5).map(|i| (base + i) % 3).collect();
        assert_eq!(got, want, "base={base}");
    }
}

#[test]
fn load_aware_off_is_round_robin_even_with_known_loads() {
    let loads = [Some(0), Some(99)];
    let caps = [8, 8];
    let got = dispatch_assignment(&loads, &caps, 0, 4, false);
    assert_eq!(got, vec![0, 1, 0, 1]);
}

#[test]
fn load_biased_fills_least_loaded_first() {
    let loads = [Some(10), Some(0), None];
    let caps = [4, 4, 4];
    let got = dispatch_assignment(&loads, &caps, 0, 4, true);
    assert_eq!(got, vec![1, 1, 1, 1]);
}

#[test]
fn load_biased_respects_capacity_then_spills_to_next() {
    let loads = [Some(5), Some(0)];
    let caps = [3, 2];
    let got = dispatch_assignment(&loads, &caps, 0, 4, true);
    assert_eq!(got, vec![1, 1, 0, 0]);
}

#[test]
fn unknown_load_sorts_after_known_idle() {
    let loads = [None, Some(0)];
    let caps = [4, 4];
    let got = dispatch_assignment(&loads, &caps, 0, 3, true);
    assert_eq!(got, vec![1, 1, 1]);
}

#[test]
fn equal_loads_rotate_with_base_for_fairness() {
    let loads = [Some(2), Some(2)];
    let caps = [1, 1];
    assert_eq!(dispatch_assignment(&loads, &caps, 0, 1, true), vec![0]);
    assert_eq!(dispatch_assignment(&loads, &caps, 1, 1, true), vec![1]);
}

#[test]
fn dispatch_scales_to_a_150_worker_fleet() {
    const N: usize = 150;
    let loads: Vec<Option<u32>> = (0..N).map(|i| Some(i as u32)).collect();

    let caps1 = vec![1usize; N];
    let got = dispatch_assignment(&loads, &caps1, 0, 100, true);
    assert_eq!(got, (0..100).collect::<Vec<_>>(), "fills the 100 idlest, cap 1");

    let rr = dispatch_assignment(&loads, &caps1, 7, 300, false);
    let want_rr: Vec<usize> = (0..300).map(|i| (7 + i) % N).collect();
    assert_eq!(rr, want_rr, "round-robin fallback exact at 150 workers");

    let caps4 = vec![4usize; N];
    let assign = dispatch_assignment(&loads, &caps4, 3, 500, true);
    assert_eq!(assign.len(), 500);
    let mut counts = vec![0usize; N];
    for &w in &assign {
        counts[w] += 1;
    }
    assert!(counts.iter().all(|&c| c <= 4), "no worker over its cap of 4");
    assert!(counts[..125].iter().all(|&c| c == 4), "the 125 idlest each filled to cap");
    assert!(counts[125..].iter().all(|&c| c == 0), "the busiest 25 got nothing this round");
}

#[test]
fn default_is_pending() {
    assert_eq!(ItemState::default(), ItemState::Pending);
}

#[test]
fn legal_transitions_only() {
    assert!(ItemState::Pending.can_transition_to(ItemState::Leased));
    assert!(ItemState::Leased.can_transition_to(ItemState::Done));
    assert!(ItemState::Leased.can_transition_to(ItemState::Pending));
    assert!(ItemState::Leased.can_transition_to(ItemState::DeadLetter));
    assert!(!ItemState::Pending.can_transition_to(ItemState::Done));
    assert!(!ItemState::Done.can_transition_to(ItemState::Leased));
    assert!(!ItemState::DeadLetter.can_transition_to(ItemState::Pending));
}

#[test]
fn terminals() {
    assert!(ItemState::Done.is_terminal());
    assert!(ItemState::DeadLetter.is_terminal());
    assert!(!ItemState::Leased.is_terminal());
}

#[test]
fn state_tokens_are_read_back() {
    for s in [ItemState::Pending, ItemState::Leased, ItemState::Done, ItemState::DeadLetter] {
        assert_eq!(ItemState::from_token(s.as_str()), Some(s));
    }
    assert_eq!(ItemState::DeadLetter.as_str(), "dead_letter");
    assert_eq!(ItemState::from_token("gone"), None);
}

#[test]
fn worker_request_url_uses_endpoint_default_when_blank() {
    let w = WorkerSpec::new("gpu1", "http://gpu1:8000/", EndpointKind::Chat).concurrency(128);
    assert_eq!(w.concurrency_limit, 128);
    assert_eq!(w.request_url(""), "http://gpu1:8000/v1/chat/completions");
    assert_eq!(w.request_url("/v1/embeddings"), "http://gpu1:8000/v1/embeddings");
}

#[test]
fn endpoint_from_path_classifies() {
    assert_eq!(EndpointKind::from_path("/v1/embeddings"), Some(EndpointKind::Embeddings));
    assert_eq!(EndpointKind::from_path("/v1/chat/completions"), Some(EndpointKind::Chat));
    assert_eq!(EndpointKind::from_path("/v1/completions"), Some(EndpointKind::Completions));
    assert_eq!(EndpointKind::from_path(""), None);
    assert_eq!(EndpointKind::from_path("/v1/rerank"), None);
}

#[test]
fn metrics_come_from_the_engine_that_has_them() {
    let w = |h: EngineHint| {
        WorkerSpec::new("w", "http://e:1/", EndpointKind::Chat).engine_hint(h).metrics_url()
    };
    assert_eq!(w(EngineHint::Vllm).as_deref(), Some("http://e:1/metrics"));
    assert_eq!(w(EngineHint::LlamaCpp).as_deref(), Some("http://e:1/slots"));
    assert_eq!(w(EngineHint::Sglang).as_deref(), Some("http://e:1/get_server_info"));
    assert_eq!(w(EngineHint::Router), None);
}

#[test]
fn token_totals_fold() {
    let mut t = JobTotals::default();
    t.record_done(&TokenUsage {
        prompt_tokens: 10,
        completion_tokens: 3,
        total_tokens: 13,
        ..Default::default()
    });
    t.record_done(&TokenUsage {
        prompt_tokens: 5,
        completion_tokens: 2,
        total_tokens: 7,
        ..Default::default()
    });
    assert_eq!(t.items_done, 2);
    assert_eq!(t.tokens_total(), 20);
}

#[test]
fn errors_name_the_part_they_come_from() {
    assert_eq!(ForgeError::Queue("a".into()).to_string(), "queue: a");
    assert_eq!(ForgeError::Worker("a".into()).to_string(), "worker: a");
    assert_eq!(ForgeError::Store("a".into()).to_string(), "store: a");
    assert_eq!(ForgeError::Ingest("a".into()).to_string(), "ingest: a");
    assert_eq!(ForgeError::Config("a".into()).to_string(), "config: a");
    assert_eq!(ForgeError::Io("a".into()).to_string(), "io: a");
    assert_eq!(ForgeError::Json("a".into()).to_string(), "json: a");
}

#[test]
fn a_failed_result_is_completed_now() {
    let item = forge::item::parse_line(r#"{"custom_id":"c","body":{}}"#).unwrap();
    let r = ItemResult::failed(&item, "w0", &ForgeError::Worker("boom".into()));
    assert!(!r.is_success());
    assert_eq!(r.error.unwrap().message, "worker: boom");
    assert!(r.completed_at > 1_600_000_000_000);
}

fn chat(content: &str) -> Json {
    let text = render_json(&Json::Text(content.to_string()));
    json(&format!(
        "{{\"choices\": [{{\"message\": {{\"role\": \"assistant\", \"content\": {text}}}}}]}}"
    ))
}

#[test]
fn any_accepts_everything() {
    assert!(ResponseCheck::Any.validate(EndpointKind::Chat, &json("{}")).is_ok());
}

#[test]
fn nonempty_rejects_blank_and_missing() {
    let c = ResponseCheck::NonEmpty;
    assert!(c.validate(EndpointKind::Chat, &chat("hello")).is_ok());
    assert!(c.validate(EndpointKind::Chat, &chat("   ")).is_err());
    assert!(c.validate(EndpointKind::Chat, &chat("")).is_err());
    assert!(c.validate(EndpointKind::Chat, &json("{}")).is_err());
}

#[test]
fn messages_shape_is_validated_natively() {
    let ok = json(r#"{"content": [{"type": "text", "text": "hello"}]}"#);
    let empty = json(r#"{"content": [{"type": "text", "text": "  "}]}"#);
    let jsonish = json(r#"{"content": [{"type": "text", "text": "{\"a\":1}"}]}"#);
    assert!(ResponseCheck::NonEmpty.validate(EndpointKind::Messages, &ok).is_ok());
    assert!(ResponseCheck::NonEmpty.validate(EndpointKind::Messages, &empty).is_err());
    assert!(ResponseCheck::Json.validate(EndpointKind::Messages, &jsonish).is_ok());
    assert!(ResponseCheck::Json.validate(EndpointKind::Messages, &ok).is_err());
}

#[test]
fn json_requires_parseable_content() {
    let c = ResponseCheck::Json;
    assert!(c.validate(EndpointKind::Chat, &chat(r#"{"ok": true}"#)).is_ok());
    assert!(c.validate(EndpointKind::Chat, &chat("[1, 2, 3]")).is_ok());
    assert!(c.validate(EndpointKind::Chat, &chat("sure! here you go")).is_err());
    assert!(c.validate(EndpointKind::Chat, &chat("```json\n{}\n```")).is_err());
    assert!(c.validate(EndpointKind::Chat, &chat(r#"{"ok": tru"#)).is_err());
}

#[test]
fn completions_uses_text_field() {
    let body = json(r#"{"choices": [{"text": "{\"a\":1}"}]}"#);
    assert!(ResponseCheck::Json.validate(EndpointKind::Completions, &body).is_ok());
    let empty = json(r#"{"choices": [{"text": ""}]}"#);
    assert!(ResponseCheck::NonEmpty.validate(EndpointKind::Completions, &empty).is_err());
}

#[test]
fn embeddings_check_vector_presence() {
    let ok = json(r#"{"data": [{"embedding": [0.1, -0.2]}]}"#);
    let empty = json(r#"{"data": [{"embedding": []}]}"#);
    let missing = json(r#"{"data": []}"#);
    for c in [ResponseCheck::NonEmpty, ResponseCheck::Json] {
        assert!(c.validate(EndpointKind::Embeddings, &ok).is_ok());
        assert!(c.validate(EndpointKind::Embeddings, &empty).is_err());
        assert!(c.validate(EndpointKind::Embeddings, &missing).is_err());
    }
}

#[test]
fn json_is_read_and_written_back() {
    let text = r#"{"a":[1,-2,0.5,true,null],"b":{"c":"x\ny"}}"#;
    let v = json(text);
    assert_eq!(render_json(&v), text);
    assert_eq!(v.get("b").unwrap().str_at("c"), Some("x\ny"));
    let items = v.get("a").unwrap().as_array().unwrap();
    assert_eq!(items[0].as_u64(), Some(1));
    assert_eq!(items[1], Json::Number(Number::Negative(-2)));
    assert_eq!(items[2], Json::Number(Number::Decimal("0.5".into())));
    assert_eq!(items[3].as_bool(), Some(true));
    assert!(items[4].is_null());
    assert!(parse_json("{not json}").unwrap_err().contains("key must be a string"));
}

#[test]
fn json_nests_up_to_a_limit() {
    let nested = |n: usize| "[".repeat(n) + &"]".repeat(n);
    let limit = DEPTH_LIMIT as usize;
    assert_eq!(render_json(&json(&nested(limit))), nested(limit));
    assert!(parse_json(&nested(limit + 1)).unwrap_err().contains("recursion limit"));
}

#[test]
fn json_members_are_written_in_the_order_of_their_names() {
    assert_eq!(render_json(&json(r#"{"b":1,"a":2}"#)), r#"{"a":2,"b":1}"#);
}

#[test]
fn json_decimals_are_printed_in_one_form() {
    assert_eq!(render_json(&json("[1.50, 1e2, -0.0, 12345678901234567890123]")),
        "[1.5,100.0,-0.0,1.2345678901234568e+22]");
}

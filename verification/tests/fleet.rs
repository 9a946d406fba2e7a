use forge::agent::{
    endpoint_kind, result_to_post, spot_drain, wire_to_item, AgentConfig, AgentLoop, AgentPhase,
    AgentStats, AgentStep, CloudSource, Drain,
};
use forge::coordinator::{
    check_reply, grant_of_items, internal, interruption_reply, lease_reply, resend_after,
    result_reply, route, route_url, settle_queue, InProcessCoordinator, Request, Unapplied,
};
use forge::batch_run::{QueueWrite, StoreWrite};
use forge::duration::Duration;
use forge::error::ForgeError;
use forge::item::parse_line;
use forge::json::{parse_json, render_json, Json};
use forge::queue::QueueCounts;
use forge::spot::{
    observe, Answer, AwsSpot, AzureSpot, Cloud, GcpSpot, InterruptionSource, Notice, NoticeKind,
    Polled, Probe,
};
use forge::sqlite::SqliteQueue;
use forge::store::JsonlStore;
use forge::types::{EndpointKind, ItemResponse, ItemResult, TokenUsage};
use forge::wire::{
    AckReply, InterruptionNotice, LeaseGrant, LeasePull, ResultPost, WireItem, WireOutcome,
    WireUsage,
};

fn json(text: &str) -> Json {
    parse_json(text).unwrap()
}

fn through_text(j: &Json) -> Json {
    json(&render_json(j))
}

#[test]
fn lease_pull_roundtrips() {
    let p = LeasePull { worker_id: "gpu1".into(), max: 64, lease_secs: 120 };
    assert_eq!(Some(p.clone()), LeasePull::from_json(&through_text(&p.to_json())));
}

#[test]
fn lease_grant_roundtrips_with_items() {
    let g = LeaseGrant {
        items: vec![WireItem {
            custom_id: "req-1".into(),
            method: "POST".into(),
            url: "/v1/chat/completions".into(),
            body: json(r#"{"model": "m", "messages": []}"#),
            lease_generation: 7,
            attempts: 1,
        }],
    };
    assert_eq!(Some(g.clone()), LeaseGrant::from_json(&through_text(&g.to_json())));
    assert!(!g.is_empty());
    assert!(LeaseGrant::empty().is_empty());
}

#[test]
fn wire_item_attempts_defaults_to_zero() {
    let raw = r#"{"custom_id":"c","method":"POST","url":"","body":{},"lease_generation":1}"#;
    let it = WireItem::from_json(&json(raw)).expect("parse");
    assert_eq!(it.attempts, 0);
}

#[test]
fn result_post_outcomes_roundtrip() {
    let done = ResultPost {
        custom_id: "c".into(),
        lease_generation: 3,
        worker_id: "gpu1".into(),
        outcome: WireOutcome::Done {
            status_code: 200,
            response: json(r#"{"choices": []}"#),
            usage: WireUsage { prompt_tokens: 11, completion_tokens: 22, total_tokens: 33 },
            latency_ms: 1234,
        },
    };
    assert_eq!(Some(done.clone()), ResultPost::from_json(&through_text(&done.to_json())));

    let dead = ResultPost {
        custom_id: "c".into(),
        lease_generation: 3,
        worker_id: "gpu1".into(),
        outcome: WireOutcome::DeadLetter { error: "HTTP 500 after 5 attempts".into() },
    };
    assert_eq!(Some(dead.clone()), ResultPost::from_json(&through_text(&dead.to_json())));
}

#[test]
fn usage_defaults_when_omitted_and_ack_reply_roundtrips() {
    let raw = r#"{"custom_id":"c","lease_generation":1,"worker_id":"w","outcome":{"done":{"status_code":200,"response":{}}}}"#;
    let p = ResultPost::from_json(&json(raw)).expect("parse");
    match p.outcome {
        WireOutcome::Done { usage, latency_ms, .. } => {
            assert_eq!(usage, WireUsage::default());
            assert_eq!(latency_ms, 0);
        }
        _ => panic!("expected done"),
    }
    let a = AckReply { acked: true };
    assert_eq!(Some(a), AckReply::from_json(&through_text(&a.to_json())));
}

#[test]
fn records_may_stand_as_arrays() {
    assert_eq!(
        LeasePull::from_json(&json(r#"["gpu1", 64, 120]"#)),
        Some(LeasePull { worker_id: "gpu1".into(), max: 64, lease_secs: 120 })
    );
    assert_eq!(LeasePull::from_json(&json(r#"["gpu1", 64]"#)), None);
    assert_eq!(LeasePull::from_json(&json(r#"["gpu1", 64, 120, 1]"#)), None);
    let g = LeaseGrant::from_json(&json(r#"[[["c", "POST", "", {}, 7]]]"#)).unwrap();
    assert_eq!((g.items[0].lease_generation, g.items[0].attempts), (7, 0));
    let p = ResultPost::from_json(&json(r#"["c", 1, "w", {"done": [200, {}, [1, 2]]}]"#)).unwrap();
    match p.outcome {
        WireOutcome::Done { status_code, usage, latency_ms, .. } => {
            assert_eq!((status_code, latency_ms), (200, 0));
            assert_eq!((usage.prompt_tokens, usage.completion_tokens, usage.total_tokens), (1, 2, 0));
        }
        _ => panic!("expected done"),
    }
    let p = ResultPost::from_json(&json(r#"["c", 1, "w", {"dead_letter": ["late"]}]"#)).unwrap();
    assert_eq!(p.outcome, WireOutcome::DeadLetter { error: "late".into() });
    assert_eq!(AckReply::from_json(&json("[true]")), Some(AckReply { acked: true }));
    assert_eq!(AckReply::from_json(&json("[]")), None);
    let n = InterruptionNotice::from_json(&json(r#"["w", "gcp", "terminate"]"#)).unwrap();
    assert_eq!((n.cloud.as_str(), n.deadline), ("gcp", None));
    let i = parse_line(r#"["c", "POST", "/v1/embeddings", {"input": 1}, "done"]"#).unwrap();
    assert_eq!((i.custom_id.as_str(), i.url.as_str(), i.attempts), ("c", "/v1/embeddings", 0));
    assert!(parse_line(r#"["c", "POST", "/v1/embeddings"]"#).is_err());
}

#[test]
fn interruption_notice_roundtrips_and_omits_absent_deadline() {
    let n = InterruptionNotice {
        worker_id: "gpu1".into(),
        cloud: "gcp".into(),
        kind: "terminate".into(),
        deadline: None,
    };
    assert_eq!(Some(n.clone()), InterruptionNotice::from_json(&through_text(&n.to_json())));
    let s = render_json(&n.to_json());
    assert!(!s.contains("deadline"), "absent deadline must be omitted: {s}");
}

fn answer(status: u16, body: &str) -> Answer {
    Answer::Response { status, body: Some(body.to_string()) }
}

/// Polls a source against a metadata service. Returns the notice.
fn poll<S: InterruptionSource>(src: &S, service: fn(&str, &str) -> Answer) -> Option<Notice> {
    let mut probe = src.first();
    for _ in 0..5 {
        let f = probe.fetch(src.base());
        let reply = service(&f.url, &format!("{}: {}", f.header, f.value));
        match observe(&probe, &reply) {
            Polled::Ask(next) => probe = next,
            Polled::Settled(n) => return n,
        }
    }
    panic!("a poll ends")
}

fn aws_terminates(url: &str, header: &str) -> Answer {
    match url {
        "http://m/latest/api/token" => answer(200, "tok"),
        "http://m/latest/meta-data/spot/instance-action" => {
            assert_eq!(header, "X-aws-ec2-metadata-token: tok");
            answer(200, r#"{"action": "terminate", "time": "2026-06-30T18:00:00Z"}"#)
        }
        _ => answer(404, ""),
    }
}

#[test]
fn aws_armed_termination() {
    let n = poll(&AwsSpot::with_base("http://m"), aws_terminates).expect("armed");
    assert_eq!(n.cloud, Cloud::Aws);
    assert_eq!(n.kind, NoticeKind::Terminate);
    assert_eq!(n.deadline.as_deref(), Some("2026-06-30T18:00:00Z"));
}

fn aws_rebalances(url: &str, _header: &str) -> Answer {
    match url {
        "http://m/latest/api/token" => answer(200, "tok"),
        "http://m/latest/meta-data/events/recommendations/rebalance" => {
            answer(200, r#"{"noticeTime": "2026-06-30T17:59:00Z"}"#)
        }
        _ => answer(404, ""),
    }
}

#[test]
fn aws_not_armed_falls_back_to_rebalance() {
    let n = poll(&AwsSpot::with_base("http://m"), aws_rebalances).expect("rebalance");
    assert_eq!(n.kind, NoticeKind::Rebalance);
}

fn aws_quiet(url: &str, _header: &str) -> Answer {
    match url {
        "http://m/latest/api/token" => answer(200, "tok"),
        _ => answer(404, ""),
    }
}

#[test]
fn aws_quiet_when_nothing_armed() {
    assert!(poll(&AwsSpot::with_base("http://m"), aws_quiet).is_none());
}

fn gcp_true(url: &str, header: &str) -> Answer {
    assert!(url.starts_with("http://m/computeMetadata/v1/instance/preempted"));
    assert_eq!(header, "Metadata-Flavor: Google");
    answer(200, "TRUE")
}

fn gcp_false(_url: &str, _header: &str) -> Answer {
    answer(200, "FALSE")
}

#[test]
fn gcp_preempted_true() {
    let n = poll(&GcpSpot::with_base("http://m"), gcp_true).expect("preempted");
    assert_eq!(n.cloud, Cloud::Gcp);
    assert!(poll(&GcpSpot::with_base("http://m"), gcp_false).is_none());
}

fn azure_preempts(url: &str, header: &str) -> Answer {
    assert!(url.starts_with("http://m/metadata/scheduledevents"));
    assert_eq!(header, "Metadata: true");
    answer(
        200,
        r#"{"Events": [{"EventType": "Reboot", "NotBefore": "x"},
            {"EventType": "Preempt", "NotBefore": "2026-06-30T18:00:00Z"}]}"#,
    )
}

fn azure_freezes(_url: &str, _header: &str) -> Answer {
    answer(200, r#"{"Events": [{"EventType": "Freeze", "NotBefore": "x"}]}"#)
}

#[test]
fn azure_preempt_event() {
    let n = poll(&AzureSpot::with_base("http://m"), azure_preempts).expect("preempt");
    assert_eq!(n.cloud, Cloud::Azure);
    assert_eq!(n.deadline.as_deref(), Some("2026-06-30T18:00:00Z"));
}

#[test]
fn azure_no_preempt_event() {
    assert!(poll(&AzureSpot::with_base("http://m"), azure_freezes).is_none());
}

fn nobody(_url: &str, _header: &str) -> Answer {
    Answer::Unreachable
}

#[test]
fn unreachable_metadata_is_quiet_not_an_error() {
    assert!(poll(&AwsSpot::with_base("http://127.0.0.1:1"), nobody).is_none());
    assert!(poll(&GcpSpot::with_base("http://127.0.0.1:1"), nobody).is_none());
    assert!(poll(&AzureSpot::with_base("http://127.0.0.1:1"), nobody).is_none());
}

#[test]
fn the_first_aws_probe_asks_for_a_token() {
    let f = AwsSpot::with_base("http://m").first().fetch("http://m");
    assert!(f.put);
    assert_eq!(f.url, "http://m/latest/api/token");
    let g = Probe::GcpPreempted.fetch("http://m");
    assert!(!g.put);
}

fn wire(id: &str) -> WireItem {
    WireItem {
        custom_id: id.into(),
        method: "POST".into(),
        url: "/v1/chat/completions".into(),
        body: json(r#"{"model": "m", "messages": []}"#),
        lease_generation: 1,
        attempts: 0,
    }
}

fn echo(id: &str) -> ItemResult {
    ItemResult {
        custom_id: id.to_string(),
        response: Some(ItemResponse {
            status_code: 200,
            request_id: None,
            body: json(&format!("{{\"echo\":\"{id}\"}}")),
        }),
        error: None,
        usage: TokenUsage {
            prompt_tokens: 3,
            completion_tokens: 4,
            total_tokens: 7,
            ..Default::default()
        },
        worker_id: "gpu1".into(),
        latency_ms: 1,
        attempt: 1,
        completed_at: 0,
    }
}

fn cfg() -> AgentConfig {
    AgentConfig {
        worker_id: "gpu1".into(),
        max_lease: 4,
        lease_secs: 30,
        poll_idle: Duration::from_millis(1),
        max_idle_polls: 1,
    }
}

/// Runs an agent's loop against an in-process coordinator.
fn run_agent(
    cfg: &AgentConfig,
    coord: &mut InProcessCoordinator,
    ready: bool,
    fail: bool,
    drain: &mut Drain,
) -> AgentStats {
    let mut a = AgentLoop::start();
    let mut step = a.check(drain.is_draining(), ready);
    for _ in 0..100 {
        step = match step {
            AgentStep::Exit => return a.stats(),
            AgentStep::Wait => a.check(drain.is_draining(), ready),
            AgentStep::Probe => a.probed(ready),
            AgentStep::Pull | AgentStep::Run => {
                let (items, fired) = coord.pull(&cfg.pull());
                if fired {
                    drain.signal();
                }
                match a.granted(cfg, items.len()) {
                    AgentStep::Run => {
                        let mut posts = Vec::new();
                        for w in &items {
                            let outcome = if fail {
                                Err(ForgeError::Worker("boom".into()))
                            } else {
                                Ok(echo(&w.custom_id))
                            };
                            let (post, dead) = cfg.finished(w, outcome, 0);
                            coord.post(&post);
                            posts.push(Ok(dead));
                        }
                        a.ran(posts).unwrap();
                        a.check(drain.is_draining(), ready)
                    }
                    other => other,
                }
            }
        };
    }
    panic!("the agent ends")
}

fn ten() -> InProcessCoordinator {
    InProcessCoordinator::with_items((0..10).map(|i| wire(&format!("c{i}"))).collect())
}

#[test]
fn drains_whole_queue_without_a_notice() {
    let mut coord = ten();
    let mut drain = Drain::new();
    let stats = run_agent(&cfg(), &mut coord, true, false, &mut drain);

    assert_eq!(stats.processed, 10);
    assert_eq!(stats.dead_lettered, 0);
    assert!(!stats.drained);
    assert_eq!(coord.posts().len(), 10);
    assert!(coord.remaining_ids().is_empty(), "queue fully drained");
    for p in coord.posts() {
        assert!(matches!(p.outcome, WireOutcome::Done { .. }));
    }
}

#[test]
fn notice_stops_new_leases_but_drains_in_flight() {
    let mut coord = ten();
    let mut drain = Drain::new();
    coord.drain_after_first_pull();

    let stats = run_agent(&cfg(), &mut coord, true, false, &mut drain);

    assert!(stats.drained, "loop exited via the drain latch");
    assert_eq!(stats.processed, 4, "only the in-flight batch drained");
    assert_eq!(coord.posts().len(), 4);
    assert_eq!(coord.remaining_ids().len(), 6);
}

#[test]
fn failures_become_dead_letter_posts_not_dropped() {
    let mut coord =
        InProcessCoordinator::with_items((0..3).map(|i| wire(&format!("c{i}"))).collect());
    let stats = run_agent(&cfg(), &mut coord, true, true, &mut Drain::new());

    assert_eq!(stats.processed, 3);
    assert_eq!(stats.dead_lettered, 3);
    for p in coord.posts() {
        assert!(matches!(p.outcome, WireOutcome::DeadLetter { .. }));
    }
}

#[test]
fn unhealthy_engine_is_not_pulled_into() {
    let mut coord =
        InProcessCoordinator::with_items((0..5).map(|i| wire(&format!("c{i}"))).collect());
    let mut c = cfg();
    c.max_idle_polls = 0;
    let mut drain = Drain::new();
    drain.signal();
    let stats = run_agent(&c, &mut coord, false, false, &mut drain);
    assert_eq!(stats.processed, 0);
    assert_eq!(coord.remaining_ids().len(), 5, "nothing leased");

    let mut a = AgentLoop::start();
    assert!(matches!(a.check(false, false), AgentStep::Probe));
    assert!(matches!(a.probed(false), AgentStep::Wait));
    assert!(matches!(a.phase(), AgentPhase::Top));
}

#[test]
fn spot_drain_latches_and_forwards_notice() {
    let mut coord = InProcessCoordinator::new();
    let mut drain = Drain::new();
    let notice = Notice { cloud: Cloud::Gcp, kind: NoticeKind::Terminate, deadline: None };
    let wire = spot_drain(&notice, &mut drain, "gpu1");
    coord.notify(wire);

    assert!(drain.is_draining());
    let notices = coord.notices();
    assert_eq!(notices.len(), 1);
    assert_eq!(notices[0].cloud, "gcp");
    assert_eq!(notices[0].kind, "terminate");
}

#[test]
fn cloud_source_parses_each_selector() {
    assert!(CloudSource::parse("none").unwrap().is_none());
    assert!(CloudSource::parse("").unwrap().is_none());
    assert!(matches!(
        CloudSource::parse("aws").unwrap().map(|c| c.cloud()),
        Some(Cloud::Aws)
    ));
    assert!(matches!(
        CloudSource::parse("GCP").unwrap().map(|c| c.cloud()),
        Some(Cloud::Gcp)
    ));
    assert!(matches!(
        CloudSource::parse("azure").unwrap().map(|c| c.cloud()),
        Some(Cloud::Azure)
    ));
    assert!(CloudSource::parse("digitalocean").is_err());
}

#[test]
fn result_to_post_maps_success_and_failure() {
    let ok = ItemResult { usage: TokenUsage::default(), ..echo("c") };
    assert!(matches!(result_to_post("gpu1", 5, &ok).outcome, WireOutcome::Done { .. }));

    let item = wire_to_item(&wire("c"));
    let bad = ItemResult::failed(&item, "gpu1", &ForgeError::Worker("nope".into()));
    let post = result_to_post("gpu1", 5, &bad);
    assert_eq!(post.lease_generation, 5);
    assert!(matches!(post.outcome, WireOutcome::DeadLetter { .. }));
}

#[test]
fn an_unanswered_post_ends_the_agent_with_an_error() {
    let mut a = AgentLoop::start();
    a.check(false, true);
    a.granted(&cfg(), 2);
    let r = a.ran(vec![Ok(false), Err(ForgeError::Worker("gone".into()))]);
    assert_eq!(r.unwrap_err().to_string(), "worker: gone");
}

#[test]
fn a_daemon_waits_for_work_without_end() {
    let mut c = cfg();
    c.max_idle_polls = 0;
    let mut a = AgentLoop::start();
    for _ in 0..50 {
        assert!(matches!(a.check(false, true), AgentStep::Pull));
        assert!(matches!(a.granted(&c, 0), AgentStep::Wait));
    }
    assert_eq!(a.stats().idle_polls, 50);
}

#[test]
fn endpoints_of_an_agent_go_by_name() {
    assert_eq!(endpoint_kind("chat"), Ok(EndpointKind::Chat));
    assert_eq!(endpoint_kind("embeddings"), Ok(EndpointKind::Embeddings));
    assert_eq!(
        endpoint_kind(" Images ").unwrap_err(),
        "unknown endpoint \"images\" (chat|completions|embeddings)"
    );
}

/// A coordinator with its queue and its results file, behind its routes.
struct Served {
    queue: SqliteQueue,
    store: JsonlStore,
    out: String,
}

impl Served {
    fn new(items: usize) -> Self {
        let mut queue = SqliteQueue::open_in_memory(7);
        let items: Vec<_> = (0..items)
            .map(|i| {
                parse_line(&format!(
                    "{{\"custom_id\":\"c{i}\",\"url\":\"/v1/chat/completions\",\"body\":{{}}}}"
                ))
                .unwrap()
            })
            .collect();
        queue.enqueue(&items);
        let mut store = JsonlStore::new("out.jsonl");
        store.ensure_loaded(&[], &[]);
        Served { queue, store, out: String::new() }
    }

    fn call(&mut self, path: &str, body: &str) -> Result<String, (u16, String)> {
        match route("POST", path, body, Duration::from_secs(60))? {
            Request::Lease { max, lease_for } => {
                Ok(lease_reply(&self.queue.lease(max, lease_for)))
            }
            Request::Result(post) => {
                let u = Unapplied::apply_result(&post, 0);
                if let StoreWrite::Put(r) = u.write() {
                    if let Some(a) = self.store.put(r, false) {
                        self.out.push_str(&a.text);
                        self.store.appended(&r.custom_id);
                    }
                }
                let owed = u.stored();
                Ok(result_reply(settle_queue(&mut self.queue, &owed)))
            }
            Request::Interruption(_) => Ok(interruption_reply()),
        }
    }
}

#[test]
fn end_to_end_over_a_real_socket() {
    let mut server = Served::new(12);
    let cfg = AgentConfig {
        worker_id: "gpu1".into(),
        max_lease: 5,
        lease_secs: 30,
        poll_idle: Duration::from_millis(5),
        max_idle_polls: 2,
    };
    let mut a = AgentLoop::start();
    let mut step = a.check(false, true);
    while step != AgentStep::Exit {
        if step == AgentStep::Wait {
            step = a.check(false, true);
            continue;
        }
        let text = server.call("/v1/lease", &render_json(&cfg.pull().to_json())).unwrap();
        let grant = LeaseGrant::from_json(&json(&text)).unwrap();
        step = a.granted(&cfg, grant.items.len());
        if step == AgentStep::Run {
            let mut posts = Vec::new();
            for w in &grant.items {
                let (post, dead) = cfg.finished(w, Ok(echo(&w.custom_id)), 0);
                let reply = server.call("/v1/result", &render_json(&post.to_json())).unwrap();
                assert_eq!(AckReply::from_json(&json(&reply)), Some(AckReply { acked: true }));
                posts.push(Ok(dead));
            }
            a.ran(posts).unwrap();
            step = a.check(false, true);
        }
    }
    let stats = a.stats();
    assert_eq!(stats.processed, 12, "all items ran over the wire");
    assert_eq!(stats.dead_lettered, 0);

    let counts = server.queue.counts();
    assert_eq!(counts, QueueCounts { pending: 0, leased: 0, done: 12, dead: 0 });

    let lines: Vec<String> = server.out.lines().map(str::to_string).collect();
    let total = forge::store::sum_usage(&lines).unwrap();
    assert_eq!(total.total_tokens(), 12 * 7, "captured usage faithful over the wire");
}

#[test]
fn stale_post_is_a_harmless_no_op() {
    let mut server = Served::new(1);
    let post = ResultPost {
        custom_id: "c0".into(),
        lease_generation: 999,
        worker_id: "gpu1".into(),
        outcome: WireOutcome::Done {
            status_code: 200,
            response: json(r#"{"echo": "c0"}"#),
            usage: Default::default(),
            latency_ms: 1,
        },
    };
    let reply = server.call("/v1/result", &render_json(&post.to_json())).expect("post accepted");
    assert_eq!(AckReply::from_json(&json(&reply)), Some(AckReply { acked: false }));

    let counts = server.queue.counts();
    assert_eq!(counts.done, 0);
    assert_eq!(counts.pending, 1);
}

#[test]
fn a_generation_beyond_every_attempt_closes_no_lease() {
    let mut server = Served::new(1);
    let text = server.call("/v1/lease", r#"{"worker_id":"w","max":1,"lease_secs":30}"#).unwrap();
    let grant = LeaseGrant::from_json(&json(&text)).unwrap();
    assert_eq!(grant.items[0].lease_generation, 1);
    for outcome in [
        WireOutcome::Done {
            status_code: 200,
            response: json("{}"),
            usage: Default::default(),
            latency_ms: 1,
        },
        WireOutcome::DeadLetter { error: "boom".into() },
    ] {
        let post = ResultPost {
            custom_id: "c0".into(),
            lease_generation: 4_294_967_297,
            worker_id: "w".into(),
            outcome,
        };
        let reply = server.call("/v1/result", &render_json(&post.to_json())).unwrap();
        assert_eq!(AckReply::from_json(&json(&reply)), Some(AckReply { acked: false }));
        assert_eq!(
            server.queue.counts(),
            QueueCounts { pending: 0, leased: 1, done: 0, dead: 0 }
        );
    }
}

#[test]
fn what_is_owed_to_a_queue_closes_its_lease_once() {
    let mut server = Served::new(2);
    server.queue.lease(2, Duration::from_secs(30));
    let ack = Some(QueueWrite::Ack { custom_id: "c0".into(), attempt: 1 });
    assert!(settle_queue(&mut server.queue, &ack));
    assert!(!settle_queue(&mut server.queue, &ack));
    let dead =
        Some(QueueWrite::DeadLetter { custom_id: "c1".into(), attempt: 1, error: "e".into() });
    assert!(settle_queue(&mut server.queue, &dead));
    assert!(!settle_queue(&mut server.queue, &None));
    assert_eq!(server.queue.counts(), QueueCounts { pending: 0, leased: 0, done: 1, dead: 1 });
}

#[test]
fn a_coordinator_refuses_what_it_does_not_know() {
    let lease = Duration::from_secs(60);
    assert_eq!(route("GET", "/v1/lease", "{}", lease).err().map(|e| e.0), Some(405));
    assert_eq!(route("POST", "/nope", "{}", lease).err().map(|e| e.0), Some(404));
    assert_eq!(route("POST", "/v1/lease", "{", lease).err().map(|e| e.0), Some(400));
    let ask = r#"{"worker_id":"w","max":3,"lease_secs":0}"#;
    match route("POST", "/v1/lease", ask, lease) {
        Ok(Request::Lease { max, lease_for }) => {
            assert_eq!(max, 3);
            assert_eq!(lease_for, lease);
        }
        _ => panic!("a lease"),
    }
    assert_eq!(internal(&ForgeError::Store("x".into())), (500, "store: x".to_string()));
}

#[test]
fn routes_join_the_base_once() {
    assert_eq!(route_url("http://c:1/", "/v1/lease"), "http://c:1/v1/lease");
    assert!(check_reply("/v1/lease", 200, "200 OK").is_ok());
    assert!(check_reply("/v1/lease", 500, "500 Internal Server Error").is_err());
    assert!(resend_after(0, Duration::from_secs(0)).is_some());
    assert_eq!(resend_after(4, Duration::from_secs(0)), None);
    assert_eq!(resend_after(0, Duration::from_secs(151)), None);
}

#[test]
fn a_grant_carries_each_lease_generation() {
    let mut it = parse_line(r#"{"custom_id":"c","body":{}}"#).unwrap();
    it.attempts = 3;
    let g = grant_of_items(&[it]);
    assert_eq!(g.items[0].lease_generation, 3);
    assert_eq!(g.items[0].attempts, 2, "this lease is not counted");
    assert_eq!(wire_to_item(&g.items[0]).attempts, 2);
}

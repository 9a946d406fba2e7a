use forge::batch_run::{BatchRun, QueueWrite, StoreWrite, Unstored};
use forge::cli::{
    ensure_object_store_build, is_object_url, object_job_id, reject_path, resolve_resume_out,
    resume_concurrency, sibling, WorkerArgs,
};
use forge::duration::Duration;
use forge::error::ForgeError;
use forge::fleet::{HttpFleet, WorkerFleet};
use forge::import::ImportStats;
use forge::item::parse_line;
use forge::json::{parse_json, Json};
use forge::report::{
    audit_text, import_text, missing_path, prometheus, run_text, status_text, verify_failure,
    verify_json_text, verify_text, AuditReport, StatusReport,
};
use forge::retry::RetryPolicy;
use forge::run::{Action, Dispatched, Event, RunConfig, RunLoop};
use forge::sqlite::SqliteQueue;
use forge::store::{key_of_line, JsonlStore};
use forge::types::{
    EndpointKind, EngineHint, Item, ItemResponse, ItemResult, JobTotals, TokenUsage, WorkerSpec,
};
use forge::validate::ResponseCheck;
use forge::verify::{verify_completeness, VerifyConfig};
use forge::worker::HttpWorker;

fn item(i: usize) -> Item {
    parse_line(&format!(
        "{{\"custom_id\":\"req-{i}\",\"url\":\"/v1/chat/completions\",\"body\":{{\"model\":\"m\"}}}}"
    ))
    .unwrap()
}

fn config(lease_batch: usize) -> RunConfig {
    RunConfig {
        lease_for: Duration::from_secs(30),
        lease_max: Duration::from_secs(30),
        lease_batch,
        poll_interval: Duration::from_millis(5),
        ready_grace: Duration::from_secs(5),
        retry: RetryPolicy::default(),
        load_aware: true,
    }
}

/// A worker that takes a fixed time per item.
struct Timed {
    cap: usize,
    millis: u64,
    poison: bool,
    peak: usize,
    processed: usize,
}

fn timed(cap: usize, millis: u64) -> Timed {
    Timed { cap, millis, poison: false, peak: 0, processed: 0 }
}

/// What a run wrote.
#[derive(Default)]
struct Written {
    out: Vec<String>,
    dead: Vec<String>,
}

/// Runs a queue to its end over a fleet, on a simulated clock.
fn run(queue: &mut SqliteQueue, fleet: &mut [Timed], cfg: RunConfig) -> (JobTotals, Written) {
    let caps: Vec<usize> = fleet.iter().map(|w| w.cap).collect();
    let mut l = RunLoop::new(cfg, &caps);
    let mut now: u64 = 0;
    let mut flying: Vec<(u64, usize, Item)> = Vec::new();
    let mut leased: Vec<Item> = Vec::new();
    let mut written = Written::default();
    let mut action = l.next(Event::Begin, Duration::from_millis(now));
    loop {
        let event = match action {
            Action::Reap => {
                queue.reap_at(now as i64);
                Event::Reaped
            }
            Action::Inspect | Action::Probe => Event::Fleet {
                ready: vec![true; fleet.len()],
                loads: vec![None; fleet.len()],
            },
            Action::Lease { limit, lease_for } => {
                leased = queue.lease_at(limit, lease_for, now as i64);
                Event::Leased(leased.len())
            }
            Action::Dispatch { workers } => {
                assert_eq!(workers.len(), leased.len());
                for (it, w) in leased.drain(..).zip(workers) {
                    flying.push((now + fleet[w].millis, w, it));
                    let n = flying.iter().filter(|f| f.1 == w).count();
                    fleet[w].peak = fleet[w].peak.max(n);
                }
                Event::Started
            }
            Action::AwaitOne => {
                let next = (0..flying.len()).min_by_key(|i| flying[*i].0).unwrap();
                let (at, w, it) = flying.remove(next);
                now = now.max(at);
                fleet[w].processed += 1;
                l.observe(fleet[w].millis);
                let result = if fleet[w].poison {
                    Err(ForgeError::Worker("HTTP 400 (terminal): bad request".into()))
                } else {
                    Ok(ItemResult {
                        custom_id: it.custom_id.clone(),
                        response: Some(ItemResponse {
                            status_code: 200,
                            request_id: None,
                            body: Json::Null,
                        }),
                        error: None,
                        usage: TokenUsage {
                            prompt_tokens: 5,
                            completion_tokens: 2,
                            total_tokens: 7,
                            ..Default::default()
                        },
                        worker_id: format!("w{w}"),
                        latency_ms: fleet[w].millis,
                        attempt: it.attempts,
                        completed_at: 0,
                    })
                };
                let u = Unstored::submitted(&it, "w", result, 0);
                match u.write() {
                    StoreWrite::Put(r) => written.out.push(r.custom_id.clone()),
                    StoreWrite::DeadLetter(r) => written.dead.push(r.custom_id.clone()),
                }
                let (owed, outcome) = u.stored();
                let closed = match owed {
                    QueueWrite::Ack { custom_id, attempt } => queue.ack(&custom_id, attempt),
                    QueueWrite::DeadLetter { custom_id, attempt, error } => {
                        queue.dead_letter(&custom_id, attempt, &error)
                    }
                };
                assert!(closed);
                Event::Completed { worker: w, outcome }
            }
            Action::ReadCounts => Event::Counts(queue.counts()),
            Action::Pause => {
                now += 5;
                Event::Rested
            }
            Action::Finish(totals) => return (totals, written),
            Action::Fail(e) => panic!("{}", e.to_string()),
        };
        action = l.next(event, Duration::from_millis(now));
    }
}

fn hydrated(n: usize) -> SqliteQueue {
    let mut queue = SqliteQueue::open_in_memory(7);
    let items: Vec<Item> = (0..n).map(item).collect();
    assert_eq!(queue.enqueue(&items), n as u64);
    queue
}

#[test]
fn end_to_end_run_processes_jsonl() {
    let mut queue = hydrated(3);
    let (totals, written) = run(&mut queue, &mut [timed(4, 1)], config(16));
    assert_eq!(totals.items_done, 3);
    assert_eq!(totals.items_dead, 0);
    assert_eq!(totals.tokens_total(), 21);
    assert_eq!(written.out.len(), 3);
    assert!(written.out.contains(&"req-0".to_string()));
    assert!(written.out.contains(&"req-2".to_string()));
}

#[test]
fn end_to_end_poison_item_is_dead_lettered() {
    let mut queue = hydrated(2);
    let mut fleet = [timed(2, 1)];
    fleet[0].poison = true;
    let (totals, written) = run(&mut queue, &mut fleet, config(16));
    assert_eq!(totals.items_done, 0);
    assert_eq!(totals.items_dead, 2);
    assert!(written.out.is_empty());
    assert_eq!(written.dead.len(), 2);
    assert_eq!(queue.failure_breakdown(), vec![("client_error".to_string(), 2)]);
}

#[test]
fn dispatch_is_concurrent_and_bounded_by_capacity() {
    let limit = 4;
    let total = 16;
    let mut queue = hydrated(total);
    let mut fleet = [timed(limit, 20)];
    let (totals, _) = run(&mut queue, &mut fleet, config(64));
    assert_eq!(totals.items_done as usize, total, "all items complete");
    let observed = fleet[0].peak;
    assert!(observed >= 2, "dispatch must be concurrent (peak {observed})");
    assert!(observed <= limit, "must not exceed fleet capacity {limit} (peak {observed})");
}

#[test]
fn capacity_is_the_sum_over_workers() {
    let mut queue = hydrated(30);
    let mut fleet = [timed(3, 20), timed(3, 20)];
    let (totals, _) = run(&mut queue, &mut fleet, config(64));
    assert_eq!(totals.items_done, 30);
    let (peak_a, peak_b) = (fleet[0].peak, fleet[1].peak);
    assert!(peak_a >= 1 && peak_b >= 1, "both workers used ({peak_a}, {peak_b})");
    assert!(peak_a <= 3 && peak_b <= 3, "neither exceeds its limit ({peak_a}, {peak_b})");
}

#[test]
fn stress_128_worker_fleet_fans_out_without_oversubscribing() {
    const WORKERS: usize = 128;
    const CAP: usize = 4;
    const TOTAL: usize = 6_000;
    let mut queue = hydrated(TOTAL);
    let mut fleet: Vec<Timed> = (0..WORKERS).map(|_| timed(CAP, 1)).collect();
    let (totals, _) = run(&mut queue, &mut fleet, config(1024));
    assert_eq!(totals.items_done as usize, TOTAL, "every item completed across the fleet");
    assert_eq!(totals.items_dead, 0, "no losses");

    let used = fleet.iter().filter(|w| w.peak >= 1).count();
    assert!(used >= 100, "work spread across the fleet (used {used}/{WORKERS})");
    let max_peak = fleet.iter().map(|w| w.peak).max().unwrap();
    assert!(max_peak <= CAP, "no worker oversubscribed past its cap (max peak {max_peak})");
}

#[test]
fn slow_worker_does_not_gate_the_fleet() {
    let total = 60;
    let mut queue = hydrated(total);
    let mut fleet = [timed(4, 1), timed(4, 150)];
    let (totals, _) = run(&mut queue, &mut fleet, config(64));
    assert_eq!(totals.items_done, total as u64, "every item terminal-done");
    let (fast_n, slow_n) = (fleet[0].processed, fleet[1].processed);
    assert_eq!(fast_n + slow_n, total, "no item lost or duplicated");
    assert!(fast_n * 3 >= total * 2, "fast worker took {fast_n}/{total}");
}

fn answered(it: &Item) -> ItemResult {
    ItemResult {
        custom_id: it.custom_id.clone(),
        response: Some(ItemResponse { status_code: 200, request_id: None, body: Json::Null }),
        error: None,
        usage: TokenUsage::default(),
        worker_id: "w".into(),
        latency_ms: 1,
        attempt: it.attempts,
        completed_at: 0,
    }
}

#[test]
fn coordinator_sigkill_then_resume_is_exactly_once() {
    let mut queue = hydrated(20);
    let mut store = JsonlStore::new("out.jsonl");
    store.ensure_loaded(&[], &[]);
    let mut out: Vec<String> = Vec::new();
    // Seven items are leased; three are stored, two of those are acked, then all is lost.
    let leased = queue.lease_at(7, Duration::from_millis(10), 0);
    for (i, it) in leased.iter().take(3).enumerate() {
        let a = store.put(&answered(it), false).unwrap();
        out.push(a.text.trim_end().to_string());
        store.appended(&it.custom_id);
        if i < 2 {
            assert!(queue.ack(&it.custom_id, it.attempts));
        }
    }

    let rows = queue.items().clone();
    let mut queue = SqliteQueue::open(rows, 8, None, Vec::new()).ok().unwrap();
    let mut store = JsonlStore::new("out.jsonl");
    store.ensure_loaded(&out, &[]);
    assert_eq!(queue.reap_at(1_000), 5);
    loop {
        let batch = queue.lease_at(4, Duration::from_secs(30), 1_000);
        if batch.is_empty() {
            break;
        }
        for it in batch {
            if let Some(a) = store.put(&answered(&it), false) {
                out.push(a.text.trim_end().to_string());
                store.appended(&it.custom_id);
            }
            assert!(queue.ack(&it.custom_id, it.attempts));
        }
    }
    assert_eq!(queue.counts().done, 20);
    assert_eq!(out.len(), 20, "one line per item");
    let mut ids: Vec<String> = out.iter().filter_map(|l| key_of_line(l)).collect();
    ids.sort();
    ids.dedup();
    assert_eq!(ids.len(), 20, "no item twice");
    assert_eq!(store.emitted_ids().len(), 20);
}

#[test]
fn a_run_without_workers_is_refused() {
    let none: Vec<HttpWorker> = Vec::new();
    match BatchRun::new((), none, ()).start() {
        Err(ForgeError::Config(m)) => assert_eq!(m, "no workers configured"),
        _ => panic!("no workers"),
    }
}

#[test]
fn a_fleet_that_never_comes_up_ends_the_run() {
    let mut l = RunLoop::new(config(4), &[2]);
    let dead = || Event::Fleet { ready: vec![false], loads: vec![None] };
    let mut queue = hydrated(1);
    let mut now = 0;
    let mut action = l.next(Event::Begin, Duration::from_millis(now));
    for _ in 0..10_000 {
        let event = match action {
            Action::Reap => {
                queue.reap_at(now as i64);
                Event::Reaped
            }
            Action::Inspect | Action::Probe => dead(),
            Action::ReadCounts => Event::Counts(queue.counts()),
            Action::Pause => {
                now += 5;
                Event::Rested
            }
            Action::Fail(e) => {
                let m = e.to_string();
                assert_eq!(
                    m,
                    "worker: no worker became ready within 5s; check --workers / engine health"
                );
                assert!(now >= 5_000);
                return;
            }
            _ => panic!("nothing can be dispatched"),
        };
        action = l.next(event, Duration::from_millis(now));
    }
    panic!("the grace period ends")
}

#[test]
fn work_goes_to_ready_workers_alone() {
    let mut l = RunLoop::new(config(4), &[2, 2, 2]);
    let fleet = || Event::Fleet {
        ready: vec![false, true, false],
        loads: vec![Some(0), Some(9), None],
    };
    let mut action = l.next(Event::Begin, Duration::from_millis(0));
    for _ in 0..20 {
        let event = match action {
            Action::Reap => Event::Reaped,
            Action::Inspect | Action::Probe => fleet(),
            Action::Lease { limit, .. } => Event::Leased(limit.min(2)),
            Action::Dispatch { workers } => {
                assert_eq!(workers, vec![1, 1]);
                return;
            }
            _ => panic!("a worker is ready"),
        };
        action = l.next(event, Duration::from_millis(0));
    }
    panic!("work is dispatched")
}

#[test]
fn a_dispatch_that_failed_counts_as_dead() {
    let it = item(0);
    let u = Unstored::submitted(&it, "w9", Err(ForgeError::Worker("boom".into())), 77);
    match u.write() {
        StoreWrite::DeadLetter(r) => {
            assert_eq!(r.worker_id, "w9");
            assert_eq!(r.completed_at, 77);
        }
        _ => panic!("a dead letter"),
    }
    let (owed, outcome) = u.stored();
    assert_eq!(outcome, Dispatched::Dead);
    match owed {
        QueueWrite::DeadLetter { custom_id, error, .. } => {
            assert_eq!(custom_id, "req-0");
            assert_eq!(error, "worker: boom");
        }
        _ => panic!("a dead letter"),
    }
}

#[test]
fn a_fleet_has_one_worker_per_spec() {
    let specs = vec![
        WorkerSpec::new("a", "http://a", EndpointKind::Chat).concurrency(3),
        WorkerSpec::new("b", "http://b", EndpointKind::Chat),
    ];
    let fleet = HttpFleet::new(specs, RetryPolicy::default(), ResponseCheck::NonEmpty);
    let workers = fleet.build().unwrap();
    assert_eq!(workers.len(), 2);
    assert_eq!(workers[0].spec().concurrency_limit, 3);
    assert_eq!(workers[1].spec().worker_id, "b");
    assert_eq!(workers[1].check(), ResponseCheck::NonEmpty);
}

#[test]
fn status_json_reports_counts_success_rate_and_retries() {
    let mut q = hydrated(2);
    q.enqueue(&[parse_line(r#"{"custom_id":"poison","body":{}}"#).unwrap()]);
    for it in q.lease_at(2, Duration::from_secs(300), 0) {
        q.ack(&it.custom_id, it.attempts);
    }
    q.lease_at(1, Duration::from_millis(0), 0);
    q.reap_at(5);
    let again = q.lease_at(1, Duration::from_secs(300), 5);
    q.dead_letter("poison", again[0].attempts, "boom");

    let report = StatusReport::new(q.counts(), q.attempt_histogram(), q.failure_breakdown());
    assert_eq!(report.done, 2);
    assert_eq!(report.dead, 1);
    assert_eq!(report.total, 3);
    assert_eq!(report.retried, 1, "the poison item took 2 attempts");
    assert_eq!(report.attempts_histogram, vec![(1, 2), (2, 1)]);
    assert_eq!(report.failure_reasons, vec![("other".to_string(), 1)]);

    let text = prometheus(&report, Some("0.6667"));
    assert!(text.contains("# TYPE forge_items gauge"), "{text}");
    assert!(text.contains("forge_items{state=\"done\"} 2"), "{text}");
    assert!(text.contains("forge_failures{reason=\"other\"} 1"), "{text}");
    assert!(text.contains("0.6667"), "{text}");
    assert!(status_text(&report, "66.7%").contains("66.7%"));
}

#[test]
fn an_audit_names_what_can_be_reclaimed() {
    let mut q = hydrated(3);
    q.lease_at(1, Duration::from_secs(300), 0);
    q.lease_at(1, Duration::from_millis(0), 0);
    let (counts, audit) = q.audit_snapshot(10);
    let r = AuditReport::new(counts, audit);
    assert_eq!((r.pending, r.live_leases, r.orphaned_leases), (1, 1, 1));
    assert_eq!(r.reclaimable, 2);
    assert!(r.interrupted);
    assert_eq!(r.live_holders, vec![("forge-7".to_string(), 1)]);
    assert!(audit_text(&r).contains("forge-7"));
}

fn line(id: &str) -> Vec<u8> {
    format!("{{\"custom_id\":\"{id}\",\"body\":{{}}}}").into_bytes()
}

#[test]
fn verify_incomplete_exits_nonzero_with_json() {
    let (report, missing) = verify_completeness(
        &["a", "b", "c"].map(line),
        &["a"].map(line),
        Some(&["b"].map(line)),
        &VerifyConfig::default(),
    );
    assert!(verify_failure(&report).is_some(), "missing ids must exit non-zero");
    let v = parse_json(&verify_json_text(&report)).unwrap();
    assert_eq!(v.u64_at("input_ids"), Some(3));
    assert_eq!(v.u64_at("emitted_ids"), Some(2));
    assert_eq!(v.u64_at("missing"), Some(1));
    assert_eq!(v.u64_at("extra"), Some(0));
    assert_eq!(v.get("complete").and_then(|b| b.as_bool()), Some(false));
    assert_eq!(missing, vec!["c".to_string()]);
    assert_eq!(
        missing_path(false, None, false, "in.jsonl", "out.jsonl").as_deref(),
        Some("out.jsonl.missing.txt")
    );
    assert!(verify_text(&report, Some("out.jsonl.missing.txt")).contains("out.jsonl.missing.txt"));
}

#[test]
fn verify_complete_exits_zero() {
    let (report, _) = verify_completeness(
        &["a", "b", "c"].map(line),
        &["a", "b"].map(line),
        Some(&["c"].map(line)),
        &VerifyConfig::default(),
    );
    assert_eq!(verify_failure(&report), None);
    let v = parse_json(&verify_json_text(&report)).unwrap();
    assert_eq!(v.get("complete").and_then(|b| b.as_bool()), Some(true));
    assert_eq!(v.u64_at("missing"), Some(0));
    assert_eq!(missing_path(true, None, false, "in.jsonl", "out.jsonl"), None);
    assert_eq!(
        missing_path(false, Some("m.txt"), false, "in.jsonl", "out.jsonl").as_deref(),
        Some("m.txt")
    );
}

#[test]
fn a_resume_goes_where_the_run_went() {
    let r = resolve_resume_out(Some("out.jsonl".into()), Some("other.jsonl")).ok().unwrap();
    assert_eq!((r.out.as_str(), r.ignored), ("out.jsonl", true));
    let r = resolve_resume_out(None, Some("other.jsonl")).ok().unwrap();
    assert_eq!((r.out.as_str(), r.ignored), ("other.jsonl", false));
    assert!(resolve_resume_out(None, None).is_err());
    assert_eq!(resume_concurrency(Some(8), None), 8);
    assert_eq!(resume_concurrency(Some(8), Some(3)), 3);
    assert_eq!(resume_concurrency(None, None), 256);
}

#[test]
fn object_urls_are_told_from_paths() {
    assert!(is_object_url("s3://bucket/prefix"));
    assert!(!is_object_url("results.jsonl"));
    assert_eq!(sibling("out.jsonl", ".reject.jsonl"), "out.jsonl.reject.jsonl");
    assert_eq!(reject_path("out.jsonl", "state.db"), "out.jsonl.reject.jsonl");
    assert_eq!(reject_path("s3://b/p", "state.db"), "state.db.reject.jsonl");
    assert!(ensure_object_store_build("s3://b", true, false).is_err());
    assert!(ensure_object_store_build("s3://b", true, true).is_ok());
    assert!(ensure_object_store_build("out.jsonl", false, false).is_ok());
    let id = object_job_id("/tmp/my run!/state.db");
    assert!(id.bytes().all(|b| b.is_ascii_alphanumeric() || b == b'-' || b == b'_'), "{id}");
}

#[test]
fn arguments_describe_the_fleet() {
    let args = WorkerArgs {
        workers: vec!["http://a".into(), "http://b".into()],
        engine: EngineHint::Vllm,
        endpoint: EndpointKind::Chat,
        concurrency: 8,
        lease_secs: 300,
        lease_max_secs: 1800,
        ready_grace_secs: 60,
        max_attempts: 5,
        require: ResponseCheck::Any,
        no_load_aware: true,
    };
    let specs = args.worker_specs();
    assert_eq!(specs.len(), 2);
    assert_eq!(specs[1].worker_id, "w1");
    assert_eq!(specs[1].base_url, "http://b");
    assert_eq!(specs[1].concurrency_limit, 8);
    let cfg = args.run_config();
    assert_eq!(cfg.lease_for, Duration::from_secs(300));
    assert!(!cfg.load_aware);
    assert_eq!(args.retry_policy().max_attempts, 5);
}

#[test]
fn a_run_and_an_import_say_what_they_did() {
    let t = JobTotals { items_total: 3, items_done: 2, items_dead: 1, ..Default::default() };
    let text = run_text(&t);
    assert!(text.contains('2') && text.contains('1'), "{text}");
    let s = ImportStats { lines_read: 5, written: 3, rejected: 1, duplicates: 1 };
    let text = import_text("in.jsonl", "out.jsonl", &s);
    assert!(text.contains("in.jsonl") && text.contains("out.jsonl"), "{text}");
}

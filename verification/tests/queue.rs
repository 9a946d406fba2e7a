use forge::clock::now_ms;
use forge::duration::Duration;
use forge::error::ForgeError;
use forge::item::parse_line;
use forge::queue::QueueCounts;
use forge::redb_queue::{status_code, Opened, RedbQueue};
use forge::redb_tables::{StoredTables, TableQueue};
use forge::sqlite::SqliteQueue;
use forge::state::ItemState;
use forge::types::{Item, Shard};

fn item(id: &str) -> Item {
    parse_line(&format!(
        "{{\"custom_id\":\"{id}\",\"method\":\"POST\",\"url\":\"/v1/chat/completions\",\"body\":{{\"model\":\"m\",\"messages\":[]}}}}"
    ))
    .unwrap()
}

const MINUTES: i64 = 60_000;

#[test]
fn open_in_memory_creates_schema() {
    let q = SqliteQueue::open_in_memory(7);
    assert_eq!(q.counts(), QueueCounts::default());
    assert!(q.items().is_empty());
    assert_eq!(q.hydrated_through(), None);
}

#[test]
fn sqlite_enqueue_lease_ack_roundtrip() {
    let mut q = SqliteQueue::open_in_memory(7);
    let n = q.enqueue(&[item("a"), item("b"), item("c")]);
    assert_eq!(n, 3);
    assert_eq!(q.counts().pending, 3);

    let leased = q.lease(2, Duration::from_secs(300));
    assert_eq!(leased.len(), 2);
    assert!(leased.iter().all(|i| i.status == ItemState::Leased && i.attempts == 1));
    assert_eq!(leased[0].body.str_at("model"), Some("m"));
    assert_eq!(leased[0].leased_by.as_deref(), Some("forge-7"));

    let c = q.counts();
    assert_eq!((c.pending, c.leased, c.done), (1, 2, 0));

    assert!(q.ack(&leased[0].custom_id, leased[0].attempts));
    let c = q.counts();
    assert_eq!((c.pending, c.leased, c.done), (1, 1, 1));
}

#[test]
fn sqlite_ack_is_lease_fenced() {
    let mut q = SqliteQueue::open_in_memory(7);
    q.enqueue(&[item("a")]);
    let leased = q.lease(1, Duration::from_secs(300));
    let gen = leased[0].attempts;

    assert!(!q.ack("a", gen + 1));
    assert_eq!(q.counts().leased, 1);

    assert!(q.ack("a", gen));
    assert_eq!(q.counts().done, 1);
    assert!(!q.ack("a", gen), "a closed row stays closed");
}

#[test]
fn job_metadata_roundtrip() {
    let mut q = SqliteQueue::open_in_memory(7);
    assert_eq!(q.job_output_uri(), None);
    assert_eq!(q.job_concurrency(), None);
    q.record_job("in.jsonl", "out.jsonl", 8, 0);
    assert_eq!(q.job_output_uri().as_deref(), Some("out.jsonl"));
    assert_eq!(q.job_concurrency(), Some(8));
    q.record_job("in.jsonl", "other.jsonl", 16, 0);
    assert_eq!(q.job_output_uri().as_deref(), Some("other.jsonl"));
    assert_eq!(q.job_concurrency(), Some(16));
}

#[test]
fn sqlite_enqueue_is_idempotent() {
    let mut q = SqliteQueue::open_in_memory(7);
    assert_eq!(q.enqueue(&[item("a"), item("b")]), 2);
    assert_eq!(q.enqueue(&[item("a"), item("b")]), 0);
    assert_eq!(q.counts().total(), 2);
}

#[test]
fn sqlite_reaper_requeues_expired_leases() {
    let mut q = SqliteQueue::open_in_memory(7);
    q.enqueue(&[item("a"), item("b")]);
    let leased = q.lease_at(2, Duration::from_millis(0), 1_000);
    assert_eq!(leased.len(), 2);

    let requeued = q.reap_at(1_005);
    assert_eq!(requeued, 2);
    let c = q.counts();
    assert_eq!((c.pending, c.leased), (2, 0));
    let released = q.lease_at(2, Duration::from_secs(300), 1_005);
    assert!(released.iter().all(|i| i.attempts == 2));
}

#[test]
fn a_live_lease_is_not_reaped() {
    let mut q = SqliteQueue::open_in_memory(7);
    q.enqueue(&[item("a")]);
    q.lease(1, Duration::from_secs(300));
    assert_eq!(q.reap(), 0);
    assert_eq!(q.counts().leased, 1);
}

#[test]
fn resume_audit_splits_live_from_orphaned_leases() {
    let mut q = SqliteQueue::open_in_memory(7);
    q.enqueue(&[item("a"), item("b"), item("c"), item("d")]);

    let live = q.lease(2, Duration::from_secs(300));
    q.ack(&live[0].custom_id, live[0].attempts);

    q.lease(1, Duration::from_millis(0));

    let now = now_ms();
    let audit = q.resume_audit(now);
    assert_eq!(audit.live_leases, 1, "one unexpired lease is in flight");
    assert_eq!(audit.orphaned_leases, 1, "one expired lease is reclaimable");
    assert_eq!(audit.live_holders.iter().map(|(_, n)| n).sum::<u64>(), 1);

    let c = q.counts();
    assert_eq!(c.pending + audit.orphaned_leases, 2, "reclaimable = pending + orphaned");

    let mut q2 = SqliteQueue::open_in_memory(7);
    q2.enqueue(&[item("x")]);
    let leased = q2.lease(1, Duration::from_secs(300));
    q2.ack(&leased[0].custom_id, leased[0].attempts);
    let clean = q2.resume_audit(now_ms());
    assert_eq!((clean.live_leases, clean.orphaned_leases), (0, 0));
}

#[test]
fn audit_snapshot_matches_separate_counts_and_resume_audit_calls() {
    let mut q = SqliteQueue::open_in_memory(7);
    q.enqueue(&[item("a"), item("b"), item("c")]);
    q.lease(1, Duration::from_secs(300));
    q.lease(1, Duration::from_millis(0));

    let now = now_ms();
    let (counts, audit) = q.audit_snapshot(now);
    assert_eq!(counts, q.counts());
    assert_eq!(audit, q.resume_audit(now));
    assert_eq!(audit.live_leases, 1);
    assert_eq!(audit.orphaned_leases, 1);
    assert_eq!(counts.pending, 1);
}

#[test]
fn sqlite_dead_letter_quarantines() {
    let mut q = SqliteQueue::open_in_memory(7);
    q.enqueue(&[item("poison")]);
    let leased = q.lease(1, Duration::from_secs(300));
    assert_eq!(leased.len(), 1);
    assert!(q.dead_letter("poison", leased[0].attempts, "always 500"));
    let c = q.counts();
    assert_eq!((c.leased, c.dead), (0, 1));
    assert_eq!(q.row("poison").unwrap().last_error.as_deref(), Some("always 500"));
    assert!(q.row("other").is_none());
}

#[test]
fn attempt_histogram_counts_terminal_items_by_attempt() {
    let mut q = SqliteQueue::open_in_memory(7);
    q.enqueue(&[item("a"), item("b"), item("poison")]);

    let first = q.lease_at(2, Duration::from_secs(300), 0);
    for it in &first {
        q.ack(&it.custom_id, it.attempts);
    }
    q.lease_at(1, Duration::from_millis(0), 0);
    q.reap_at(5);
    let again = q.lease_at(1, Duration::from_secs(300), 5);
    assert_eq!(again[0].attempts, 2);
    q.dead_letter("poison", again[0].attempts, "boom");

    assert_eq!(q.attempt_histogram(), vec![(1, 2), (2, 1)]);
}

#[test]
fn failure_breakdown_classifies_dead_items() {
    let mut q = SqliteQueue::open_in_memory(7);
    q.enqueue(&[item("a"), item("b"), item("c")]);
    let leased = q.lease(3, Duration::from_secs(300));
    let att = |id: &str| leased.iter().find(|i| i.custom_id == id).unwrap().attempts;
    q.dead_letter(
        "a",
        att("a"),
        "worker: retries exhausted after 5 attempt(s): HTTP 500 Internal Server Error",
    );
    q.dead_letter(
        "b",
        att("b"),
        "worker: retries exhausted after 5 attempt(s): HTTP 500 Internal Server Error",
    );
    q.dead_letter(
        "c",
        att("c"),
        "worker: retries exhausted after 3 attempt(s): validation failed: not valid JSON",
    );
    assert_eq!(
        q.failure_breakdown(),
        vec![("server_error".to_string(), 2), ("validation".to_string(), 1)]
    );
}

#[test]
fn lease_skips_terminal_and_respects_limit() {
    let mut q = SqliteQueue::open_in_memory(7);
    q.enqueue(&[item("a"), item("b"), item("c"), item("d")]);
    let first = q.lease(2, Duration::from_secs(300));
    q.ack(&first[0].custom_id, first[0].attempts);
    q.ack(&first[1].custom_id, first[1].attempts);
    let second = q.lease(10, Duration::from_secs(300));
    assert_eq!(second.len(), 2);
    let c = q.counts();
    assert_eq!((c.pending, c.leased, c.done), (0, 2, 2));
}

#[test]
fn a_checkpoint_with_one_id_twice_is_refused() {
    let r = SqliteQueue::open(vec![item("a"), item("a")], 7, None, Vec::new());
    match r {
        Err(ForgeError::Queue(m)) => assert_eq!(m, "duplicate custom_id: a"),
        _ => panic!("two rows of one id"),
    }
    let q = SqliteQueue::open(vec![item("a"), item("b")], 7, None, Vec::new());
    assert_eq!(q.ok().map(|q| q.counts().pending), Some(2));
}

#[test]
fn the_furthest_shard_is_the_high_water_mark() {
    let mut q = SqliteQueue::open_in_memory(7);
    for end in [10, 30, 20] {
        q.record_shard(&Shard {
            shard_id: 0,
            byte_offset_start: 0,
            byte_offset_end: end,
            line_start: 0,
            line_end: end / 10,
            lines_hydrated: end / 10,
        });
    }
    assert_eq!(q.hydrated_through(), Some((30, 3)));
}

fn redb() -> RedbQueue {
    RedbQueue::new(7)
}

#[test]
fn redb_backend_enqueue_lease_ack_roundtrip() {
    let mut q = redb();
    assert_eq!(q.enqueue(&[item("a"), item("b"), item("c")]), 3);
    assert_eq!(q.counts().pending, 3);

    let leased = q.lease(2, Duration::from_secs(300));
    assert_eq!(leased.len(), 2);
    assert!(leased.iter().all(|i| i.status == ItemState::Leased && i.attempts == 1));
    assert_eq!(leased[0].body.str_at("model"), Some("m"));
    let c = q.counts();
    assert_eq!((c.pending, c.leased, c.done), (1, 2, 0));

    assert!(q.ack(&leased[0].custom_id, leased[0].attempts));
    let c = q.counts();
    assert_eq!((c.pending, c.leased, c.done), (1, 1, 1));
}

#[test]
fn redb_backend_enqueue_is_idempotent() {
    let mut q = redb();
    assert_eq!(q.enqueue(&[item("a"), item("b")]), 2);
    assert_eq!(q.enqueue(&[item("a"), item("b")]), 0);
    assert_eq!(q.counts().total(), 2);
}

#[test]
fn redb_backend_ack_is_lease_fenced() {
    let mut q = redb();
    q.enqueue(&[item("a")]);
    let leased = q.lease(1, Duration::from_secs(300));
    let gen = leased[0].attempts;

    assert!(!q.ack("a", gen + 1));
    assert_eq!(q.counts().leased, 1);
    assert!(q.ack("a", gen));
    assert_eq!(q.counts().done, 1);
}

#[test]
fn redb_backend_reaper_requeues_expired_leases() {
    let mut q = redb();
    q.enqueue(&[item("a"), item("b")]);
    let leased = q.lease_at(2, Duration::from_millis(0), 1_000);
    assert_eq!(leased.len(), 2);

    assert_eq!(q.reap_at(1_005), 2);
    let c = q.counts();
    assert_eq!((c.pending, c.leased), (2, 0));
    let again = q.lease_at(2, Duration::from_secs(300), 1_005);
    assert!(again.iter().all(|i| i.attempts == 2));
}

#[test]
fn redb_backend_dead_letter_quarantines() {
    let mut q = redb();
    q.enqueue(&[item("poison")]);
    let leased = q.lease(1, Duration::from_secs(300));
    assert!(q.dead_letter("poison", leased[0].attempts, "always 500"));
    let c = q.counts();
    assert_eq!((c.leased, c.dead), (0, 1));
}

#[test]
fn lease_resurfaces_expired_without_explicit_reap() {
    let mut q = redb();
    q.enqueue(&[item("a")]);
    q.lease_at(1, Duration::from_millis(0), 1_000);
    let again = q.lease_at(1, Duration::from_secs(300), 1_005);
    assert_eq!(again.len(), 1);
    assert_eq!(again[0].attempts, 2);
}

#[test]
fn expired_leases_resurface_before_fresh_pending() {
    let mut q = redb();
    q.enqueue(&[item("a")]);
    q.lease_at(1, Duration::from_millis(0), 1_000);
    q.enqueue(&[item("b"), item("c")]);

    let next = q.lease_at(1, Duration::from_secs(300), 1_005);
    assert_eq!(next.len(), 1);
    assert_eq!(next[0].custom_id, "a", "expired item must resurface first");
    assert_eq!(next[0].attempts, 2, "and keep its incremented attempts");
}

#[test]
fn reopen_recovers_state() {
    let mut first = redb();
    first.enqueue(&[item("a"), item("b")]);
    let leased = first.lease(1, Duration::from_secs(300));
    first.ack(&leased[0].custom_id, leased[0].attempts);

    let q = match RedbQueue::open(first.tables(), 8) {
        Opened::Indexed(q) => q,
        Opened::AsStored(_) => panic!("the tables agree"),
    };
    let c = q.counts();
    assert_eq!((c.pending, c.leased, c.done), (1, 0, 1));
    assert_eq!(q.line(), first.line());
}

#[test]
fn redb_tables_are_in_the_order_of_their_keys() {
    let mut first = redb();
    first.enqueue(&[item("b"), item("c"), item("a")]);
    first.lease_at(2, Duration::from_secs(1), 1_000);
    let t = first.tables();
    let ids: Vec<&str> = t.items.iter().map(|e| e.0.as_str()).collect();
    assert_eq!(ids, ["a", "b", "c"]);
    assert_eq!(t.leased, vec![("b".to_string(), 2_000), ("c".to_string(), 2_000)]);
    assert_eq!(t.pending, vec![((1 << 62) + 2, "a".to_string())]);
    assert_eq!(t.counts, first.counts());
    match RedbQueue::open(t, 8) {
        Opened::Indexed(q) => assert_eq!(q.items()[1], first.items()[0]),
        Opened::AsStored(_) => panic!("the tables agree"),
    }
}

#[test]
fn redb_sequence_numbers_are_spent_in_order() {
    let base = 1u64 << 62;
    let mut q = redb();
    assert_eq!(q.sequences(), (base, 0));
    q.enqueue(&[item("a"), item("b"), item("a")]);
    assert_eq!(q.sequences(), (base + 2, 0));
    q.lease_at(2, Duration::from_millis(0), 1_000);
    assert_eq!(q.sequences(), (base + 2, 0));
    assert_eq!(q.reap_at(1_005), 2);
    assert_eq!(q.sequences(), (base + 2, 2));
    let again = q.lease_at(1, Duration::from_millis(0), 1_005);
    assert_eq!(q.lease_at(2, Duration::from_secs(9), 1_010).len(), 2);
    assert_eq!(q.sequences(), (base + 2, 3));
    assert!(!q.ack(&again[0].custom_id, again[0].attempts), "that lease has passed");
    assert!(q.ack("a", 3));
    assert_eq!(q.sequences(), (base + 2, 3));
}

fn as_stored(t: StoredTables) -> TableQueue {
    match RedbQueue::open(t, 8) {
        Opened::AsStored(q) => q,
        Opened::Indexed(_) => panic!("the tables do not agree"),
    }
}

#[test]
fn redb_tables_that_disagree_are_taken_as_they_stand() {
    let mut first = redb();
    first.enqueue(&[item("a"), item("b")]);
    let mut t = first.tables();
    t.items.remove(1);
    t.counts.done = 9;
    let mut q = as_stored(t);
    assert_eq!(q.counts().done, 9);
    let a = q.lease_at(1, Duration::from_secs(1), 1_000).unwrap();
    assert_eq!((a[0].custom_id.as_str(), a[0].leased_by.as_deref()), ("a", Some("forge-8")));
    assert_eq!((q.counts().pending, q.counts().leased), (1, 1));
    match q.lease_at(1, Duration::from_secs(1), 1_000) {
        Err(ForgeError::Queue(m)) => assert_eq!(m, "pending index points at missing item b"),
        _ => panic!("b is not there"),
    }
    assert_eq!(q.tables().pending.len(), 1, "a failed lease leaves the line");
    assert!(q.ack("a", 1).unwrap());
    assert!(!q.ack("a", 1).unwrap());
    assert!(!q.ack("b", 1).unwrap());
    assert_eq!((q.counts().leased, q.counts().done), (0, 10));
    assert_eq!(q.enqueue(&[item("a"), item("b"), item("c")]), 2);
    assert_eq!(q.tables().items.len(), 3);
    assert_eq!(q.counts().pending, 3);
}

#[test]
fn a_lease_without_an_item_fails_once_it_has_passed() {
    let mut first = redb();
    first.enqueue(&[item("b")]);
    first.lease_at(1, Duration::from_millis(0), 1_000);
    let mut t = first.tables();
    t.leased.push(("z".into(), 1_500));
    let mut q = as_stored(t);
    assert_eq!(q.reap_at(1_005).unwrap(), 1);
    assert_eq!(q.tables().requeue_seq, 1);
    assert_eq!(q.tables().pending, vec![(0, "b".to_string())]);
    match q.reap_at(2_000) {
        Err(ForgeError::Queue(m)) => assert_eq!(m, "leased index points at missing item z"),
        _ => panic!("z is not there"),
    }
    let b = q.lease_at(5, Duration::from_secs(9), 1_400).unwrap();
    assert_eq!(b[0].attempts, 2);
    assert!(q.dead_letter("b", 2, "late").unwrap());
    assert_eq!(q.counts().dead, 1);
}

#[test]
fn an_item_that_cannot_be_read_fails_where_it_is_touched() {
    let mut first = redb();
    first.enqueue(&[item("a"), item("b")]);
    let mut t = first.tables();
    t.items[1].1 = Err("expected value".into());
    let mut q = as_stored(t);
    assert_eq!(q.lease_at(1, Duration::from_secs(1), 1_000).unwrap().len(), 1);
    assert!(matches!(q.lease_at(1, Duration::from_secs(1), 1_000), Err(ForgeError::Json(_))));
    assert!(matches!(q.ack("b", 1), Err(ForgeError::Json(_))));
    assert_eq!(q.counts().pending, 1);
}

#[test]
fn fresh_items_are_leased_in_the_order_they_came() {
    let mut q = redb();
    q.enqueue(&[item("z"), item("a")]);
    q.enqueue(&[item("m")]);
    let ids: Vec<String> =
        q.lease_at(10, Duration::from_secs(1), 0).into_iter().map(|i| i.custom_id).collect();
    assert_eq!(ids, ["z", "a", "m"]);
    let row = q.row("z").unwrap();
    assert_eq!((row.leased_until, row.leased_by.as_deref()), (Some(1_000), Some("forge-7")));
}

#[test]
fn both_queues_keep_an_item_leased_until_its_deadline() {
    let mut s = SqliteQueue::open_in_memory(7);
    let mut r = redb();
    s.enqueue(&[item("a")]);
    r.enqueue(&[item("a")]);
    s.lease_at(1, Duration::from_secs(300), 0);
    r.lease_at(1, Duration::from_secs(300), 0);
    assert!(s.lease_at(1, Duration::from_secs(300), 4 * MINUTES).is_empty());
    assert!(r.lease_at(1, Duration::from_secs(300), 4 * MINUTES).is_empty());
    assert_eq!(s.lease_at(1, Duration::from_secs(300), 6 * MINUTES).len(), 1);
    assert_eq!(r.lease_at(1, Duration::from_secs(300), 6 * MINUTES).len(), 1);
}

#[test]
fn redb_status_codes() {
    assert_eq!(status_code(ItemState::Pending), 0);
    assert_eq!(status_code(ItemState::Leased), 1);
    assert_eq!(status_code(ItemState::Done), 2);
    assert_eq!(status_code(ItemState::DeadLetter), 3);
}

#[test]
fn an_abandoned_item_is_leased_again_as_it_was() {
    let mut q = SqliteQueue::open_in_memory(7);
    q.enqueue(&[item("a")]);
    let first = q.lease_at(1, Duration::from_secs(1), 0);
    let again = q.lease_at(1, Duration::from_secs(1), 1_001);
    assert_eq!(again.len(), 1);
    assert_eq!(again[0].attempts, first[0].attempts + 1);
    assert_eq!((&again[0].url, &again[0].body), (&first[0].url, &first[0].body));
    assert!(!q.ack("a", first[0].attempts), "the first holder is fenced off");
}

#[test]
fn a_closed_item_is_never_leased_again() {
    let mut q = redb();
    q.enqueue(&[item("a")]);
    let it = q.lease_at(1, Duration::from_secs(1), 0);
    assert!(q.ack("a", it[0].attempts));
    assert!(q.lease_at(1, Duration::from_secs(1), 10_000).is_empty());
    assert_eq!(q.reap_at(10_000), 0);
}

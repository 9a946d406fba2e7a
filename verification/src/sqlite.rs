//! The primary lease queue: rows in the order in which they were first enqueued, the
//! job metadata, and the ingest checkpoints. The rows are the resume state.

use vstd::prelude::*;

use crate::clock::now_ms;
use crate::duration::Duration;
use crate::error::ForgeError;
use crate::failure::{classify_failure, failure_of, failure_token, FailureKind};
use crate::id_set::IdSet;
use crate::queue::{
    closed_row, coordinator_tag, count_rows, counts_rows, distinct_ids, enqueued, expired_count, find_row,
    fresh_item, handed_out, has_id, holds_lease, is_expired, is_leasable, lease_current,
    lease_deadline, lease_end, leasable_count, leased_row, process_tag, requeued_row, rows_after_close,
    rows_after_lease, rows_after_reap, taken, count_state, QueueCounts,
};
use crate::state::{terminal, ItemState};
use crate::text::{
    ascii_lower, concat2, lemma_lex_total, lemma_lex_transitive, lex_before, opt_view, str_before,
    str_eq,
};
use crate::types::{duplicate_opt, item_views, Item, ItemView, Shard};

verus! {

/// The metadata of the one job of a checkpoint.
#[derive(Debug, Clone, PartialEq, Eq)]
pub struct JobRow {
    pub input_uri: Option<String>,
    pub output_uri: Option<String>,
    pub concurrency: Option<i64>,
    pub created_at: i64,
}

/// The durable queue of one coordinator.
pub struct SqliteQueue {
    rows: Vec<Item>,
    coordinator_id: String,
    job: Option<JobRow>,
    shards: Vec<Shard>,
}

/// The lease-state split of a checkpoint.
#[derive(Debug, Clone, PartialEq, Eq)]
pub struct ResumeAudit {
    /// Leases that a worker still holds.
    pub live_leases: u64,
    /// Leases that have passed: items that a dead worker dropped. More than none is
    /// the fingerprint of an interruption.
    pub orphaned_leases: u64,
    /// The holders of the live leases with their counts, most first.
    pub live_holders: Vec<(String, u64)>,
}

/// The lease of the row is live at `now`.
pub open spec fn live(row: ItemView, now: i64) -> bool {
    &&& row.status == ItemState::Leased
    &&& row.leased_until matches Some(t) && t > now
}

/// The row is leased, but not live at `now`.
pub open spec fn orphaned(row: ItemView, now: i64) -> bool {
    row.status == ItemState::Leased && !live(row, now)
}

/// How many leases are live.
pub open spec fn live_count(rows: Seq<ItemView>, now: i64) -> nat
    decreases rows.len(),
{
    if rows.len() == 0 {
        0
    } else {
        live_count(rows.drop_last(), now) + if live(rows.last(), now) {
            1nat
        } else {
            0nat
        }
    }
}

/// How many leases are orphaned.
pub open spec fn orphaned_count(rows: Seq<ItemView>, now: i64) -> nat
    decreases rows.len(),
{
    if rows.len() == 0 {
        0
    } else {
        orphaned_count(rows.drop_last(), now) + if orphaned(rows.last(), now) {
            1nat
        } else {
            0nat
        }
    }
}

/// How many live leases `holder` has.
pub open spec fn held_count(rows: Seq<ItemView>, now: i64, holder: Option<Seq<char>>) -> nat
    decreases rows.len(),
{
    if rows.len() == 0 {
        0
    } else {
        held_count(rows.drop_last(), now, holder) + if live(rows.last(), now)
            && rows.last().leased_by == holder {
            1nat
        } else {
            0nat
        }
    }
}

/// How a holder is shown.
pub open spec fn holder_name(holder: Option<Seq<char>>) -> Seq<char> {
    match holder {
        Some(n) => n,
        None => "(unknown)"@,
    }
}

/// An unnamed holder stands before a named one, and named ones stand in the order of
/// their names.
pub open spec fn holder_before(a: Option<Seq<char>>, b: Option<Seq<char>>) -> bool {
    match (a, b) {
        (None, Some(_)) => true,
        (Some(x), Some(y)) => lex_before(x, y),
        (_, None) => false,
    }
}

/// `holders` lists the `keys` of the live leases, each once, with their counts; the
/// most leases stand first, and equal ones in the order of their holders.
pub open spec fn lists_holders(
    holders: Seq<(String, u64)>,
    keys: Seq<Option<Seq<char>>>,
    rows: Seq<ItemView>,
    now: i64,
) -> bool {
    &&& keys.len() == holders.len()
    &&& forall|k: int|
        0 <= k < keys.len() ==> (#[trigger] holders[k]).0@ == holder_name(keys[k]) && holders[k].1
            == held_count(rows, now, keys[k]) && holders[k].1 > 0
    &&& forall|i: int|
        0 <= i < rows.len() && live(#[trigger] rows[i], now) ==> keys.contains(rows[i].leased_by)
    &&& forall|j: int, k: int|
        0 <= j < k < keys.len() ==> (#[trigger] holders[j]).1 > (#[trigger] holders[k]).1 || (
        holders[j].1 == holders[k].1 && holder_before(keys[j], keys[k]))
}

/// `a` is the lease-state split of the rows at `now`.
pub open spec fn audits(a: ResumeAudit, rows: Seq<ItemView>, now: i64) -> bool {
    &&& a.live_leases == live_count(rows, now)
    &&& a.orphaned_leases == orphaned_count(rows, now)
    &&& exists|keys: Seq<Option<Seq<char>>>| lists_holders(a.live_holders@, keys, rows, now)
}

/// How many terminal rows took `attempts` attempts.
pub open spec fn terminal_with(rows: Seq<ItemView>, attempts: u32) -> nat
    decreases rows.len(),
{
    if rows.len() == 0 {
        0
    } else {
        terminal_with(rows.drop_last(), attempts) + if terminal(rows.last().status)
            && rows.last().attempts == attempts {
            1nat
        } else {
            0nat
        }
    }
}

/// `h` lists the attempt numbers of the terminal rows in ascending order, with their
/// counts.
pub open spec fn is_histogram(h: Seq<(u32, u64)>, rows: Seq<ItemView>) -> bool {
    &&& forall|j: int, k: int| 0 <= j < k < h.len() ==> (#[trigger] h[j]).0 < (#[trigger] h[k]).0
    &&& forall|k: int|
        0 <= k < h.len() ==> (#[trigger] h[k]).1 == terminal_with(rows, h[k].0) && h[k].1 > 0
    &&& forall|i: int|
        0 <= i < rows.len() && terminal((#[trigger] rows[i]).status) ==> exists|k: int|
            0 <= k < h.len() && (#[trigger] h[k]).0 == rows[i].attempts
}

/// The text of an optional error; empty where there is none.
pub open spec fn error_or_empty(e: Option<Seq<char>>) -> Seq<char> {
    match e {
        Some(t) => t,
        None => seq![],
    }
}

/// The failure category of a dead row.
pub open spec fn row_failure(row: ItemView) -> FailureKind {
    failure_of(ascii_lower(error_or_empty(row.last_error)))
}

/// How many dead rows are of the category `k`.
pub open spec fn failures_of(rows: Seq<ItemView>, k: FailureKind) -> nat
    decreases rows.len(),
{
    if rows.len() == 0 {
        0
    } else {
        failures_of(rows.drop_last(), k) + if rows.last().status == ItemState::DeadLetter
            && row_failure(rows.last()) == k {
            1nat
        } else {
            0nat
        }
    }
}

/// `b` lists the categories `kinds` of the dead rows, each once, with their counts;
/// the most common stands first, and equal ones in the order of their tokens.
pub open spec fn is_breakdown(
    b: Seq<(String, u64)>,
    kinds: Seq<FailureKind>,
    rows: Seq<ItemView>,
) -> bool {
    &&& kinds.len() == b.len()
    &&& forall|k: int|
        0 <= k < b.len() ==> (#[trigger] b[k]).0@ == failure_token(kinds[k]) && b[k].1
            == failures_of(rows, kinds[k]) && b[k].1 > 0
    &&& forall|k: FailureKind| #[trigger] failures_of(rows, k) > 0 ==> kinds.contains(k)
    &&& forall|j: int, k: int|
        0 <= j < k < b.len() ==> (#[trigger] b[j]).1 > (#[trigger] b[k]).1 || (b[j].1 == b[k].1
            && lex_before(b[j].0@, b[k].0@))
}

/// `mark` is the end of a recorded shard, and no other reaches further.
pub open spec fn is_high_water(mark: Option<(u64, u64)>, shards: Seq<Shard>) -> bool {
    match mark {
        None => shards.len() == 0,
        Some((offset, line)) => {
            &&& exists|i: int|
                0 <= i < shards.len() && (#[trigger] shards[i]).byte_offset_end == offset
                    && shards[i].line_end == line
            &&& forall|i: int|
                0 <= i < shards.len() ==> (#[trigger] shards[i]).byte_offset_end <= offset
        },
    }
}

/// A lease of up to `limit` rows at `now`, for `nanos` nanoseconds and by `by`, turns
/// the rows `before` into `after` and hands out `out`.
pub open spec fn lease_effect(
    before: Seq<ItemView>,
    now: i64,
    nanos: nat,
    by: Seq<char>,
    limit: nat,
    after: Seq<ItemView>,
    out: Seq<ItemView>,
) -> bool {
    &&& after == rows_after_lease(before, now, lease_end(now, nanos / 1_000_000), by, limit)
    &&& out == handed_out(before, now, lease_end(now, nanos / 1_000_000), by, limit)
}

impl SqliteQueue {
    /// The rows, in the order in which they were first enqueued.
    pub closed spec fn spec_rows(self) -> Seq<ItemView> {
        item_views(self.rows@)
    }

    /// The tag that leases carry.
    pub closed spec fn spec_coordinator(self) -> Seq<char> {
        self.coordinator_id@
    }

    /// The job metadata.
    pub closed spec fn spec_job(self) -> Option<JobRow> {
        self.job
    }

    /// The ingest checkpoints.
    pub closed spec fn spec_shards(self) -> Seq<Shard> {
        self.shards@
    }

    /// No two rows have the same id.
    pub open spec fn wf(self) -> bool {
        distinct_ids(self.spec_rows())
    }

    /// Everything but the rows is the same.
    pub open spec fn same_but_rows(self, other: SqliteQueue) -> bool {
        &&& self.spec_coordinator() == other.spec_coordinator()
        &&& self.spec_job() == other.spec_job()
        &&& self.spec_shards() == other.spec_shards()
    }

    /// An empty queue of the process with the number `process`.
    pub fn open_in_memory(process: u32) -> (q: Self)
        ensures
            q.wf(),
            q.spec_rows() == Seq::<ItemView>::empty(),
            q.spec_job() is None,
            q.spec_shards() == Seq::<Shard>::empty(),
            q.spec_coordinator() == process_tag(process),
    {
        let q: SqliteQueue = SqliteQueue {
            rows: Vec::new(),
            coordinator_id: coordinator_tag(process),
            job: None,
            shards: Vec::new(),
        };
        assert(item_views(q.rows@) == Seq::<ItemView>::empty());
        q
    }

    /// A queue of the process with the number `process` from what a checkpoint holds. Rows
    /// that share an id are refused.
    pub fn open(
        rows: Vec<Item>,
        process: u32,
        job: Option<JobRow>,
        shards: Vec<Shard>,
    ) -> (r: Result<Self, ForgeError>)
        ensures
            match r {
                Ok(q) => {
                    &&& q.wf()
                    &&& q.spec_rows() == item_views(rows@)
                    &&& q.spec_coordinator() == process_tag(process)
                    &&& q.spec_job() == job
                    &&& q.spec_shards() == shards@
                },
                Err(e) => e is Queue && !distinct_ids(item_views(rows@)),
            },
    {
        let ghost v = item_views(rows@);
        let mut seen: IdSet = IdSet::new();
        let mut i: usize = 0;
        while i < rows.len()
            invariant
                i <= rows@.len(),
                v == item_views(rows@),
                forall|a: int| 0 <= a < i ==> seen@.contains((#[trigger] v[a]).custom_id),
                forall|x: Seq<char>| #[trigger]
                    seen@.contains(x) ==> exists|a: int|
                        0 <= a < i && (#[trigger] v[a]).custom_id == x,
                forall|a: int, b: int|
                    0 <= a < b < i ==> (#[trigger] v[a]).custom_id != (#[trigger] v[b]).custom_id,
            decreases rows@.len() - i,
        {
            assert(v[i as int].custom_id == rows@[i as int].custom_id@);
            if !seen.insert(rows[i].custom_id.as_str()) {
                return Err(
                    ForgeError::Queue(
                        concat2("duplicate custom_id: ", rows[i].custom_id.as_str()),
                    ),
                );
            }
            i = i + 1;
        }
        Ok(SqliteQueue { rows, coordinator_id: coordinator_tag(process), job, shards })
    }

    /// The rows, in the order in which they were first enqueued.
    pub fn items(&self) -> (r: &Vec<Item>)
        ensures
            item_views(r@) == self.spec_rows(),
    {
        &self.rows
    }

    /// The stored row of an id.
    pub fn row(&self, custom_id: &str) -> (r: Option<&Item>)
        ensures
            match r {
                Some(i) => i@.custom_id == custom_id@ && self.spec_rows().contains(i@),
                None => !has_id(self.spec_rows(), custom_id@),
            },
    {
        match find_row(&self.rows, custom_id) {
            Some(i) => {
                assert(self.spec_rows()[i as int] == self.rows@[i as int]@);
                Some(&self.rows[i])
            },
            None => None,
        }
    }

    /// Idempotent hydrate: one pending row per id, skipping ids that are already
    /// there. Returns the number of rows inserted.
    pub fn enqueue(&mut self, items: &[Item]) -> (inserted: u64)
        requires
            old(self).wf(),
        ensures
            final(self).wf(),
            final(self).same_but_rows(*old(self)),
            final(self).spec_rows() == enqueued(old(self).spec_rows(), item_views(items@)),
            inserted == final(self).spec_rows().len() - old(self).spec_rows().len(),
            final(self).spec_rows().len() <= usize::MAX,
    {
        let ghost start = self.spec_rows();
        let ghost all = item_views(items@);
        let mut inserted: u64 = 0;
        let mut i: usize = 0;
        assert(all.take(0) == Seq::<ItemView>::empty());
        while i < items.len()
            invariant
                i <= items@.len(),
                all == item_views(items@),
                start == old(self).spec_rows(),
                self.same_but_rows(*old(self)),
                self.spec_rows() == enqueued(start, all.take(i as int)),
                inserted == self.spec_rows().len() - start.len(),
                inserted <= i,
            decreases items@.len() - i,
        {
            assert(all.take(i + 1).drop_last() == all.take(i as int));
            assert(all.take(i + 1).last() == items@[i as int]@);
            let ghost before = self.spec_rows();
            match find_row(&self.rows, items[i].custom_id.as_str()) {
                Some(k) => {
                    assert(before[k as int] == self.rows@[k as int]@);
                    assert(has_id(before, items@[i as int]@.custom_id));
                },
                None => {
                    let fresh: Item = fresh_item(&items[i]);
                    self.rows.push(fresh);
                    assert(self.spec_rows() == before.push(fresh@));
                    inserted = inserted + 1;
                },
            }
            i = i + 1;
        }
        proof {
            assert(all.take(all.len() as int) == all);
            crate::queue::law_enqueue_keeps_progress(start, all);
        }
        let size: usize = self.rows.len();
        inserted
    }

    /// Leases up to `limit` rows that are pending, or whose lease has passed, at the
    /// instant `now`: in the order of the table, each with one more attempt.
    pub fn lease_at(&mut self, limit: usize, lease_for: Duration, now: i64) -> (out: Vec<Item>)
        requires
            old(self).wf(),
        ensures
            final(self).wf(),
            final(self).same_but_rows(*old(self)),
            lease_effect(
                old(self).spec_rows(),
                now,
                lease_for@,
                old(self).spec_coordinator(),
                limit as nat,
                final(self).spec_rows(),
                item_views(out@),
            ),
    {
        let until: i64 = lease_deadline(now, lease_for);
        let ghost by = self.coordinator_id@;
        let ghost rows = self.spec_rows();
        let ghost lim = limit as nat;
        let ghost after = rows_after_lease(rows, now, until, by, lim);
        let mut out: Vec<Item> = Vec::new();
        let mut i: usize = 0;
        proof {
            assert(rows.take(0) == Seq::<ItemView>::empty());
            assert(item_views(out@) == Seq::<ItemView>::empty());
            crate::queue::law_lease_respects_the_limit(rows.take(0), now, until, by, lim);
        }
        while i < self.rows.len()
            invariant
                i <= self.rows@.len(),
                self.rows@.len() == rows.len(),
                self.same_but_rows(*old(self)),
                by == self.coordinator_id@,
                rows == old(self).spec_rows(),
                lim == limit as nat,
                after == rows_after_lease(rows, now, until, by, lim),
                forall|j: int| 0 <= j < i ==> (#[trigger] self.rows@[j])@ == after[j],
                forall|j: int| i <= j < rows.len() ==> (#[trigger] self.rows@[j])@ == rows[j],
                item_views(out@) == handed_out(rows.take(i as int), now, until, by, lim),
                out@.len() == if leasable_count(rows.take(i as int), now) < lim {
                    leasable_count(rows.take(i as int), now)
                } else {
                    lim
                },
            decreases rows.len() - i,
        {
            let ghost init = rows.take(i as int);
            let ghost next = rows.take(i + 1);
            let ghost prev = out@;
            assert(next.drop_last() == init);
            assert(next.last() == rows[i as int]);
            assert(next.take(i as int) == init);
            assert(self.rows@[i as int]@ == rows[i as int]);
            if is_leasable(&self.rows[i], now) && out.len() < limit {
                let owner: String = self.coordinator_id.clone();
                let attempts: u32 = if self.rows[i].attempts == 0xffff_ffff {
                    0xffff_ffff
                } else {
                    self.rows[i].attempts + 1
                };
                let row: &mut Item = &mut self.rows[i];
                row.status = ItemState::Leased;
                row.leased_until = Some(until);
                row.leased_by = Some(owner);
                row.attempts = attempts;
                assert(self.rows@[i as int]@ == leased_row(rows[i as int], until, by));
                let copy: Item = self.rows[i].duplicate();
                out.push(copy);
                assert(item_views(out@) == item_views(prev).push(copy@));
            }
            proof {
                assert(taken(next, now, lim, i as int) == taken(rows, now, lim, i as int));
            }
            i = i + 1;
        }
        proof {
            assert(rows.take(rows.len() as int) == rows);
            assert(self.spec_rows() == after);
            assert forall|a: int, b: int| 0 <= a < b < after.len() implies (
            #[trigger] after[a]).custom_id != (#[trigger] after[b]).custom_id by {
                assert(rows[a].custom_id != rows[b].custom_id);
            }
        }
        out
    }

    /// Leases up to `limit` rows, now.
    pub fn lease(&mut self, limit: usize, lease_for: Duration) -> (out: Vec<Item>)
        requires
            old(self).wf(),
        ensures
            final(self).wf(),
            final(self).same_but_rows(*old(self)),
            exists|now: i64| #[trigger]
                lease_effect(
                    old(self).spec_rows(),
                    now,
                    lease_for@,
                    old(self).spec_coordinator(),
                    limit as nat,
                    final(self).spec_rows(),
                    item_views(out@),
                ),
    {
        let now: i64 = now_ms();
        self.lease_at(limit, lease_for, now)
    }

    fn close(
        &mut self,
        custom_id: &str,
        attempt: u32,
        to: ItemState,
        error: Option<&str>,
    ) -> (changed: bool)
        requires
            old(self).wf(),
        ensures
            final(self).wf(),
            final(self).same_but_rows(*old(self)),
            changed == lease_current(old(self).spec_rows(), custom_id@, attempt),
            final(self).spec_rows() == rows_after_close(
                old(self).spec_rows(),
                custom_id@,
                attempt,
                to,
                crate::text::opt_str_view(error),
            ),
    {
        let ghost rows = self.spec_rows();
        let ghost why = crate::text::opt_str_view(error);
        let ghost after = rows_after_close(rows, custom_id@, attempt, to, why);
        match find_row(&self.rows, custom_id) {
            Some(i) => {
                assert(rows[i as int] == self.rows@[i as int]@);
                proof {
                    assert forall|j: int| 0 <= j < rows.len() && j != i implies !holds_lease(
                        #[trigger] rows[j],
                        custom_id@,
                        attempt,
                    ) by {
                        if j < i {
                            assert(rows[j].custom_id != rows[i as int].custom_id);
                        } else {
                            assert(rows[i as int].custom_id != rows[j].custom_id);
                        }
                    }
                }
                if self.rows[i].status == ItemState::Leased && self.rows[i].attempts == attempt {
                    assert(holds_lease(rows[i as int], custom_id@, attempt));
                    let kept: Option<String> = match error {
                        Some(e) => Some(e.to_owned()),
                        None => duplicate_opt(&self.rows[i].last_error),
                    };
                    let row: &mut Item = &mut self.rows[i];
                    row.status = to;
                    row.leased_until = None;
                    row.leased_by = None;
                    row.last_error = kept;
                    assert(self.rows@[i as int]@ == closed_row(rows[i as int], to, why));
                    assert(self.spec_rows() == after);
                    proof {
                        assert forall|a: int, b: int| 0 <= a < b < after.len() implies (
                        #[trigger] after[a]).custom_id != (#[trigger] after[b]).custom_id by {
                            assert(rows[a].custom_id != rows[b].custom_id);
                        }
                    }
                    true
                } else {
                    assert(after == rows);
                    false
                }
            },
            None => {
                assert forall|j: int| 0 <= j < rows.len() implies !holds_lease(
                    #[trigger] rows[j],
                    custom_id@,
                    attempt,
                ) by {
                    if rows[j].custom_id == custom_id@ {
                        assert(has_id(rows, custom_id@));
                    }
                }
                assert(after == rows);
                false
            },
        }
    }

    /// Marks a leased row done. To be called only after the result is durably in the
    /// store.
    ///
    /// Fenced by `attempt`, the attempt number that the lease handed out: a stale
    /// holder whose lease has passed to another attempt cannot close the row. Returns
    /// whether the row was closed.
    pub fn ack(&mut self, custom_id: &str, attempt: u32) -> (acked: bool)
        requires
            old(self).wf(),
        ensures
            final(self).wf(),
            final(self).same_but_rows(*old(self)),
            acked == lease_current(old(self).spec_rows(), custom_id@, attempt),
            final(self).spec_rows() == rows_after_close(
                old(self).spec_rows(),
                custom_id@,
                attempt,
                ItemState::Done,
                None,
            ),
    {
        self.close(custom_id, attempt, ItemState::Done, None)
    }

    /// Quarantines a leased row once its retries are exhausted, recording `error`.
    /// Fenced like [`SqliteQueue::ack`].
    pub fn dead_letter(&mut self, custom_id: &str, attempt: u32, error: &str) -> (closed: bool)
        requires
            old(self).wf(),
        ensures
            final(self).wf(),
            final(self).same_but_rows(*old(self)),
            closed == lease_current(old(self).spec_rows(), custom_id@, attempt),
            final(self).spec_rows() == rows_after_close(
                old(self).spec_rows(),
                custom_id@,
                attempt,
                ItemState::DeadLetter,
                Some(error@),
            ),
    {
        self.close(custom_id, attempt, ItemState::DeadLetter, Some(error))
    }

    /// Takes back every lease that has passed at `now`. Returns how many.
    pub fn reap_at(&mut self, now: i64) -> (n: u64)
        requires
            old(self).wf(),
        ensures
            final(self).wf(),
            final(self).same_but_rows(*old(self)),
            final(self).spec_rows() == rows_after_reap(old(self).spec_rows(), now),
            n == expired_count(old(self).spec_rows(), now),
    {
        let ghost rows = self.spec_rows();
        let ghost after = rows_after_reap(rows, now);
        let mut n: u64 = 0;
        let mut i: usize = 0;
        assert(rows.take(0) == Seq::<ItemView>::empty());
        while i < self.rows.len()
            invariant
                i <= self.rows@.len(),
                self.rows@.len() == rows.len(),
                self.same_but_rows(*old(self)),
                rows == old(self).spec_rows(),
                after == rows_after_reap(rows, now),
                forall|j: int| 0 <= j < i ==> (#[trigger] self.rows@[j])@ == after[j],
                forall|j: int| i <= j < rows.len() ==> (#[trigger] self.rows@[j])@ == rows[j],
                n == expired_count(rows.take(i as int), now),
                n <= i,
            decreases rows.len() - i,
        {
            assert(rows.take(i + 1).drop_last() == rows.take(i as int));
            assert(self.rows@[i as int]@ == rows[i as int]);
            if is_expired(&self.rows[i], now) {
                let row: &mut Item = &mut self.rows[i];
                row.status = ItemState::Pending;
                row.leased_until = None;
                row.leased_by = None;
                assert(self.rows@[i as int]@ == requeued_row(rows[i as int]));
                n = n + 1;
            }
            i = i + 1;
        }
        proof {
            assert(rows.take(rows.len() as int) == rows);
            assert(self.spec_rows() == after);
            assert forall|a: int, b: int| 0 <= a < b < after.len() implies (
            #[trigger] after[a]).custom_id != (#[trigger] after[b]).custom_id by {
                assert(rows[a].custom_id != rows[b].custom_id);
            }
        }
        n
    }

    /// Takes back every lease that has passed by now. Returns how many.
    pub fn reap(&mut self) -> (n: u64)
        requires
            old(self).wf(),
        ensures
            final(self).wf(),
            final(self).same_but_rows(*old(self)),
            exists|now: i64|
                final(self).spec_rows() == #[trigger] rows_after_reap(old(self).spec_rows(), now)
                    && n == expired_count(old(self).spec_rows(), now),
    {
        let now: i64 = now_ms();
        self.reap_at(now)
    }

    /// Current cardinalities by state.
    pub fn counts(&self) -> (c: QueueCounts)
        ensures
            counts_rows(c, self.spec_rows()),
            c.sum() == self.spec_rows().len(),
    {
        count_rows(&self.rows)
    }

    /// Records an ingest checkpoint: a shard of the input that has been hydrated. Its
    /// number is given here.
    pub fn record_shard(&mut self, shard: &Shard)
        requires
            old(self).wf(),
        ensures
            final(self).wf(),
            final(self).spec_rows() == old(self).spec_rows(),
            final(self).spec_coordinator() == old(self).spec_coordinator(),
            final(self).spec_job() == old(self).spec_job(),
            final(self).spec_shards() == old(self).spec_shards().push(
                (Shard { shard_id: (old(self).spec_shards().len() + 1) as u64, ..*shard }),
            ),
    {
        let id: u64 = (self.shards.len() as u128 + 1) as u64;
        self.shards.push(Shard { shard_id: id, ..*shard });
    }

    /// The ingest high-water mark: the byte offset and the line number through which
    /// the input has been hydrated.
    pub fn hydrated_through(&self) -> (r: Option<(u64, u64)>)
        ensures
            is_high_water(r, self.spec_shards()),
    {
        if self.shards.len() == 0 {
            return None;
        }
        let mut best: usize = 0;
        let mut i: usize = 1;
        while i < self.shards.len()
            invariant
                best < i <= self.shards@.len(),
                forall|j: int|
                    0 <= j < i ==> (#[trigger] self.shards@[j]).byte_offset_end
                        <= self.shards@[best as int].byte_offset_end,
            decreases self.shards@.len() - i,
        {
            if self.shards[i].byte_offset_end > self.shards[best].byte_offset_end {
                best = i;
            }
            i = i + 1;
        }
        let s: Shard = self.shards[best];
        assert(self.shards@[best as int].byte_offset_end == s.byte_offset_end);
        Some((s.byte_offset_end, s.line_end))
    }

    /// Records this run's job metadata, so that a later resume can reuse the output
    /// path and the per-worker concurrency. A checkpoint holds one job; recording
    /// again replaces it.
    pub fn record_job(&mut self, input_uri: &str, output_uri: &str, concurrency: usize, now: i64)
        requires
            old(self).wf(),
        ensures
            final(self).wf(),
            final(self).spec_rows() == old(self).spec_rows(),
            final(self).spec_coordinator() == old(self).spec_coordinator(),
            final(self).spec_shards() == old(self).spec_shards(),
            final(self).spec_job() matches Some(j) && opt_view(j.input_uri) == Some(input_uri@)
                && opt_view(j.output_uri) == Some(output_uri@) && j.concurrency == Some(
                concurrency as i64,
            ) && j.created_at == now,
    {
        self.job = Some(
            JobRow {
                input_uri: Some(input_uri.to_owned()),
                output_uri: Some(output_uri.to_owned()),
                concurrency: Some(
                    #[verifier::truncate]
                    (concurrency as i64),
                ),
                created_at: now,
            },
        );
    }

    /// The per-worker concurrency that the original run recorded, at least one.
    pub fn job_concurrency(&self) -> (r: Option<usize>)
        ensures
            r == match self.spec_job() {
                Some(j) => match j.concurrency {
                    Some(c) => Some(
                        if c < 1 {
                            1
                        } else {
                            c as usize
                        },
                    ),
                    None => None,
                },
                None => None,
            },
    {
        match &self.job {
            Some(j) => match j.concurrency {
                Some(c) => {
                    if c < 1 {
                        Some(1)
                    } else {
                        Some(
                            #[verifier::truncate]
                            (c as usize),
                        )
                    }
                },
                None => None,
            },
            None => None,
        }
    }

    /// The output path that the original run recorded.
    pub fn job_output_uri(&self) -> (r: Option<String>)
        ensures
            opt_view(r) == match self.spec_job() {
                Some(j) => opt_view(j.output_uri),
                None => None,
            },
    {
        match &self.job {
            Some(j) => duplicate_opt(&j.output_uri),
            None => None,
        }
    }
}

/// A group stands before another: it has the greater count, or the same count and the
/// earlier key.
pub open spec fn group_before(a: (Option<Seq<char>>, u64), b: (Option<Seq<char>>, u64)) -> bool {
    a.1 > b.1 || (a.1 == b.1 && holder_before(a.0, b.0))
}

spec fn group_view(g: (Option<String>, u64)) -> (Option<Seq<char>>, u64) {
    (opt_view(g.0), g.1)
}

proof fn lemma_group_total(a: (Option<Seq<char>>, u64), b: (Option<Seq<char>>, u64))
    requires
        a.0 != b.0,
    ensures
        group_before(a, b) || group_before(b, a),
{
    if let (Some(x), Some(y)) = (a.0, b.0) {
        lemma_lex_total(x, y);
    }
}

proof fn lemma_group_transitive(
    a: (Option<Seq<char>>, u64),
    b: (Option<Seq<char>>, u64),
    c: (Option<Seq<char>>, u64),
)
    requires
        group_before(a, b),
        group_before(b, c),
    ensures
        group_before(a, c),
{
    if a.1 == b.1 && b.1 == c.1 {
        if let (Some(x), Some(y), Some(z)) = (a.0, b.0, c.0) {
            lemma_lex_transitive(x, y, z);
        }
    }
}

fn goes_before(a: &(Option<String>, u64), b: &(Option<String>, u64)) -> (r: bool)
    ensures
        r == group_before(group_view(*a), group_view(*b)),
{
    if a.1 != b.1 {
        return a.1 > b.1;
    }
    match &a.0 {
        Some(x) => match &b.0 {
            Some(y) => str_before(x.as_str(), y.as_str()),
            None => false,
        },
        None => b.0.is_some(),
    }
}

/// The groups have distinct keys.
spec fn distinct_keys(groups: Seq<(Option<String>, u64)>) -> bool {
    forall|j: int, k: int|
        0 <= j < k < groups.len() ==> group_view(#[trigger] groups[j]).0 != group_view(
            #[trigger] groups[k],
        ).0
}

spec fn in_order(groups: Seq<(Option<String>, u64)>) -> bool {
    forall|j: int, k: int|
        0 <= j < k < groups.len() ==> group_before(
            group_view(#[trigger] groups[j]),
            group_view(#[trigger] groups[k]),
        )
}

fn sort_groups(groups: Vec<(Option<String>, u64)>) -> (sorted: Vec<(Option<String>, u64)>)
    requires
        distinct_keys(groups@),
    ensures
        in_order(sorted@),
        sorted@.len() == groups@.len(),
        forall|k: int| 0 <= k < sorted@.len() ==> groups@.contains(#[trigger] sorted@[k]),
        forall|j: int| 0 <= j < groups@.len() ==> sorted@.contains(#[trigger] groups@[j]),
{
    let ghost all = groups@;
    let mut sorted: Vec<(Option<String>, u64)> = Vec::new();
    for g in it: groups
        invariant
            it.seq() == all,
            distinct_keys(all),
            in_order(sorted@),
            sorted@.len() == it.index(),
            forall|k: int|
                0 <= k < sorted@.len() ==> all.take(it.index() as int).contains(
                    #[trigger] sorted@[k],
                ),
            forall|j: int| 0 <= j < it.index() ==> sorted@.contains(#[trigger] all[j]),
    {
        let ghost n = it.index() as int;
        let ghost prev = sorted@;
        let mut at: usize = sorted.len();
        proof {
            assert forall|k: int| 0 <= k < prev.len() implies group_view(
                #[trigger] prev[k],
            ).0 != group_view(g).0 by {
                let m = choose|m: int| 0 <= m < n && all.take(n)[m] == prev[k];
                assert(all.take(n).contains(prev[k]));
                assert(all[m] == prev[k]);
                assert(all[n] == g);
            }
        }
        while at > 0 && goes_before(&g, &sorted[at - 1])
            invariant
                at <= sorted@.len(),
                sorted@ == prev,
                in_order(prev),
                forall|k: int|
                    at <= k < prev.len() ==> group_before(
                        group_view(g),
                        group_view(#[trigger] prev[k]),
                    ),
            decreases at,
        {
            at = at - 1;
        }
        proof {
            if at > 0 {
                lemma_group_total(group_view(prev[at - 1]), group_view(g));
            }
            assert forall|k: int| 0 <= k < at implies group_before(
                group_view(#[trigger] prev[k]),
                group_view(g),
            ) by {
                if k < at - 1 {
                    lemma_group_transitive(
                        group_view(prev[k]),
                        group_view(prev[at - 1]),
                        group_view(g),
                    );
                }
            }
        }
        sorted.insert(at, g);
        proof {
            let now = sorted@;
            assert(now == prev.insert(at as int, g));
            assert forall|j: int, k: int| 0 <= j < k < now.len() implies group_before(
                group_view(#[trigger] now[j]),
                group_view(#[trigger] now[k]),
            ) by {
                if j != at && k != at {
                    let pj = if j < at { j } else { j - 1 };
                    let pk = if k < at { k } else { k - 1 };
                    assert(now[j] == prev[pj] && now[k] == prev[pk]);
                } else if j == at {
                    assert(now[k] == prev[k - 1]);
                } else {
                    assert(now[j] == prev[j]);
                }
            }
            assert forall|k: int| 0 <= k < now.len() implies all.take(n + 1).contains(
                #[trigger] now[k],
            ) by {
                if k == at {
                    assert(all.take(n + 1)[n] == g);
                } else {
                    let pk = if k < at { k } else { k - 1 };
                    assert(now[k] == prev[pk]);
                    assert(all.take(n).contains(prev[pk]));
                    let m = choose|m: int| 0 <= m < n && all.take(n)[m] == prev[pk];
                    assert(all.take(n + 1)[m] == prev[pk]);
                }
            }
            assert forall|j: int| 0 <= j < n + 1 implies now.contains(#[trigger] all[j]) by {
                if j == n {
                    assert(now[at as int] == all[j]);
                } else {
                    assert(prev.contains(all[j]));
                    let m = choose|m: int| 0 <= m < prev.len() && prev[m] == all[j];
                    let p = if m < at { m } else { m + 1 };
                    assert(now[p] == all[j]);
                }
            }
        }
    }
    assert(all.take(all.len() as int) == all);
    sorted
}

/// `groups` counts the live leases among `rows` by holder.
spec fn groups_holders(
    groups: Seq<(Option<String>, u64)>,
    rows: Seq<ItemView>,
    now: i64,
) -> bool {
    &&& distinct_keys(groups)
    &&& forall|k: int|
        0 <= k < groups.len() ==> (#[trigger] groups[k]).1 == held_count(
            rows,
            now,
            opt_view(groups[k].0),
        ) && groups[k].1 > 0
    &&& forall|i: int|
        0 <= i < rows.len() && live(#[trigger] rows[i], now) ==> exists|k: int|
            0 <= k < groups.len() && opt_view((#[trigger] groups[k]).0) == rows[i].leased_by
}

fn same_opt(a: &Option<String>, b: &Option<String>) -> (r: bool)
    ensures
        r == (opt_view(*a) == opt_view(*b)),
{
    match a {
        Some(x) => match b {
            Some(y) => str_eq(x.as_str(), y.as_str()),
            None => false,
        },
        None => b.is_none(),
    }
}

fn is_live(row: &Item, now: i64) -> (r: bool)
    ensures
        r == live(row@, now),
{
    row.status == ItemState::Leased && match row.leased_until {
        Some(t) => t > now,
        None => false,
    }
}

fn group_holders(rows: &Vec<Item>, now: i64) -> (groups: Vec<(Option<String>, u64)>)
    ensures
        groups_holders(groups@, item_views(rows@), now),
{
    let ghost v = item_views(rows@);
    let mut groups: Vec<(Option<String>, u64)> = Vec::new();
    let mut i: usize = 0;
    assert(v.take(0) == Seq::<ItemView>::empty());
    while i < rows.len()
        invariant
            i <= rows@.len(),
            v == item_views(rows@),
            groups_holders(groups@, v.take(i as int), now),
            forall|k: int| 0 <= k < groups@.len() ==> (#[trigger] groups@[k]).1 <= i,
        decreases rows@.len() - i,
    {
        let ghost init = v.take(i as int);
        let ghost next = v.take(i + 1);
        let ghost prev = groups@;
        assert(next.drop_last() == init);
        assert(next.last() == rows@[i as int]@);
        assert forall|j: int| 0 <= j < i implies next[j] == init[j] by {}
        if is_live(&rows[i], now) {
            let ghost key = rows@[i as int]@.leased_by;
            let mut k: usize = 0;
            while k < groups.len() && !same_opt(&groups[k].0, &rows[i].leased_by)
                invariant
                    i < rows@.len(),
                    key == rows@[i as int]@.leased_by,
                    groups@ == prev,
                    k <= groups@.len(),
                    forall|j: int| 0 <= j < k ==> opt_view((#[trigger] prev[j]).0) != key,
                decreases groups@.len() - k,
            {
                k = k + 1;
            }
            if k < groups.len() {
                let g: &mut (Option<String>, u64) = &mut groups[k];
                g.1 = g.1 + 1;
                proof {
                    assert(groups@[k as int].0 == prev[k as int].0);
                    assert forall|j: int| 0 <= j < groups@.len() && j != k implies opt_view(
                        (#[trigger] groups@[j]).0,
                    ) != key by {
                        assert(groups@[j] == prev[j]);
                        assert(group_view(prev[j]).0 != group_view(prev[k as int]).0);
                    }
                    assert forall|a: int, b: int| 0 <= a < b < groups@.len() implies group_view(
                        #[trigger] groups@[a],
                    ).0 != group_view(#[trigger] groups@[b]).0 by {
                        assert(group_view(prev[a]).0 != group_view(prev[b]).0);
                    }
                }
            } else {
                let owner: Option<String> = duplicate_opt(&rows[i].leased_by);
                groups.push((owner, 1));
                proof {
                    lemma_no_group_no_count(prev, init, now, key);
                    assert forall|a: int, b: int| 0 <= a < b < groups@.len() implies group_view(
                        #[trigger] groups@[a],
                    ).0 != group_view(#[trigger] groups@[b]).0 by {
                        if b < prev.len() {
                            assert(group_view(prev[a]).0 != group_view(prev[b]).0);
                        }
                    }
                }
            }
            proof {
                assert(opt_view(groups@[k as int].0) == key);
                assert forall|m: int| 0 <= m < next.len() && live(
                    #[trigger] next[m],
                    now,
                ) implies exists|q: int|
                    0 <= q < groups@.len() && opt_view((#[trigger] groups@[q]).0)
                        == next[m].leased_by by {
                    if m < i {
                        assert(live(init[m], now));
                        let q = choose|q: int|
                            0 <= q < prev.len() && opt_view((#[trigger] prev[q]).0)
                                == init[m].leased_by;
                        assert(opt_view(groups@[q].0) == opt_view(prev[q].0));
                    } else {
                        assert(opt_view(groups@[k as int].0) == next[m].leased_by);
                    }
                }
            }
        } else {
            proof {
                assert forall|m: int| 0 <= m < next.len() && live(
                    #[trigger] next[m],
                    now,
                ) implies exists|q: int|
                    0 <= q < groups@.len() && opt_view((#[trigger] groups@[q]).0)
                        == next[m].leased_by by {
                    assert(m < i);
                    assert(live(init[m], now));
                }
            }
        }
        i = i + 1;
    }
    assert(v.take(v.len() as int) == v);
    groups
}

/// A holder without a group has no live lease.
proof fn lemma_no_group_no_count(
    groups: Seq<(Option<String>, u64)>,
    rows: Seq<ItemView>,
    now: i64,
    key: Option<Seq<char>>,
)
    requires
        forall|i: int|
            0 <= i < rows.len() && live(#[trigger] rows[i], now) ==> exists|k: int|
                0 <= k < groups.len() && opt_view((#[trigger] groups[k]).0) == rows[i].leased_by,
        forall|k: int| 0 <= k < groups.len() ==> opt_view((#[trigger] groups[k]).0) != key,
    ensures
        held_count(rows, now, key) == 0,
    decreases rows.len(),
{
    if rows.len() > 0 {
        let init = rows.drop_last();
        assert forall|i: int| 0 <= i < init.len() && live(
            #[trigger] init[i],
            now,
        ) implies exists|k: int|
            0 <= k < groups.len() && opt_view((#[trigger] groups[k]).0) == init[i].leased_by by {
            assert(live(rows[i], now));
        }
        lemma_no_group_no_count(groups, init, now, key);
        if live(rows.last(), now) {
            assert(live(rows[rows.len() - 1], now));
        }
    }
}

impl SqliteQueue {
    /// Resume-readiness audit: the leases split into those that are live at `now` and
    /// those that a dead worker dropped, with the holders of the live ones.
    pub fn resume_audit(&self, now: i64) -> (a: ResumeAudit)
        ensures
            audits(a, self.spec_rows(), now),
    {
        let ghost v = self.spec_rows();
        let mut live_leases: u64 = 0;
        let mut orphaned_leases: u64 = 0;
        let mut i: usize = 0;
        assert(v.take(0) == Seq::<ItemView>::empty());
        while i < self.rows.len()
            invariant
                i <= self.rows@.len(),
                v == self.spec_rows(),
                live_leases == live_count(v.take(i as int), now),
                orphaned_leases == orphaned_count(v.take(i as int), now),
                live_leases <= i,
                orphaned_leases <= i,
            decreases self.rows@.len() - i,
        {
            assert(v.take(i + 1).drop_last() == v.take(i as int));
            assert(v.take(i + 1).last() == self.rows@[i as int]@);
            if self.rows[i].status == ItemState::Leased {
                if is_live(&self.rows[i], now) {
                    live_leases = live_leases + 1;
                } else {
                    orphaned_leases = orphaned_leases + 1;
                }
            }
            i = i + 1;
        }
        assert(v.take(v.len() as int) == v);
        let groups: Vec<(Option<String>, u64)> = group_holders(&self.rows, now);
        let ghost gs = groups@;
        let sorted: Vec<(Option<String>, u64)> = sort_groups(groups);
        let ghost ss = sorted@;
        let ghost keys = Seq::new(ss.len(), |k: int| opt_view(ss[k].0));
        let mut live_holders: Vec<(String, u64)> = Vec::new();
        for g in it: sorted
            invariant
                it.seq() == ss,
                live_holders@.len() == it.index(),
                forall|k: int|
                    0 <= k < it.index() ==> (#[trigger] live_holders@[k]).0@ == holder_name(
                        opt_view(ss[k].0),
                    ) && live_holders@[k].1 == ss[k].1,
        {
            let (key, n) = g;
            let name: String = match key {
                Some(s) => s,
                None => "(unknown)".to_owned(),
            };
            live_holders.push((name, n));
        }
        proof {
            assert forall|k: int| 0 <= k < keys.len() implies (#[trigger] live_holders@[k]).1
                == held_count(v, now, keys[k]) && live_holders@[k].1 > 0 by {
                assert(gs.contains(ss[k]));
            }
            assert forall|i: int| 0 <= i < v.len() && live(
                #[trigger] v[i],
                now,
            ) implies keys.contains(v[i].leased_by) by {
                let q = choose|q: int|
                    0 <= q < gs.len() && opt_view((#[trigger] gs[q]).0) == v[i].leased_by;
                assert(ss.contains(gs[q]));
                let k = choose|k: int| 0 <= k < ss.len() && ss[k] == gs[q];
                assert(keys[k] == v[i].leased_by);
            }
            assert forall|j: int, k: int| 0 <= j < k < keys.len() implies (
            #[trigger] live_holders@[j]).1 > (#[trigger] live_holders@[k]).1 || (
            live_holders@[j].1 == live_holders@[k].1 && holder_before(keys[j], keys[k])) by {
                assert(group_before(group_view(ss[j]), group_view(ss[k])));
            }
            assert(lists_holders(live_holders@, keys, v, now));
        }
        let a: ResumeAudit = ResumeAudit { live_leases, orphaned_leases, live_holders };
        assert(lists_holders(a.live_holders@, keys, v, now));
        assert(a.live_leases == live_count(v, now));
        assert(a.orphaned_leases == orphaned_count(v, now));
        a
    }

    /// The counts and the audit of one snapshot.
    pub fn audit_snapshot(&self, now: i64) -> (r: (QueueCounts, ResumeAudit))
        ensures
            counts_rows(r.0, self.spec_rows()),
            r.0.sum() == self.spec_rows().len(),
            audits(r.1, self.spec_rows(), now),
    {
        (self.counts(), self.resume_audit(now))
    }

    /// The distribution of attempt counts over terminal rows, in ascending order.
    pub fn attempt_histogram(&self) -> (h: Vec<(u32, u64)>)
        ensures
            is_histogram(h@, self.spec_rows()),
    {
        let ghost v = self.spec_rows();
        let mut h: Vec<(u32, u64)> = Vec::new();
        let mut i: usize = 0;
        assert(v.take(0) == Seq::<ItemView>::empty());
        while i < self.rows.len()
            invariant
                i <= self.rows@.len(),
                v == self.spec_rows(),
                is_histogram(h@, v.take(i as int)),
                forall|k: int| 0 <= k < h@.len() ==> (#[trigger] h@[k]).1 <= i,
            decreases self.rows@.len() - i,
        {
            let ghost init = v.take(i as int);
            let ghost next = v.take(i + 1);
            let ghost prev = h@;
            assert(next.drop_last() == init);
            assert(next.last() == self.rows@[i as int]@);
            assert forall|j: int| 0 <= j < i implies next[j] == init[j] by {}
            if self.rows[i].status.is_terminal() {
                let a: u32 = self.rows[i].attempts;
                let mut k: usize = 0;
                while k < h.len() && h[k].0 < a
                    invariant
                        k <= h@.len(),
                        h@ == prev,
                        forall|j: int| 0 <= j < k ==> (#[trigger] prev[j]).0 < a,
                    decreases h@.len() - k,
                {
                    k = k + 1;
                }
                if k < h.len() && h[k].0 == a {
                    let n: u64 = h[k].1 + 1;
                    h.set(k, (a, n));
                } else {
                    proof {
                        lemma_no_bin_no_count(prev, init, a, k as int);
                    }
                    h.insert(k, (a, 1));
                    assert(h@ == prev.insert(k as int, (a, 1)));
                    assert forall|p: int, q: int| 0 <= p < q < h@.len() implies (
                    #[trigger] h@[p]).0 < (#[trigger] h@[q]).0 by {
                        let pp = if p < k { p } else { p - 1 };
                        let qq = if q < k { q } else { q - 1 };
                        if p != k {
                            assert(h@[p] == prev[pp]);
                        }
                        if q != k {
                            assert(h@[q] == prev[qq]);
                        }
                        if p == k {
                            assert(prev[k as int].0 > a);
                        }
                    }
                    assert forall|p: int| 0 <= p < h@.len() && p != k implies (
                    #[trigger] h@[p]).0 != a && h@[p].1 == terminal_with(init, h@[p].0) && h@[p].1
                        > 0 && h@[p].1 <= i by {
                        let pp = if p < k { p } else { p - 1 };
                        assert(h@[p] == prev[pp]);
                        if p > k {
                            assert(prev[pp].0 >= prev[k as int].0);
                        }
                    }
                }
                proof {
                    assert(h@[k as int].0 == a);
                    assert forall|m: int| 0 <= m < next.len() && terminal(
                        (#[trigger] next[m]).status,
                    ) implies exists|q: int|
                        0 <= q < h@.len() && (#[trigger] h@[q]).0 == next[m].attempts by {
                        if m < i {
                            assert(terminal(init[m].status));
                            let q = choose|q: int|
                                0 <= q < prev.len() && (#[trigger] prev[q]).0 == init[m].attempts;
                            if h@.len() == prev.len() {
                                assert(h@[q].0 == prev[q].0);
                            } else {
                                let p = if q < k { q } else { q + 1 };
                                assert(h@[p] == prev[q]);
                            }
                        } else {
                            assert(h@[k as int].0 == next[m].attempts);
                        }
                    }
                }
            } else {
                proof {
                    assert forall|m: int| 0 <= m < next.len() && terminal(
                        (#[trigger] next[m]).status,
                    ) implies exists|q: int|
                        0 <= q < h@.len() && (#[trigger] h@[q]).0 == next[m].attempts by {
                        assert(m < i);
                        assert(terminal(init[m].status));
                    }
                }
            }
            i = i + 1;
        }
        assert(v.take(v.len() as int) == v);
        h
    }
}

/// An attempt number without a bin has no terminal row.
proof fn lemma_no_bin_no_count(h: Seq<(u32, u64)>, rows: Seq<ItemView>, a: u32, k: int)
    requires
        0 <= k <= h.len(),
        is_histogram(h, rows),
        forall|j: int| 0 <= j < k ==> (#[trigger] h[j]).0 < a,
        k < h.len() ==> h[k].0 > a,
    ensures
        terminal_with(rows, a) == 0,
{
    assert forall|j: int| 0 <= j < h.len() implies (#[trigger] h[j]).0 != a by {
        if j > k {
            assert(h[k].0 < h[j].0);
        }
    }
    lemma_no_terminal_with(h, rows, a);
}

proof fn lemma_no_terminal_with(h: Seq<(u32, u64)>, rows: Seq<ItemView>, a: u32)
    requires
        forall|j: int| 0 <= j < h.len() ==> (#[trigger] h[j]).0 != a,
        forall|i: int|
            0 <= i < rows.len() && terminal((#[trigger] rows[i]).status) ==> exists|k: int|
                0 <= k < h.len() && (#[trigger] h[k]).0 == rows[i].attempts,
    ensures
        terminal_with(rows, a) == 0,
    decreases rows.len(),
{
    if rows.len() > 0 {
        let init = rows.drop_last();
        assert forall|i: int| 0 <= i < init.len() && terminal(
            (#[trigger] init[i]).status,
        ) implies exists|k: int|
            0 <= k < h.len() && (#[trigger] h[k]).0 == init[i].attempts by {
            assert(terminal(rows[i].status));
        }
        lemma_no_terminal_with(h, init, a);
        if terminal(rows.last().status) {
            assert(terminal(rows[rows.len() - 1].status));
        }
    }
}

proof fn lemma_failure_tokens_distinct(a: FailureKind, b: FailureKind)
    requires
        failure_token(a) == failure_token(b),
    ensures
        a == b,
{
    reveal_strlit("validation");
    reveal_strlit("rate_limited");
    reveal_strlit("timeout");
    reveal_strlit("connection");
    reveal_strlit("client_error");
    reveal_strlit("server_error");
    reveal_strlit("other");
    let s = failure_token(a);
    assert("validation"@.len() == 10 && "validation"@[0] == 'v');
    assert("rate_limited"@.len() == 12 && "rate_limited"@[0] == 'r');
    assert("timeout"@.len() == 7);
    assert("connection"@.len() == 10 && "connection"@[0] == 'c');
    assert("client_error"@.len() == 12 && "client_error"@[0] == 'c');
    assert("server_error"@.len() == 12 && "server_error"@[0] == 's');
    assert("other"@.len() == 5);
}

fn count_failures(rows: &Vec<Item>, kind: FailureKind) -> (n: u64)
    ensures
        n == failures_of(item_views(rows@), kind),
{
    let ghost v = item_views(rows@);
    let mut n: u64 = 0;
    let mut i: usize = 0;
    assert(v.take(0) == Seq::<ItemView>::empty());
    while i < rows.len()
        invariant
            i <= rows@.len(),
            v == item_views(rows@),
            n == failures_of(v.take(i as int), kind),
            n <= i,
        decreases rows@.len() - i,
    {
        assert(v.take(i + 1).drop_last() == v.take(i as int));
        assert(v.take(i + 1).last() == rows@[i as int]@);
        if rows[i].status == ItemState::DeadLetter {
            let k: FailureKind = match &rows[i].last_error {
                Some(e) => classify_failure(e.as_str()),
                None => {
                    let none: String = String::new();
                    classify_failure(none.as_str())
                },
            };
            if k == kind {
                n = n + 1;
            }
        }
        i = i + 1;
    }
    assert(v.take(v.len() as int) == v);
    n
}

/// The group is that of the category `kind`, which has dead rows.
spec fn is_failure_group(g: (Option<String>, u64), kind: FailureKind, rows: Seq<ItemView>) -> bool {
    opt_view(g.0) == Some(failure_token(kind)) && g.1 == failures_of(rows, kind) && g.1 > 0
}

/// The group is that of some category with dead rows.
spec fn some_failure_group(g: (Option<String>, u64), rows: Seq<ItemView>) -> bool {
    exists|kind: FailureKind| is_failure_group(g, kind, rows)
}

/// The group of `kind` is in the list if that category has dead rows.
spec fn has_failure_group(
    groups: Seq<(Option<String>, u64)>,
    kind: FailureKind,
    rows: Seq<ItemView>,
) -> bool {
    failures_of(rows, kind) > 0 ==> exists|k: int|
        0 <= k < groups.len() && is_failure_group(#[trigger] groups[k], kind, rows)
}

fn push_failures(groups: &mut Vec<(Option<String>, u64)>, rows: &Vec<Item>, kind: FailureKind)
    requires
        distinct_keys(old(groups)@),
        forall|k: int|
            0 <= k < old(groups)@.len() ==> opt_view((#[trigger] old(groups)@[k]).0) != Some(
                failure_token(kind),
            ),
    ensures
        distinct_keys(final(groups)@),
        old(groups)@.len() <= final(groups)@.len() <= old(groups)@.len() + 1,
        final(groups)@.take(old(groups)@.len() as int) == old(groups)@,
        final(groups)@.len() > old(groups)@.len() ==> is_failure_group(
            final(groups)@.last(),
            kind,
            item_views(rows@),
        ),
        has_failure_group(final(groups)@, kind, item_views(rows@)),
{
    let n: u64 = count_failures(rows, kind);
    let ghost prev = groups@;
    if n > 0 {
        groups.push((Some(kind.as_str().to_owned()), n));
        assert(is_failure_group(groups@[prev.len() as int], kind, item_views(rows@)));
        assert(groups@.take(prev.len() as int) == prev);
        assert forall|a: int, b: int| 0 <= a < b < groups@.len() implies group_view(
            #[trigger] groups@[a],
        ).0 != group_view(#[trigger] groups@[b]).0 by {
            assert(groups@[a] == prev[a]);
            if b < prev.len() {
                assert(groups@[b] == prev[b]);
                assert(group_view(prev[a]).0 != group_view(prev[b]).0);
            }
        }
    } else {
        assert(groups@.take(prev.len() as int) == prev);
    }
}

/// The group is that of one of the categories in `done`.
spec fn of_failure_kind(
    g: (Option<String>, u64),
    done: Seq<FailureKind>,
    rows: Seq<ItemView>,
) -> bool {
    exists|k: int| 0 <= k < done.len() && is_failure_group(g, #[trigger] done[k], rows)
}

/// `groups` holds the groups of the categories in `done`, and no others.
spec fn failure_groups(
    groups: Seq<(Option<String>, u64)>,
    done: Seq<FailureKind>,
    rows: Seq<ItemView>,
) -> bool {
    &&& distinct_keys(groups)
    &&& forall|k: int|
        0 <= k < groups.len() ==> of_failure_kind(#[trigger] groups[k], done, rows)
    &&& forall|k: int|
        0 <= k < done.len() ==> has_failure_group(groups, #[trigger] done[k], rows)
}

proof fn lemma_failure_groups_step(
    before: Seq<(Option<String>, u64)>,
    after: Seq<(Option<String>, u64)>,
    done: Seq<FailureKind>,
    kind: FailureKind,
    rows: Seq<ItemView>,
)
    requires
        failure_groups(before, done, rows),
        distinct_keys(after),
        before.len() <= after.len() <= before.len() + 1,
        after.take(before.len() as int) == before,
        after.len() > before.len() ==> is_failure_group(after.last(), kind, rows),
        has_failure_group(after, kind, rows),
    ensures
        failure_groups(after, done.push(kind), rows),
{
    let next = done.push(kind);
    assert forall|k: int| 0 <= k < after.len() implies of_failure_kind(
        #[trigger] after[k],
        next,
        rows,
    ) by {
        if k < before.len() {
            assert(after[k] == before[k]);
            assert(of_failure_kind(before[k], done, rows));
            let x = choose|x: int|
                0 <= x < done.len() && is_failure_group(before[k], #[trigger] done[x], rows);
            assert(is_failure_group(after[k], next[x], rows));
        } else {
            assert(is_failure_group(after[k], next[done.len() as int], rows));
        }
    }
    assert forall|x: int| 0 <= x < next.len() implies has_failure_group(
        after,
        #[trigger] next[x],
        rows,
    ) by {
        if x < done.len() && failures_of(rows, next[x]) > 0 {
            assert(has_failure_group(before, done[x], rows));
            let k = choose|k: int|
                0 <= k < before.len() && is_failure_group(#[trigger] before[k], done[x], rows);
            assert(after[k] == before[k]);
            assert(is_failure_group(after[k], next[x], rows));
        }
    }
}

fn all_kinds() -> (kinds: Vec<FailureKind>)
    ensures
        forall|j: int, k: int| 0 <= j < k < kinds@.len() ==> kinds@[j] != kinds@[k],
        forall|k: FailureKind| kinds@.contains(k),
{
    let kinds: Vec<FailureKind> = vec![
        FailureKind::Validation,
        FailureKind::RateLimited,
        FailureKind::Timeout,
        FailureKind::Connection,
        FailureKind::ClientError,
        FailureKind::ServerError,
        FailureKind::Other,
    ];
    assert forall|k: FailureKind| kinds@.contains(k) by {
        assert(kinds@[0] == FailureKind::Validation);
        assert(kinds@[1] == FailureKind::RateLimited);
        assert(kinds@[2] == FailureKind::Timeout);
        assert(kinds@[3] == FailureKind::Connection);
        assert(kinds@[4] == FailureKind::ClientError);
        assert(kinds@[5] == FailureKind::ServerError);
        assert(kinds@[6] == FailureKind::Other);
    }
    kinds
}

fn group_failures(rows: &Vec<Item>) -> (groups: Vec<(Option<String>, u64)>)
    ensures
        distinct_keys(groups@),
        forall|k: int|
            0 <= k < groups@.len() ==> some_failure_group(#[trigger] groups@[k], item_views(rows@)),
        forall|x: FailureKind| #[trigger]
            failures_of(item_views(rows@), x) > 0 ==> has_failure_group(
                groups@,
                x,
                item_views(rows@),
            ),
{
    let ghost v = item_views(rows@);
    let kinds: Vec<FailureKind> = all_kinds();
    let mut groups: Vec<(Option<String>, u64)> = Vec::new();
    let mut i: usize = 0;
    while i < kinds.len()
        invariant
            i <= kinds@.len(),
            v == item_views(rows@),
            forall|j: int, k: int| 0 <= j < k < kinds@.len() ==> kinds@[j] != kinds@[k],
            failure_groups(groups@, kinds@.take(i as int), v),
        decreases kinds@.len() - i,
    {
        let ghost prev = groups@;
        let ghost done = kinds@.take(i as int);
        proof {
            assert forall|k: int| 0 <= k < prev.len() implies opt_view((#[trigger] prev[k]).0)
                != Some(failure_token(kinds@[i as int])) by {
                assert(of_failure_kind(prev[k], done, v));
                let x = choose|x: int|
                    0 <= x < done.len() && is_failure_group(prev[k], #[trigger] done[x], v);
                if failure_token(done[x]) == failure_token(kinds@[i as int]) {
                    lemma_failure_tokens_distinct(done[x], kinds@[i as int]);
                    assert(kinds@[x] != kinds@[i as int]);
                }
            }
        }
        push_failures(&mut groups, rows, kinds[i]);
        proof {
            lemma_failure_groups_step(prev, groups@, done, kinds@[i as int], v);
            assert(kinds@.take(i + 1) == done.push(kinds@[i as int]));
        }
        i = i + 1;
    }
    proof {
        assert(kinds@.take(kinds@.len() as int) == kinds@);
        assert forall|k: int| 0 <= k < groups@.len() implies some_failure_group(
            #[trigger] groups@[k],
            v,
        ) by {
            assert(of_failure_kind(groups@[k], kinds@, v));
            let x = choose|x: int|
                0 <= x < kinds@.len() && is_failure_group(groups@[k], #[trigger] kinds@[x], v);
            assert(is_failure_group(groups@[k], kinds@[x], v));
        }
        assert forall|x: FailureKind| #[trigger] failures_of(v, x) > 0 implies has_failure_group(
            groups@,
            x,
            v,
        ) by {
            assert(kinds@.contains(x));
            let m = choose|m: int| 0 <= m < kinds@.len() && kinds@[m] == x;
            assert(has_failure_group(groups@, kinds@[m], v));
        }
    }
    groups
}

impl SqliteQueue {
    /// The dead rows by classified failure reason, most common first.
    pub fn failure_breakdown(&self) -> (b: Vec<(String, u64)>)
        ensures
            exists|kinds: Seq<FailureKind>| is_breakdown(b@, kinds, self.spec_rows()),
    {
        let ghost rows = self.spec_rows();
        let groups: Vec<(Option<String>, u64)> = group_failures(&self.rows);
        let ghost gs = groups@;
        let sorted: Vec<(Option<String>, u64)> = sort_groups(groups);
        let ghost ss = sorted@;
        let ghost kinds = Seq::new(
            ss.len(),
            |k: int| choose|x: FailureKind| is_failure_group(ss[k], x, rows),
        );
        proof {
            assert forall|k: int| 0 <= k < ss.len() implies is_failure_group(
                #[trigger] ss[k],
                kinds[k],
                rows,
            ) by {
                assert(gs.contains(ss[k]));
                let m = choose|m: int| 0 <= m < gs.len() && gs[m] == ss[k];
                assert(some_failure_group(gs[m], rows));
                let x = choose|x: FailureKind| is_failure_group(gs[m], x, rows);
                assert(is_failure_group(ss[k], x, rows));
            }
        }
        let mut b: Vec<(String, u64)> = Vec::new();
        for g in it: sorted
            invariant
                it.seq() == ss,
                b@.len() == it.index(),
                forall|k: int|
                    0 <= k < ss.len() ==> is_failure_group(#[trigger] ss[k], kinds[k], rows),
                forall|k: int|
                    0 <= k < it.index() ==> Some((#[trigger] b@[k]).0@) == opt_view(ss[k].0)
                        && b@[k].1 == ss[k].1,
        {
            let (key, n) = g;
            assert(is_failure_group(ss[it.index() as int], kinds[it.index() as int], rows));
            let name: String = match key {
                Some(s) => s,
                None => String::new(),
            };
            b.push((name, n));
        }
        proof {
            assert forall|k: int| 0 <= k < b@.len() implies (#[trigger] b@[k]).0@ == failure_token(
                kinds[k],
            ) && b@[k].1 == failures_of(rows, kinds[k]) && b@[k].1 > 0 by {
                assert(is_failure_group(ss[k], kinds[k], rows));
            }
            assert forall|x: FailureKind| #[trigger] failures_of(
                rows,
                x,
            ) > 0 implies kinds.contains(x) by {
                assert(has_failure_group(gs, x, rows));
                let m = choose|m: int|
                    0 <= m < gs.len() && is_failure_group(#[trigger] gs[m], x, rows);
                assert(ss.contains(gs[m]));
                let k = choose|k: int| 0 <= k < ss.len() && ss[k] == gs[m];
                assert(is_failure_group(ss[k], kinds[k], rows));
                lemma_failure_tokens_distinct(kinds[k], x);
                assert(kinds[k] == x);
            }
            assert forall|j: int, k: int| 0 <= j < k < b@.len() implies (#[trigger] b@[j]).1 > (
            #[trigger] b@[k]).1 || (b@[j].1 == b@[k].1 && lex_before(b@[j].0@, b@[k].0@)) by {
                assert(group_before(group_view(ss[j]), group_view(ss[k])));
            }
            assert(is_breakdown(b@, kinds, rows));
        }
        b
    }
}

/// Every lease is live or orphaned, and none is both.
pub proof fn law_leases_split(rows: Seq<ItemView>, now: i64)
    ensures
        live_count(rows, now) + orphaned_count(rows, now) == count_state(rows, ItemState::Leased),
    decreases rows.len(),
{
    if rows.len() > 0 {
        law_leases_split(rows.drop_last(), now);
    }
}

/// What is pending or orphaned now is what a lease picks up from the next instant on:
/// a resume reclaims all of it, and nothing that is still in flight.
pub proof fn law_reclaimable_is_what_a_lease_picks_up(rows: Seq<ItemView>, now: i64)
    requires
        now < i64::MAX,
        forall|i: int|
            0 <= i < rows.len() && (#[trigger] rows[i]).status == ItemState::Leased
                ==> rows[i].leased_until is Some,
    ensures
        leasable_count(rows, (now + 1) as i64) == count_state(rows, ItemState::Pending)
            + orphaned_count(rows, now),
    decreases rows.len(),
{
    if rows.len() > 0 {
        let init = rows.drop_last();
        assert forall|i: int| 0 <= i < init.len() && (#[trigger] init[i]).status
            == ItemState::Leased implies init[i].leased_until is Some by {
            assert(rows[i].status == ItemState::Leased);
        }
        law_reclaimable_is_what_a_lease_picks_up(init, now);
        let last = rows[rows.len() - 1];
        assert(last == rows.last());
        if last.status == ItemState::Leased {
            assert(last.leased_until is Some);
        }
    }
}

/// Enqueueing adds a row for each item whose id is new, with the item's own request,
/// pending and never tried, and leaves the rows that are there; it says how many it added.
pub proof fn law_enqueued_requests_are_kept(
    before: SqliteQueue,
    after: SqliteQueue,
    items: &[Item],
    inserted: u64,
    j: int,
)
    requires
        before.wf(),
        exists|q: &mut SqliteQueue|
            *q == before && *final(q) == after && #[trigger] call_ensures(
                SqliteQueue::enqueue,
                (q, items),
                inserted,
            ),
        0 <= j < items@.len(),
        forall|i: int| 0 <= i < j ==> (#[trigger] items@[i]).custom_id@ != items@[j].custom_id@,
        forall|i: int|
            0 <= i < before.spec_rows().len() ==> (#[trigger] before.spec_rows()[i]).custom_id
                != items@[j].custom_id@,
    ensures
        after.spec_rows().take(before.spec_rows().len() as int) == before.spec_rows(),
        inserted == after.spec_rows().len() - before.spec_rows().len(),
        exists|k: int|
            before.spec_rows().len() <= k < after.spec_rows().len() && {
                let row = #[trigger] after.spec_rows()[k];
                &&& row.custom_id == items@[j].custom_id@
                &&& row.method == items@[j].method@
                &&& row.url == items@[j].url@
                &&& row.body == items@[j].body@
                &&& row.status == ItemState::Pending
                &&& row.attempts == 0
                &&& row.leased_until is None
                &&& row.leased_by is None
                &&& row.last_error is None
            },
{
    let rows = before.spec_rows();
    let views = item_views(items@);
    assert forall|i: int| 0 <= i < j implies (#[trigger] views[i]).custom_id != views[j].custom_id by {
        assert(items@[i].custom_id@ != items@[j].custom_id@);
    }
    crate::queue::law_enqueue_keeps_the_request(rows, views, j);
    crate::queue::law_enqueue_keeps_progress(rows, views);
}

/// A lease hands out what was ingested: rows that wait, or whose holder's time is up, in
/// the order of the table, each with its own request, one attempt more, and the holder and
/// end of the lease; and the table says the same.
pub proof fn law_leases_hand_out_requests(
    before: SqliteQueue,
    after: SqliteQueue,
    limit: usize,
    lease_for: Duration,
    now: i64,
    out: Vec<Item>,
    until: i64,
)
    requires
        before.wf(),
        now + lease_for@ / 1_000_000 <= i64::MAX ==> until == now + lease_for@ / 1_000_000,
        now + lease_for@ / 1_000_000 > i64::MAX ==> until == i64::MAX,
        exists|q: &mut SqliteQueue|
            *q == before && *final(q) == after && #[trigger] call_ensures(
                SqliteQueue::lease_at,
                (q, limit, lease_for, now),
                out,
            ),
    ensures
        exists|at: Seq<int>|
            crate::queue::fair_lease(
                before.spec_rows(),
                now,
                until,
                before.spec_coordinator(),
                limit as nat,
                after.spec_rows(),
                item_views(out@),
                at,
            ),
{
    let rows = before.spec_rows();
    crate::queue::law_leases_are_fair(
        rows,
        now,
        until,
        before.spec_coordinator(),
        limit as nat,
    );
}

/// The holder of a lease closes it: an ack makes the item done and keeps its last error, a
/// dead letter makes it dead with the error given. Only the row of that id, leased at that
/// attempt, changes; and each says whether there was one.
pub proof fn law_closing_ends_the_lease(
    before: SqliteQueue,
    done: SqliteQueue,
    dead: SqliteQueue,
    custom_id: &str,
    attempt: u32,
    error: &str,
    acked: bool,
    closed: bool,
    i: int,
)
    requires
        before.wf(),
        exists|q: &mut SqliteQueue|
            *q == before && *final(q) == done && #[trigger] call_ensures(
                SqliteQueue::ack,
                (q, custom_id, attempt),
                acked,
            ),
        exists|q: &mut SqliteQueue|
            *q == before && *final(q) == dead && #[trigger] call_ensures(
                SqliteQueue::dead_letter,
                (q, custom_id, attempt, error),
                closed,
            ),
        0 <= i < before.spec_rows().len(),
    ensures
        ({
            let old = before.spec_rows()[i];
            let d = done.spec_rows()[i];
            let x = dead.spec_rows()[i];
            if old.custom_id == custom_id@ && old.status == ItemState::Leased && old.attempts
                == attempt {
                &&& acked && closed
                &&& d.status == ItemState::Done
                &&& d.custom_id == old.custom_id
                &&& d.attempts == old.attempts
                &&& d.leased_by is None && d.leased_until is None
                &&& d.last_error == old.last_error
                &&& x.status == ItemState::DeadLetter
                &&& x.custom_id == old.custom_id
                &&& x.attempts == old.attempts
                &&& x.leased_by is None && x.leased_until is None
                &&& x.last_error == Some(error@)
            } else {
                d == old && x == old
            }
        }),
        done.spec_rows().len() == before.spec_rows().len(),
        dead.spec_rows().len() == before.spec_rows().len(),
        acked ==> exists|k: int|
            0 <= k < before.spec_rows().len() && (#[trigger] before.spec_rows()[k]).custom_id
                == custom_id@ && before.spec_rows()[k].status == ItemState::Leased
                && before.spec_rows()[k].attempts == attempt,
        acked == closed,
{
    crate::queue::law_close_ends_the_item(
        before.spec_rows(),
        custom_id@,
        attempt,
        ItemState::Done,
        None,
        i,
    );
    crate::queue::law_close_ends_the_item(
        before.spec_rows(),
        custom_id@,
        attempt,
        ItemState::DeadLetter,
        Some(error@),
        i,
    );
}

/// The reaper gives back the items whose holder's time is up, and says how many; all others
/// stay as they are.
pub proof fn law_the_reaper_gives_back_passed_leases(
    before: SqliteQueue,
    after: SqliteQueue,
    now: i64,
    n: u64,
)
    requires
        before.wf(),
        exists|q: &mut SqliteQueue|
            *q == before && *final(q) == after && #[trigger] call_ensures(
                SqliteQueue::reap_at,
                (q, now),
                n,
            ),
    ensures
        after.spec_rows().len() == before.spec_rows().len(),
        n == before.spec_rows().filter(
            |row: ItemView|
                row.status == ItemState::Leased && row.leased_until is Some && row.leased_until->0
                    < now,
        ).len(),
        forall|i: int|
            0 <= i < before.spec_rows().len() ==> {
                let old = #[trigger] before.spec_rows()[i];
                let new = after.spec_rows()[i];
                if old.status == ItemState::Leased && old.leased_until is Some
                    && old.leased_until->0 < now {
                    new.status == ItemState::Pending && new.custom_id == old.custom_id && new.url
                        == old.url && new.body == old.body && new.attempts == old.attempts
                        && new.leased_by is None && new.leased_until is None
                } else {
                    new == old
                }
            },
{
    crate::queue::law_reap_gives_back_what_has_passed(before.spec_rows(), now);
}

/// The counts of a queue are the numbers of its rows in each state.
pub proof fn law_counts_are_those_of_the_rows(q: &SqliteQueue, c: QueueCounts)
    requires
        call_ensures(SqliteQueue::counts, (q,), c),
    ensures
        c.pending == q.spec_rows().filter(|r: ItemView| r.status == ItemState::Pending).len(),
        c.leased == q.spec_rows().filter(|r: ItemView| r.status == ItemState::Leased).len(),
        c.done == q.spec_rows().filter(|r: ItemView| r.status == ItemState::Done).len(),
        c.dead == q.spec_rows().filter(|r: ItemView| r.status == ItemState::DeadLetter).len(),
        c.pending + c.leased + c.done + c.dead == q.spec_rows().len(),
{
    let rows = q.spec_rows();
    crate::queue::law_counts_count_the_rows(rows, ItemState::Pending);
    crate::queue::law_counts_count_the_rows(rows, ItemState::Leased);
    crate::queue::law_counts_count_the_rows(rows, ItemState::Done);
    crate::queue::law_counts_count_the_rows(rows, ItemState::DeadLetter);
    crate::queue::law_counts_add_up(rows);
    assert(rows.filter(|r: ItemView| r.status == ItemState::Pending) =~= rows.filter(
        |row: ItemView| row.status == ItemState::Pending,
    ));
}

/// What is recorded of an ingest is the mark from which it goes on: the furthest end of a
/// recorded shard, with its line.
pub proof fn law_ingest_goes_on_from_the_furthest_shard(
    before: SqliteQueue,
    after: SqliteQueue,
    shard: &Shard,
    old_mark: Option<(u64, u64)>,
    mark: Option<(u64, u64)>,
)
    requires
        before.wf(),
        exists|q: &mut SqliteQueue|
            *q == before && *final(q) == after && #[trigger] call_ensures(
                SqliteQueue::record_shard,
                (q, shard),
                (),
            ),
        call_ensures(SqliteQueue::hydrated_through, (&before,), old_mark),
        call_ensures(SqliteQueue::hydrated_through, (&after,), mark),
    ensures
        mark is Some,
        old_mark is None ==> mark == Some((shard.byte_offset_end, shard.line_end)),
        old_mark matches Some(m) ==> shard.byte_offset_end > m.0 ==> mark == Some(
            (shard.byte_offset_end, shard.line_end),
        ),
        old_mark matches Some(m) ==> shard.byte_offset_end < m.0 ==> (mark->0).0 == m.0,
        after.spec_rows() == before.spec_rows(),
{
    let a = before.spec_shards();
    let b = after.spec_shards();
    assert(b.len() == a.len() + 1);
    assert(b[a.len() as int].byte_offset_end == shard.byte_offset_end);
    assert forall|i: int| 0 <= i < a.len() implies #[trigger] b[i] == a[i] by {}
    let k = choose|k: int|
        0 <= k < b.len() && (#[trigger] b[k]).byte_offset_end == (mark->0).0 && b[k].line_end
            == (mark->0).1;
    if let Some(m) = old_mark {
        let i = choose|i: int|
            0 <= i < a.len() && (#[trigger] a[i]).byte_offset_end == m.0 && a[i].line_end == m.1;
        assert(b[i] == a[i]);
        if k < a.len() {
            assert(b[k] == a[k]);
            assert(a[k].byte_offset_end <= m.0);
        }
    }
}

/// A resume finds the output and the concurrency that the run recorded.
pub proof fn law_a_resume_finds_the_job(
    before: SqliteQueue,
    after: SqliteQueue,
    input_uri: &str,
    output_uri: &str,
    concurrency: usize,
    now: i64,
    c: Option<usize>,
    out: Option<String>,
)
    requires
        before.wf(),
        exists|q: &mut SqliteQueue|
            *q == before && *final(q) == after && #[trigger] call_ensures(
                SqliteQueue::record_job,
                (q, input_uri, output_uri, concurrency, now),
                (),
            ),
        call_ensures(SqliteQueue::job_concurrency, (&after,), c),
        call_ensures(SqliteQueue::job_output_uri, (&after,), out),
        concurrency <= 0x7fff_ffff,
    ensures
        out matches Some(o) && o@ == output_uri@,
        concurrency >= 1 ==> c == Some(concurrency),
        concurrency == 0 ==> c == Some(1usize),
        after.spec_rows() == before.spec_rows(),
        after.spec_shards() == before.spec_shards(),
{
}

proof fn lemma_audit_counts(rows: Seq<ItemView>, now: i64)
    ensures
        live_count(rows, now) == rows.filter(
            |r: ItemView|
                r.status == ItemState::Leased && r.leased_until is Some && r.leased_until->0 > now,
        ).len(),
        orphaned_count(rows, now) == rows.filter(
            |r: ItemView|
                r.status == ItemState::Leased && !(r.leased_until is Some && r.leased_until->0
                    > now),
        ).len(),
    decreases rows.len(),
{
    reveal(Seq::filter);
    if rows.len() > 0 {
        lemma_audit_counts(rows.drop_last(), now);
    }
}

proof fn lemma_held_counts(rows: Seq<ItemView>, now: i64, holder: Option<Seq<char>>)
    ensures
        held_count(rows, now, holder) == rows.filter(
            |r: ItemView|
                r.status == ItemState::Leased && r.leased_until is Some && r.leased_until->0 > now
                    && r.leased_by == holder,
        ).len(),
    decreases rows.len(),
{
    reveal(Seq::filter);
    if rows.len() > 0 {
        lemma_held_counts(rows.drop_last(), now, holder);
    }
}

/// An audit tells the leases that are live from those whose time is up, and names the
/// holders of the live ones with their numbers, the most first.
pub proof fn law_audits_tell_live_from_orphaned(q: &SqliteQueue, now: i64, a: ResumeAudit, i: int)
    requires
        call_ensures(SqliteQueue::resume_audit, (q, now), a),
    ensures
        a.live_leases == q.spec_rows().filter(
            |r: ItemView|
                r.status == ItemState::Leased && r.leased_until is Some && r.leased_until->0 > now,
        ).len(),
        a.orphaned_leases == q.spec_rows().filter(
            |r: ItemView|
                r.status == ItemState::Leased && !(r.leased_until is Some && r.leased_until->0
                    > now),
        ).len(),
        forall|j: int, k: int|
            0 <= j < k < a.live_holders@.len() ==> (#[trigger] a.live_holders@[j]).1 >= (
            #[trigger] a.live_holders@[k]).1,
        0 <= i < q.spec_rows().len() && q.spec_rows()[i].status == ItemState::Leased && (
        q.spec_rows()[i].leased_until matches Some(t) && t > now) && (
        q.spec_rows()[i].leased_by is Some) ==> exists|k: int|
            0 <= k < a.live_holders@.len() && Some((#[trigger] a.live_holders@[k]).0@)
                == q.spec_rows()[i].leased_by && a.live_holders@[k].1 == q.spec_rows().filter(
                |r: ItemView|
                    r.status == ItemState::Leased && r.leased_until is Some && r.leased_until->0
                        > now && r.leased_by == q.spec_rows()[i].leased_by,
            ).len(),
{
    let rows = q.spec_rows();
    lemma_audit_counts(rows, now);
    let keys = choose|keys: Seq<Option<Seq<char>>>| lists_holders(a.live_holders@, keys, rows, now);
    if 0 <= i < rows.len() && live(rows[i], now) && rows[i].leased_by is Some {
        let k = choose|k: int| 0 <= k < keys.len() && keys[k] == rows[i].leased_by;
        lemma_held_counts(rows, now, rows[i].leased_by);
        assert(a.live_holders@[k].0@ == holder_name(keys[k]));
        let f = |r: ItemView|
            r.status == ItemState::Leased && r.leased_until is Some && r.leased_until->0 > now
                && r.leased_by == q.spec_rows()[i].leased_by;
        let h = rows[i].leased_by;
        assert(rows.filter(f) =~= rows.filter(
            |r: ItemView|
                r.status == ItemState::Leased && r.leased_until is Some && r.leased_until->0 > now
                    && r.leased_by == h,
        )) by {
            assert(f =~= |r: ItemView|
                r.status == ItemState::Leased && r.leased_until is Some && r.leased_until->0 > now
                    && r.leased_by == h);
        }
    }
}

proof fn lemma_terminal_with(rows: Seq<ItemView>, attempts: u32)
    ensures
        terminal_with(rows, attempts) == rows.filter(
            |r: ItemView|
                (r.status == ItemState::Done || r.status == ItemState::DeadLetter) && r.attempts
                    == attempts,
        ).len(),
    decreases rows.len(),
{
    reveal(Seq::filter);
    if rows.len() > 0 {
        lemma_terminal_with(rows.drop_last(), attempts);
    }
}

/// The histogram says of each number of attempts how many finished items took it; items
/// that are not finished do not count.
pub proof fn law_histograms_count_finished_items(q: &SqliteQueue, h: Vec<(u32, u64)>, k: int, i: int)
    requires
        call_ensures(SqliteQueue::attempt_histogram, (q,), h),
    ensures
        0 <= k < h@.len() ==> h@[k].1 > 0 && h@[k].1 == q.spec_rows().filter(
            |r: ItemView|
                (r.status == ItemState::Done || r.status == ItemState::DeadLetter) && r.attempts
                    == h@[k].0,
        ).len(),
        0 < k < h@.len() ==> h@[k - 1].0 < h@[k].0,
        0 <= i < q.spec_rows().len() && (q.spec_rows()[i].status == ItemState::Done
            || q.spec_rows()[i].status == ItemState::DeadLetter) ==> exists|n: int|
            0 <= n < h@.len() && (#[trigger] h@[n]).0 == q.spec_rows()[i].attempts,
{
    let rows = q.spec_rows();
    if 0 <= k < h@.len() {
        lemma_terminal_with(rows, h@[k].0);
        assert((|r: ItemView|
            (r.status == ItemState::Done || r.status == ItemState::DeadLetter) && r.attempts
                == h@[k].0) =~= ({
            let a = h@[k].0;
            |r: ItemView|
                (r.status == ItemState::Done || r.status == ItemState::DeadLetter) && r.attempts == a
        }));
    }
    if 0 < k < h@.len() {
        assert(h@[k - 1].0 < h@[k].0);
    }
}

/// The breakdown names the category of every dead item, each once and with its number, the
/// most common first.
pub proof fn law_breakdowns_name_every_failure(q: &SqliteQueue, b: Vec<(String, u64)>, i: int)
    requires
        call_ensures(SqliteQueue::failure_breakdown, (q,), b),
        0 <= i < q.spec_rows().len(),
        q.spec_rows()[i].status == ItemState::DeadLetter,
        q.spec_rows()[i].last_error is Some,
    ensures
        exists|k: int|
            0 <= k < b@.len() && (#[trigger] b@[k]).0@ == failure_token(
                failure_of(ascii_lower(q.spec_rows()[i].last_error->0)),
            ) && b@[k].1 >= 1,
        forall|j: int, k: int|
            0 <= j < k < b@.len() ==> (#[trigger] b@[j]).1 >= (#[trigger] b@[k]).1,
{
    let rows = q.spec_rows();
    let kinds = choose|kinds: Seq<FailureKind>| is_breakdown(b@, kinds, rows);
    let f = row_failure(rows[i]);
    lemma_some_failure(rows, i);
    assert(failures_of(rows, f) > 0);
    let k = choose|k: int| 0 <= k < kinds.len() && kinds[k] == f;
    assert(b@[k].0@ == failure_token(kinds[k]));
}

proof fn lemma_some_failure(rows: Seq<ItemView>, i: int)
    requires
        0 <= i < rows.len(),
        rows[i].status == ItemState::DeadLetter,
    ensures
        failures_of(rows, row_failure(rows[i])) > 0,
    decreases rows.len(),
{
    if i < rows.len() - 1 {
        assert(rows.drop_last()[i] == rows[i]);
        lemma_some_failure(rows.drop_last(), i);
    }
}

/// A queue tags its leases with its process.
pub proof fn law_leases_are_tagged_by_process(process: u32, q: SqliteQueue)
    requires
        call_ensures(SqliteQueue::open_in_memory, (process,), q),
    ensures
        q.spec_coordinator() == "forge-"@ + crate::text::decimal(process as nat),
        q.spec_rows().len() == 0,
        q.wf(),
{
}

/// A breakdown counts for each category the dead items whose error is put down to it; equal
/// counts stand in the order of their names.
pub proof fn law_breakdowns_count_each_failure(
    q: &SqliteQueue,
    b: Vec<(String, u64)>,
    kind: FailureKind,
    token: &'static str,
    n: nat,
)
    requires
        call_ensures(SqliteQueue::failure_breakdown, (q,), b),
        call_ensures(FailureKind::as_str, (kind,), token),
        n == q.spec_rows().filter(
            |r: ItemView|
                r.status == ItemState::DeadLetter && failure_of(
                    ascii_lower(
                        match r.last_error {
                            Some(e) => e,
                            None => Seq::empty(),
                        },
                    ),
                ) == kind,
        ).len(),
    ensures
        n > 0 ==> exists|k: int|
            0 <= k < b@.len() && (#[trigger] b@[k]).0@ == token@ && b@[k].1 == n,
        n == 0 ==> forall|k: int| 0 <= k < b@.len() ==> (#[trigger] b@[k]).0@ != token@,
        forall|j: int, k: int|
            0 <= j < k < b@.len() && (#[trigger] b@[j]).1 == (#[trigger] b@[k]).1 ==> lex_before(
                b@[j].0@,
                b@[k].0@,
            ),
{
    let rows = q.spec_rows();
    let kinds = choose|kinds: Seq<FailureKind>| is_breakdown(b@, kinds, rows);
    lemma_failures_are_counted(rows, kind);
    if n > 0 {
        let k = choose|k: int| 0 <= k < kinds.len() && kinds[k] == kind;
        assert(b@[k].0@ == failure_token(kinds[k]));
    } else {
        assert forall|k: int| 0 <= k < b@.len() implies (#[trigger] b@[k]).0@ != token@ by {
            if b@[k].0@ == token@ {
                lemma_tokens_are_apart(kinds[k], kind);
            }
        }
    }
}

proof fn lemma_failures_are_counted(rows: Seq<ItemView>, kind: FailureKind)
    ensures
        failures_of(rows, kind) == rows.filter(
            |r: ItemView|
                r.status == ItemState::DeadLetter && failure_of(
                    ascii_lower(
                        match r.last_error {
                            Some(e) => e,
                            None => Seq::empty(),
                        },
                    ),
                ) == kind,
        ).len(),
    decreases rows.len(),
{
    reveal(Seq::filter);
    if rows.len() > 0 {
        lemma_failures_are_counted(rows.drop_last(), kind);
    }
}

proof fn lemma_tokens_are_apart(a: FailureKind, b: FailureKind)
    requires
        failure_token(a) == failure_token(b),
    ensures
        a == b,
{
    reveal_strlit("validation");
    reveal_strlit("rate_limited");
    reveal_strlit("timeout");
    reveal_strlit("connection");
    reveal_strlit("client_error");
    reveal_strlit("server_error");
    reveal_strlit("other");
    assert("validation"@[0] == 'v' && "rate_limited"@[0] == 'r' && "timeout"@[0] == 't');
    assert("connection"@[1] == 'o' && "client_error"@[1] == 'l');
    assert("connection"@[0] == 'c' && "client_error"@[0] == 'c');
    assert("server_error"@[0] == 's' && "other"@[0] == 'o');
}

/// A live lease without a holder is listed as one of an unknown holder.
pub proof fn law_unnamed_holders_are_listed(q: &SqliteQueue, now: i64, a: ResumeAudit, i: int)
    requires
        call_ensures(SqliteQueue::resume_audit, (q, now), a),
        0 <= i < q.spec_rows().len(),
        q.spec_rows()[i].status == ItemState::Leased,
        q.spec_rows()[i].leased_until matches Some(t) && t > now,
        q.spec_rows()[i].leased_by is None,
    ensures
        exists|k: int|
            0 <= k < a.live_holders@.len() && (#[trigger] a.live_holders@[k]).0@ == "(unknown)"@
                && a.live_holders@[k].1 >= 1,
{
    let rows = q.spec_rows();
    let keys = choose|keys: Seq<Option<Seq<char>>>| lists_holders(a.live_holders@, keys, rows, now);
    assert(live(rows[i], now));
    let k = choose|k: int| 0 <= k < keys.len() && keys[k] == rows[i].leased_by;
    assert(a.live_holders@[k].0@ == holder_name(keys[k]));
}

/// A snapshot has the counts of the queue and its audit at one instant.
pub proof fn law_snapshots_count_and_audit(
    q: &SqliteQueue,
    now: i64,
    r: (QueueCounts, ResumeAudit),
    a: ResumeAudit,
)
    requires
        call_ensures(SqliteQueue::audit_snapshot, (q, now), r),
        call_ensures(SqliteQueue::resume_audit, (q, now), a),
    ensures
        r.1.live_leases == a.live_leases,
        r.1.orphaned_leases == a.orphaned_leases,
        r.0.leased == a.live_leases + a.orphaned_leases,
        r.0.pending + r.0.leased + r.0.done + r.0.dead == q.spec_rows().len(),
{
    law_leases_split(q.spec_rows(), now);
}


} // verus!

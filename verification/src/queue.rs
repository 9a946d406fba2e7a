//! The lease queue as a table of rows: what each operation does to the rows, and
//! what holds of every sequence of operations.

use vstd::prelude::*;

use crate::duration::Duration;
use crate::state::{legal_transition, terminal, ItemState};
use crate::text::{concat2, decimal, decimal_of, str_eq};
use crate::types::{item_views, Item, ItemView};

verus! {

/// The tag by which the leases of a process are told apart.
pub open spec fn process_tag(process: u32) -> Seq<char> {
    "forge-"@ + decimal(process as nat)
}

/// The tag by which the leases of the process with the number `process` are told apart.
pub fn coordinator_tag(process: u32) -> (r: String)
    ensures
        r@ == process_tag(process),
{
    concat2("forge-", decimal_of(process as u64).as_str())
}

/// A snapshot of queue cardinalities.
#[derive(Debug, Clone, Copy, PartialEq, Eq, Structural)]
pub struct QueueCounts {
    pub pending: u64,
    pub leased: u64,
    pub done: u64,
    pub dead: u64,
}

impl Default for QueueCounts {
    fn default() -> (c: Self)
        ensures
            c == (QueueCounts { pending: 0, leased: 0, done: 0, dead: 0 }),
    {
        QueueCounts { pending: 0, leased: 0, done: 0, dead: 0 }
    }
}

impl QueueCounts {
    /// All items, as a number without bounds.
    pub open spec fn sum(self) -> nat {
        (self.pending + self.leased + self.done + self.dead) as nat
    }

    /// All items.
    pub fn total(&self) -> (r: u64)
        requires
            self.sum() <= u64::MAX,
        ensures
            r == self.sum(),
    {
        self.pending + self.leased + self.done + self.dead
    }

    /// The run is drained when nothing is pending or in flight.
    pub fn is_drained(&self) -> (r: bool)
        ensures
            r == (self.pending == 0 && self.leased == 0),
    {
        self.pending == 0 && self.leased == 0
    }
}

/// How many rows are in the state `s`.
pub open spec fn count_state(rows: Seq<ItemView>, s: ItemState) -> nat
    decreases rows.len(),
{
    if rows.len() == 0 {
        0
    } else {
        count_state(rows.drop_last(), s) + if rows.last().status == s {
            1nat
        } else {
            0nat
        }
    }
}

/// `c` counts the rows by state.
pub open spec fn counts_rows(c: QueueCounts, rows: Seq<ItemView>) -> bool {
    &&& c.pending == count_state(rows, ItemState::Pending)
    &&& c.leased == count_state(rows, ItemState::Leased)
    &&& c.done == count_state(rows, ItemState::Done)
    &&& c.dead == count_state(rows, ItemState::DeadLetter)
}

/// Some row has the id `id`.
pub open spec fn has_id(rows: Seq<ItemView>, id: Seq<char>) -> bool {
    exists|i: int| 0 <= i < rows.len() && (#[trigger] rows[i]).custom_id == id
}

/// No two rows have the same id.
pub open spec fn distinct_ids(rows: Seq<ItemView>) -> bool {
    forall|i: int, j: int|
        0 <= i < j < rows.len() ==> (#[trigger] rows[i]).custom_id != (#[trigger] rows[j]).custom_id
}

/// A fresh row for an item: pending, never tried.
pub open spec fn fresh_row(item: ItemView) -> ItemView {
    ItemView {
        status: ItemState::Pending,
        attempts: 0,
        leased_until: None,
        leased_by: None,
        last_error: None,
        ..item
    }
}

/// The rows once `items` have been enqueued: one fresh row for each id that is not
/// there yet.
pub open spec fn enqueued(rows: Seq<ItemView>, items: Seq<ItemView>) -> Seq<ItemView>
    decreases items.len(),
{
    if items.len() == 0 {
        rows
    } else {
        let before = enqueued(rows, items.drop_last());
        if has_id(before, items.last().custom_id) {
            before
        } else {
            before.push(fresh_row(items.last()))
        }
    }
}

/// The lease of a row has passed.
pub open spec fn expired(row: ItemView, now: i64) -> bool {
    &&& row.status == ItemState::Leased
    &&& row.leased_until matches Some(t) && t < now
}

/// A row can be leased: it is pending, or its lease has passed.
pub open spec fn leasable(row: ItemView, now: i64) -> bool {
    row.status == ItemState::Pending || expired(row, now)
}

/// How many rows can be leased.
pub open spec fn leasable_count(rows: Seq<ItemView>, now: i64) -> nat
    decreases rows.len(),
{
    if rows.len() == 0 {
        0
    } else {
        leasable_count(rows.drop_last(), now) + if leasable(rows.last(), now) {
            1nat
        } else {
            0nat
        }
    }
}

/// The next attempt number: one more, or the greatest where there is none.
pub open spec fn next_attempt(attempts: u32) -> u32 {
    if attempts == u32::MAX {
        u32::MAX
    } else {
        (attempts + 1) as u32
    }
}

/// A row once leased until `until` by `by`.
pub open spec fn leased_row(row: ItemView, until: i64, by: Seq<char>) -> ItemView {
    ItemView {
        status: ItemState::Leased,
        attempts: next_attempt(row.attempts),
        leased_until: Some(until),
        leased_by: Some(by),
        ..row
    }
}

/// Row `i` is among the first `limit` rows that can be leased.
pub open spec fn taken(rows: Seq<ItemView>, now: i64, limit: nat, i: int) -> bool {
    leasable(rows[i], now) && leasable_count(rows.take(i), now) < limit
}

/// The rows once the first `limit` of those that can be leased have been.
pub open spec fn rows_after_lease(
    rows: Seq<ItemView>,
    now: i64,
    until: i64,
    by: Seq<char>,
    limit: nat,
) -> Seq<ItemView> {
    Seq::new(
        rows.len(),
        |i: int|
            if taken(rows, now, limit, i) {
                leased_row(rows[i], until, by)
            } else {
                rows[i]
            },
    )
}

/// The rows that a lease hands out, in the order of the table.
pub open spec fn handed_out(
    rows: Seq<ItemView>,
    now: i64,
    until: i64,
    by: Seq<char>,
    limit: nat,
) -> Seq<ItemView>
    decreases rows.len(),
{
    if rows.len() == 0 {
        seq![]
    } else {
        let before = handed_out(rows.drop_last(), now, until, by, limit);
        if taken(rows, now, limit, rows.len() - 1) {
            before.push(leased_row(rows.last(), until, by))
        } else {
            before
        }
    }
}

/// The row is leased at the attempt `attempt`: a holder of that lease may close it.
pub open spec fn holds_lease(row: ItemView, id: Seq<char>, attempt: u32) -> bool {
    row.custom_id == id && row.status == ItemState::Leased && row.attempts == attempt
}

/// Some row is leased under `id` at the attempt `attempt`.
pub open spec fn lease_current(rows: Seq<ItemView>, id: Seq<char>, attempt: u32) -> bool {
    exists|i: int| 0 <= i < rows.len() && holds_lease(#[trigger] rows[i], id, attempt)
}

/// A row once closed.
pub open spec fn closed_row(row: ItemView, to: ItemState, error: Option<Seq<char>>) -> ItemView {
    ItemView {
        status: to,
        leased_until: None,
        leased_by: None,
        last_error: if error is Some {
            error
        } else {
            row.last_error
        },
        ..row
    }
}

/// The rows once the lease under `id` at `attempt` has been closed; unchanged where
/// there is no such lease.
pub open spec fn rows_after_close(
    rows: Seq<ItemView>,
    id: Seq<char>,
    attempt: u32,
    to: ItemState,
    error: Option<Seq<char>>,
) -> Seq<ItemView> {
    rows.map_values(
        |row: ItemView|
            if holds_lease(row, id, attempt) {
                closed_row(row, to, error)
            } else {
                row
            },
    )
}

/// The rows ask for the same: they have the same id, method, path and payload.
pub open spec fn same_request(a: ItemView, b: ItemView) -> bool {
    &&& a.custom_id == b.custom_id
    &&& a.method == b.method
    &&& a.url == b.url
    &&& a.body == b.body
}

/// A row once its lease has been taken back.
pub open spec fn requeued_row(row: ItemView) -> ItemView {
    ItemView { status: ItemState::Pending, leased_until: None, leased_by: None, ..row }
}

/// The rows once every lease that has passed has been taken back.
pub open spec fn rows_after_reap(rows: Seq<ItemView>, now: i64) -> Seq<ItemView> {
    rows.map_values(
        |row: ItemView|
            if expired(row, now) {
                requeued_row(row)
            } else {
                row
            },
    )
}

/// How many leases have passed.
pub open spec fn expired_count(rows: Seq<ItemView>, now: i64) -> nat
    decreases rows.len(),
{
    if rows.len() == 0 {
        0
    } else {
        expired_count(rows.drop_last(), now) + if expired(rows.last(), now) {
            1nat
        } else {
            0nat
        }
    }
}

/// The end of a lease of `millis` milliseconds from `now`, or the last instant where
/// that is earlier.
pub open spec fn lease_end(now: i64, millis: nat) -> i64 {
    if now + millis > i64::MAX {
        i64::MAX
    } else {
        (now + millis) as i64
    }
}

/// The end of a lease of the length `lease_for` from `now`.
pub fn lease_deadline(now: i64, lease_for: Duration) -> (r: i64)
    ensures
        r == lease_end(now, lease_for@ / 1_000_000),
{
    let ms: u128 = lease_for.as_millis();
    if ms > 0xffff_ffff_ffff_ffff {
        return i64::MAX;
    }
    let end: i128 = now as i128 + ms as i128;
    if end > i64::MAX as i128 {
        i64::MAX
    } else {
        end as i64
    }
}

/// Whether the lease of a row has passed.
pub fn is_expired(row: &Item, now: i64) -> (r: bool)
    ensures
        r == expired(row@, now),
{
    row.status == ItemState::Leased && match row.leased_until {
        Some(t) => t < now,
        None => false,
    }
}

/// Whether a row can be leased.
pub fn is_leasable(row: &Item, now: i64) -> (r: bool)
    ensures
        r == leasable(row@, now),
{
    row.status == ItemState::Pending || is_expired(row, now)
}

/// The position of the row with the id `id`.
pub fn find_row(rows: &Vec<Item>, id: &str) -> (r: Option<usize>)
    ensures
        match r {
            Some(i) => i < rows@.len() && rows@[i as int]@.custom_id == id@,
            None => !has_id(item_views(rows@), id@),
        },
{
    let mut i: usize = 0;
    while i < rows.len()
        invariant
            i <= rows@.len(),
            forall|j: int| 0 <= j < i ==> (#[trigger] rows@[j])@.custom_id != id@,
        decreases rows@.len() - i,
    {
        if str_eq(rows[i].custom_id.as_str(), id) {
            return Some(i);
        }
        i = i + 1;
    }
    proof {
        let v = item_views(rows@);
        assert forall|j: int| 0 <= j < v.len() implies (#[trigger] v[j]).custom_id != id@ by {
            assert(v[j] == rows@[j]@);
        }
    }
    None
}

/// The rows by state.
pub fn count_rows(rows: &Vec<Item>) -> (c: QueueCounts)
    ensures
        counts_rows(c, item_views(rows@)),
        c.sum() == rows@.len(),
{
    let ghost v = item_views(rows@);
    let mut c: QueueCounts = QueueCounts::default();
    let mut i: usize = 0;
    assert(v.take(0) == Seq::<ItemView>::empty());
    while i < rows.len()
        invariant
            i <= rows@.len(),
            v == item_views(rows@),
            counts_rows(c, v.take(i as int)),
            c.sum() == i,
        decreases rows@.len() - i,
    {
        assert(v.take(i + 1).drop_last() == v.take(i as int));
        assert(v.take(i + 1).last() == rows@[i as int]@);
        match rows[i].status {
            ItemState::Pending => {
                c.pending = c.pending + 1;
            },
            ItemState::Leased => {
                c.leased = c.leased + 1;
            },
            ItemState::Done => {
                c.done = c.done + 1;
            },
            ItemState::DeadLetter => {
                c.dead = c.dead + 1;
            },
        }
        i = i + 1;
    }
    assert(v.take(v.len() as int) == v);
    c
}

/// A copy of an item as a fresh row.
pub fn fresh_item(item: &Item) -> (r: Item)
    ensures
        r@ == fresh_row(item@),
{
    Item {
        custom_id: item.custom_id.clone(),
        method: item.method.clone(),
        url: item.url.clone(),
        body: item.body.duplicate(),
        status: ItemState::Pending,
        attempts: 0,
        leased_until: None,
        leased_by: None,
        last_error: None,
    }
}

/// Every row is in one of the four states, so the counts add up to the rows.
pub proof fn law_counts_add_up(rows: Seq<ItemView>)
    ensures
        count_state(rows, ItemState::Pending) + count_state(rows, ItemState::Leased) + count_state(
            rows,
            ItemState::Done,
        ) + count_state(rows, ItemState::DeadLetter) == rows.len(),
    decreases rows.len(),
{
    if rows.len() > 0 {
        law_counts_add_up(rows.drop_last());
    }
}

proof fn lemma_enqueued_keeps(rows: Seq<ItemView>, items: Seq<ItemView>)
    ensures
        enqueued(rows, items).len() >= rows.len(),
        enqueued(rows, items).take(rows.len() as int) == rows,
        distinct_ids(rows) ==> distinct_ids(enqueued(rows, items)),
        forall|j: int|
            0 <= j < items.len() ==> has_id(
                enqueued(rows, items),
                (#[trigger] items[j]).custom_id,
            ),
        forall|id: Seq<char>| #[trigger]
            has_id(enqueued(rows, items), id) ==> has_id(rows, id) || has_id(items, id),
    decreases items.len(),
{
    if items.len() == 0 {
        assert(rows.take(rows.len() as int) == rows);
    } else {
        let init = items.drop_last();
        let before = enqueued(rows, init);
        let after = enqueued(rows, items);
        lemma_enqueued_keeps(rows, init);
        assert(after.take(rows.len() as int) == before.take(rows.len() as int));
        if !has_id(before, items.last().custom_id) {
            assert(after == before.push(fresh_row(items.last())));
            assert forall|i: int, j: int| 0 <= i < j < after.len() && distinct_ids(
                rows,
            ) implies (#[trigger] after[i]).custom_id != (#[trigger] after[j]).custom_id by {
                assert(after[i] == before[i]);
                if j < before.len() {
                    assert(after[j] == before[j]);
                }
            }
        }
        assert forall|j: int| 0 <= j < items.len() implies has_id(
            after,
            (#[trigger] items[j]).custom_id,
        ) by {
            if j < init.len() {
                assert(init[j] == items[j]);
                let k = choose|k: int|
                    0 <= k < before.len() && (#[trigger] before[k]).custom_id
                        == items[j].custom_id;
                assert(has_id(before, items[j].custom_id));
                assert(after[k] == before[k]);
            } else if has_id(before, items.last().custom_id) {
                assert(after == before);
            } else {
                assert(after[before.len() as int].custom_id == items[j].custom_id);
            }
        }
        assert forall|id: Seq<char>| #[trigger] has_id(after, id) implies has_id(rows, id)
            || has_id(items, id) by {
            let k = choose|k: int| 0 <= k < after.len() && (#[trigger] after[k]).custom_id == id;
            if k < before.len() {
                assert(before[k] == after[k]);
                assert(has_id(before, id));
                if !has_id(rows, id) {
                    let m = choose|m: int|
                        0 <= m < init.len() && (#[trigger] init[m]).custom_id == id;
                    assert(items[m] == init[m]);
                }
            } else {
                assert(items[items.len() - 1].custom_id == id);
            }
        }
    }
}

proof fn lemma_enqueue_known(rows: Seq<ItemView>, items: Seq<ItemView>)
    requires
        forall|j: int| 0 <= j < items.len() ==> has_id(rows, (#[trigger] items[j]).custom_id),
    ensures
        enqueued(rows, items) == rows,
    decreases items.len(),
{
    if items.len() > 0 {
        assert forall|j: int| 0 <= j < items.drop_last().len() implies has_id(
            rows,
            (#[trigger] items.drop_last()[j]).custom_id,
        ) by {
            assert(items.drop_last()[j] == items[j]);
        }
        lemma_enqueue_known(rows, items.drop_last());
        assert(has_id(rows, items[items.len() - 1].custom_id));
    }
}

/// Enqueueing the same items again changes nothing: a re-ingest on resume is a no-op.
pub proof fn law_enqueue_is_idempotent(rows: Seq<ItemView>, items: Seq<ItemView>)
    ensures
        enqueued(enqueued(rows, items), items) == enqueued(rows, items),
{
    lemma_enqueued_keeps(rows, items);
    lemma_enqueue_known(enqueued(rows, items), items);
}

/// Enqueueing touches no row that is there, whatever its state: progress already made
/// is kept.
pub proof fn law_enqueue_keeps_progress(rows: Seq<ItemView>, items: Seq<ItemView>)
    ensures
        enqueued(rows, items).take(rows.len() as int) == rows,
        distinct_ids(rows) ==> distinct_ids(enqueued(rows, items)),
{
    lemma_enqueued_keeps(rows, items);
}

/// A terminal row is never leased again.
pub proof fn law_terminal_rows_are_never_leased(
    rows: Seq<ItemView>,
    now: i64,
    until: i64,
    by: Seq<char>,
    limit: nat,
    i: int,
)
    requires
        0 <= i < rows.len(),
        terminal(rows[i].status),
    ensures
        !taken(rows, now, limit, i),
        rows_after_lease(rows, now, until, by, limit)[i] == rows[i],
{
}

/// A lease that has not passed is left alone by the next lease and by the reaper.
pub proof fn law_live_leases_are_left_alone(
    rows: Seq<ItemView>,
    now: i64,
    until: i64,
    by: Seq<char>,
    limit: nat,
    i: int,
)
    requires
        0 <= i < rows.len(),
        rows[i].status == ItemState::Leased,
        rows[i].leased_until matches Some(t) && t >= now,
    ensures
        rows_after_lease(rows, now, until, by, limit)[i] == rows[i],
        rows_after_reap(rows, now)[i] == rows[i],
{
}

/// A stale holder cannot close an item: once its lease has passed and the item has
/// been leased again, an ack or dead letter at the old attempt changes nothing.
pub proof fn law_stale_lease_is_fenced(
    rows: Seq<ItemView>,
    i: int,
    now: i64,
    until: i64,
    by: Seq<char>,
    limit: nat,
    to: ItemState,
    error: Option<Seq<char>>,
)
    requires
        distinct_ids(rows),
        0 <= i < rows.len(),
        taken(rows, now, limit, i),
        rows[i].attempts < u32::MAX,
    ensures
        ({
            let after = rows_after_lease(rows, now, until, by, limit);
            &&& !lease_current(after, rows[i].custom_id, rows[i].attempts)
            &&& rows_after_close(after, rows[i].custom_id, rows[i].attempts, to, error) == after
        }),
{
    let after = rows_after_lease(rows, now, until, by, limit);
    assert forall|j: int| 0 <= j < after.len() implies !holds_lease(
        #[trigger] after[j],
        rows[i].custom_id,
        rows[i].attempts,
    ) by {
        if j < i {
            assert(rows[j].custom_id != rows[i].custom_id);
        } else if i < j {
            assert(rows[i].custom_id != rows[j].custom_id);
        }
    }
    assert(rows_after_close(after, rows[i].custom_id, rows[i].attempts, to, error) == after);
}

/// The holder of the current lease closes just its own item.
pub proof fn law_current_lease_closes_one_item(
    rows: Seq<ItemView>,
    i: int,
    to: ItemState,
    error: Option<Seq<char>>,
)
    requires
        distinct_ids(rows),
        0 <= i < rows.len(),
        rows[i].status == ItemState::Leased,
    ensures
        ({
            let after = rows_after_close(rows, rows[i].custom_id, rows[i].attempts, to, error);
            &&& lease_current(rows, rows[i].custom_id, rows[i].attempts)
            &&& after == rows.update(i, closed_row(rows[i], to, error))
        }),
{
    assert(holds_lease(rows[i], rows[i].custom_id, rows[i].attempts));
    let after = rows_after_close(rows, rows[i].custom_id, rows[i].attempts, to, error);
    assert forall|j: int| 0 <= j < rows.len() implies after[j] == rows.update(
        i,
        closed_row(rows[i], to, error),
    )[j] by {
        if j < i {
            assert(rows[j].custom_id != rows[i].custom_id);
        } else if i < j {
            assert(rows[i].custom_id != rows[j].custom_id);
        }
    }
    assert(after =~= rows.update(i, closed_row(rows[i], to, error)));
}

/// Closing twice is closing once: a repeated ack is a no-op.
pub proof fn law_close_is_idempotent(
    rows: Seq<ItemView>,
    id: Seq<char>,
    attempt: u32,
    to: ItemState,
    error: Option<Seq<char>>,
)
    requires
        terminal(to),
    ensures
        ({
            let once = rows_after_close(rows, id, attempt, to, error);
            &&& !lease_current(once, id, attempt)
            &&& rows_after_close(once, id, attempt, to, error) == once
        }),
{
    let once = rows_after_close(rows, id, attempt, to, error);
    assert forall|j: int| 0 <= j < once.len() implies !holds_lease(
        #[trigger] once[j],
        id,
        attempt,
    ) by {
    }
    assert(rows_after_close(once, id, attempt, to, error) == once);
}

/// Every change that an operation makes to a row's state is an edge of the state
/// machine; a lease of a passed lease is a reap followed by a lease.
pub proof fn law_transitions_are_legal(
    rows: Seq<ItemView>,
    i: int,
    now: i64,
    until: i64,
    by: Seq<char>,
    limit: nat,
    id: Seq<char>,
    attempt: u32,
    to: ItemState,
    error: Option<Seq<char>>,
)
    requires
        0 <= i < rows.len(),
        terminal(to),
    ensures
        ({
            let reaped = rows_after_reap(rows, now)[i].status;
            let closed = rows_after_close(rows, id, attempt, to, error)[i].status;
            let leased = rows_after_lease(rows, now, until, by, limit)[i].status;
            &&& reaped == rows[i].status || legal_transition(rows[i].status, reaped)
            &&& closed == rows[i].status || legal_transition(rows[i].status, closed)
            &&& leased == rows[i].status || legal_transition(reaped, leased)
        }),
{
}

/// No operation loses an item or changes what it asks for: every row stays in its place
/// with its id, method, path and payload.
pub proof fn law_items_are_never_lost(
    rows: Seq<ItemView>,
    i: int,
    now: i64,
    until: i64,
    by: Seq<char>,
    limit: nat,
    id: Seq<char>,
    attempt: u32,
    to: ItemState,
    error: Option<Seq<char>>,
)
    requires
        0 <= i < rows.len(),
    ensures
        rows_after_lease(rows, now, until, by, limit).len() == rows.len(),
        rows_after_close(rows, id, attempt, to, error).len() == rows.len(),
        rows_after_reap(rows, now).len() == rows.len(),
        same_request(rows_after_lease(rows, now, until, by, limit)[i], rows[i]),
        same_request(rows_after_close(rows, id, attempt, to, error)[i], rows[i]),
        same_request(rows_after_reap(rows, now)[i], rows[i]),
{
}

/// An item whose holder dies is not lost: once its lease has passed it can be leased
/// again, at the next attempt.
pub proof fn law_abandoned_items_come_back(
    rows: Seq<ItemView>,
    i: int,
    now: i64,
    until: i64,
    by: Seq<char>,
    limit: nat,
    later: i64,
)
    requires
        0 <= i < rows.len(),
        taken(rows, now, limit, i),
        until < later,
    ensures
        ({
            let held = rows_after_lease(rows, now, until, by, limit)[i];
            &&& expired(held, later)
            &&& leasable(held, later)
            &&& requeued_row(held).attempts == held.attempts
            &&& rows[i].attempts < u32::MAX ==> held.attempts == rows[i].attempts + 1
        }),
{
}

/// Reaping again at the same instant finds nothing more.
pub proof fn law_reap_is_idempotent(rows: Seq<ItemView>, now: i64)
    ensures
        rows_after_reap(rows_after_reap(rows, now), now) == rows_after_reap(rows, now),
        expired_count(rows_after_reap(rows, now), now) == 0,
{
    let once = rows_after_reap(rows, now);
    assert(rows_after_reap(once, now) == once);
    lemma_none_expired(once, now);
}

proof fn lemma_none_expired(rows: Seq<ItemView>, now: i64)
    requires
        forall|i: int| 0 <= i < rows.len() ==> !expired(#[trigger] rows[i], now),
    ensures
        expired_count(rows, now) == 0,
    decreases rows.len(),
{
    if rows.len() > 0 {
        assert forall|i: int| 0 <= i < rows.drop_last().len() implies !expired(
            #[trigger] rows.drop_last()[i],
            now,
        ) by {
            assert(rows.drop_last()[i] == rows[i]);
        }
        lemma_none_expired(rows.drop_last(), now);
    }
}

/// Reaping moves just the passed leases back to pending.
pub proof fn law_reap_moves_expired_to_pending(rows: Seq<ItemView>, now: i64)
    ensures
        count_state(rows_after_reap(rows, now), ItemState::Pending) == count_state(
            rows,
            ItemState::Pending,
        ) + expired_count(rows, now),
        count_state(rows_after_reap(rows, now), ItemState::Leased) + expired_count(rows, now)
            == count_state(rows, ItemState::Leased),
        count_state(rows_after_reap(rows, now), ItemState::Done) == count_state(
            rows,
            ItemState::Done,
        ),
        count_state(rows_after_reap(rows, now), ItemState::DeadLetter) == count_state(
            rows,
            ItemState::DeadLetter,
        ),
    decreases rows.len(),
{
    if rows.len() > 0 {
        law_reap_moves_expired_to_pending(rows.drop_last(), now);
        assert(rows_after_reap(rows, now).drop_last() == rows_after_reap(rows.drop_last(), now));
    }
}

/// A lease hands out the asked number of items, or all that can be leased.
pub proof fn law_lease_respects_the_limit(
    rows: Seq<ItemView>,
    now: i64,
    until: i64,
    by: Seq<char>,
    limit: nat,
)
    ensures
        handed_out(rows, now, until, by, limit).len() == if leasable_count(rows, now) < limit {
            leasable_count(rows, now)
        } else {
            limit
        },
    decreases rows.len(),
{
    if rows.len() > 0 {
        law_lease_respects_the_limit(rows.drop_last(), now, until, by, limit);
        assert(rows.take(rows.len() - 1) == rows.drop_last());
    }
}

/// What a lease hands out are rows of the table, leased.
pub proof fn law_lease_hands_out_leased_rows(
    rows: Seq<ItemView>,
    now: i64,
    until: i64,
    by: Seq<char>,
    limit: nat,
    k: int,
)
    requires
        0 <= k < handed_out(rows, now, until, by, limit).len(),
    ensures
        exists|i: int|
            0 <= i < rows.len() && taken(rows, now, limit, i) && handed_out(
                rows,
                now,
                until,
                by,
                limit,
            )[k] == (#[trigger] rows_after_lease(rows, now, until, by, limit)[i]),
    decreases rows.len(),
{
    let all = handed_out(rows, now, until, by, limit);
    let after = rows_after_lease(rows, now, until, by, limit);
    let n = rows.len() - 1;
    let init = rows.drop_last();
    let before = handed_out(init, now, until, by, limit);
    if k < before.len() {
        law_lease_hands_out_leased_rows(init, now, until, by, limit, k);
        let i = choose|i: int|
            0 <= i < init.len() && taken(init, now, limit, i) && before[k] == (
            #[trigger] rows_after_lease(init, now, until, by, limit)[i]);
        assert(init.take(i) == rows.take(i));
        assert(taken(rows, now, limit, i));
        assert(after[i] == rows_after_lease(init, now, until, by, limit)[i]);
    } else {
        assert(taken(rows, now, limit, n));
        assert(all[k] == after[n]);
    }
}

/// Enqueueing keeps the request: an item whose id is new to the queue and to the batch so
/// far gets a row of its own, with its id, method, path and payload, pending and never
/// tried.
pub proof fn law_enqueue_keeps_the_request(rows: Seq<ItemView>, items: Seq<ItemView>, j: int)
    requires
        0 <= j < items.len(),
        forall|i: int| 0 <= i < rows.len() ==> (#[trigger] rows[i]).custom_id != items[j].custom_id,
        forall|i: int| 0 <= i < j ==> (#[trigger] items[i]).custom_id != items[j].custom_id,
    ensures
        exists|k: int|
            rows.len() <= k < enqueued(rows, items).len() && {
                let row = #[trigger] enqueued(rows, items)[k];
                &&& row.custom_id == items[j].custom_id
                &&& row.method == items[j].method
                &&& row.url == items[j].url
                &&& row.body == items[j].body
                &&& row.status == ItemState::Pending
                &&& row.attempts == 0
                &&& row.leased_until is None
                &&& row.leased_by is None
                &&& row.last_error is None
            },
    decreases items.len(),
{
    let init = items.drop_last();
    let before = enqueued(rows, init);
    let after = enqueued(rows, items);
    lemma_enqueued_keeps(rows, init);
    if j < init.len() {
        assert forall|i: int| 0 <= i < j implies (#[trigger] init[i]).custom_id
            != init[j].custom_id by {
            assert(items[i].custom_id != items[j].custom_id);
        }
        law_enqueue_keeps_the_request(rows, init, j);
        let k = choose|k: int|
            rows.len() <= k < before.len() && {
                let row = #[trigger] before[k];
                &&& row.custom_id == items[j].custom_id
                &&& row.method == items[j].method
                &&& row.url == items[j].url
                &&& row.body == items[j].body
                &&& row.status == ItemState::Pending
                &&& row.attempts == 0
                &&& row.leased_until is None
                &&& row.leased_by is None
                &&& row.last_error is None
            };
        assert(after[k] == before[k]);
    } else {
        let id = items[j].custom_id;
        assert(!has_id(before, id)) by {
            if has_id(before, id) {
                if has_id(rows, id) {
                    let i = choose|i: int| 0 <= i < rows.len() && (#[trigger] rows[i]).custom_id == id;
                    assert(rows[i].custom_id != items[j].custom_id);
                } else {
                    let i = choose|i: int| 0 <= i < init.len() && (#[trigger] init[i]).custom_id == id;
                    assert(items[i].custom_id != items[j].custom_id);
                }
            }
        }
        assert(after[before.len() as int].custom_id == id);
    }
}

/// Two batches one after the other are one batch.
pub proof fn law_enqueues_compose(rows: Seq<ItemView>, a: Seq<ItemView>, b: Seq<ItemView>)
    ensures
        enqueued(rows, a + b) == enqueued(enqueued(rows, a), b),
    decreases b.len(),
{
    if b.len() == 0 {
        assert(a + b =~= a);
    } else {
        assert((a + b).drop_last() =~= a + b.drop_last());
        assert((a + b).last() == b.last());
        law_enqueues_compose(rows, a, b.drop_last());
    }
}

/// An item goes to the end of the table as it is asked for, unless its id is there: then
/// nothing changes.
pub proof fn law_one_item_goes_to_the_end(rows: Seq<ItemView>, item: ItemView)
    ensures
        (exists|i: int| 0 <= i < rows.len() && (#[trigger] rows[i]).custom_id == item.custom_id)
            ==> enqueued(rows, seq![item]) == rows,
        (forall|i: int| 0 <= i < rows.len() ==> (#[trigger] rows[i]).custom_id != item.custom_id)
            ==> ({
            let after = enqueued(rows, seq![item]);
            &&& after.len() == rows.len() + 1
            &&& after.drop_last() == rows
            &&& after.last().custom_id == item.custom_id
            &&& after.last().method == item.method
            &&& after.last().url == item.url
            &&& after.last().body == item.body
            &&& after.last().status == ItemState::Pending
            &&& after.last().attempts == 0
            &&& after.last().leased_until is None
            &&& after.last().leased_by is None
            &&& after.last().last_error is None
        }),
{
    assert(seq![item].drop_last() =~= Seq::<ItemView>::empty());
    assert(enqueued(rows, seq![item].drop_last()) == rows);
    if forall|i: int| 0 <= i < rows.len() ==> (#[trigger] rows[i]).custom_id != item.custom_id {
        assert(!has_id(rows, item.custom_id));
        assert(rows.push(fresh_row(item)).drop_last() =~= rows);
    }
}

/// A row may be handed out: it waits, or its holder's time is up.
pub open spec fn free_at(row: ItemView, now: i64) -> bool {
    ||| row.status == ItemState::Pending
    ||| row.status == ItemState::Leased && (row.leased_until matches Some(t) && t < now)
}

/// A row is handed out: the same request goes to `by` until `until`, as one more attempt.
pub open spec fn hand_over(row: ItemView, out: ItemView, until: i64, by: Seq<char>) -> bool {
    &&& out.custom_id == row.custom_id
    &&& out.method == row.method
    &&& out.url == row.url
    &&& out.body == row.body
    &&& out.last_error == row.last_error
    &&& out.status == ItemState::Leased
    &&& out.leased_until == Some(until)
    &&& out.leased_by == Some(by)
    &&& row.attempts < u32::MAX ==> out.attempts == row.attempts + 1
}

/// The rows at the ascending positions `at` are handed out, and no other row is touched.
/// None is passed over: a free row that stays free stands behind them, and stays only
/// because there are `limit` of them.
pub open spec fn fair_lease(
    before: Seq<ItemView>,
    now: i64,
    until: i64,
    by: Seq<char>,
    limit: nat,
    after: Seq<ItemView>,
    out: Seq<ItemView>,
    at: Seq<int>,
) -> bool {
    &&& after.len() == before.len()
    &&& out.len() == at.len() <= limit
    &&& forall|k: int|
        0 <= k < at.len() ==> 0 <= #[trigger] at[k] < before.len() && free_at(before[at[k]], now)
            && hand_over(before[at[k]], after[at[k]], until, by) && out[k] == after[at[k]]
    &&& forall|j: int, k: int| 0 <= j < k < at.len() ==> #[trigger] at[j] < #[trigger] at[k]
    &&& forall|i: int|
        0 <= i < before.len() && !at.contains(i) ==> after[i] == #[trigger] before[i]
    &&& forall|i: int|
        0 <= i < before.len() && !at.contains(i) && free_at(#[trigger] before[i], now) ==> at.len()
            == limit && (forall|k: int| 0 <= k < at.len() ==> #[trigger] at[k] < i)
}

/// The positions of the rows that a lease takes.
pub open spec fn taken_at(rows: Seq<ItemView>, now: i64, limit: nat) -> Seq<int>
    decreases rows.len(),
{
    if rows.len() == 0 {
        Seq::empty()
    } else {
        let before = taken_at(rows.drop_last(), now, limit);
        if taken(rows, now, limit, rows.len() - 1) {
            before.push(rows.len() - 1)
        } else {
            before
        }
    }
}

/// The positions that a lease takes ascend, and are those of the rows taken.
proof fn lemma_taken_at(
    rows: Seq<ItemView>,
    now: i64,
    until: i64,
    by: Seq<char>,
    limit: nat,
)
    ensures
        ({
            let at = taken_at(rows, now, limit);
            let out = handed_out(rows, now, until, by, limit);
            &&& out.len() == at.len()
            &&& forall|k: int|
                0 <= k < at.len() ==> 0 <= #[trigger] at[k] < rows.len() && taken(
                    rows,
                    now,
                    limit,
                    at[k],
                ) && out[k] == leased_row(rows[at[k]], until, by)
            &&& forall|j: int, k: int| 0 <= j < k < at.len() ==> #[trigger] at[j] < #[trigger] at[k]
            &&& forall|i: int|
                0 <= i < rows.len() && #[trigger] taken(rows, now, limit, i) ==> at.contains(i)
        }),
    decreases rows.len(),
{
    if rows.len() > 0 {
        let init = rows.drop_last();
        let n = rows.len() - 1;
        lemma_taken_at(init, now, until, by, limit);
        let a0 = taken_at(init, now, limit);
        let at = taken_at(rows, now, limit);
        assert forall|i: int| 0 <= i < n implies #[trigger] taken(rows, now, limit, i) == taken(
            init,
            now,
            limit,
            i,
        ) by {
            assert(rows.take(i) =~= init.take(i));
        }
        assert forall|k: int| 0 <= k < at.len() implies 0 <= #[trigger] at[k] < rows.len() && taken(
            rows,
            now,
            limit,
            at[k],
        ) && handed_out(rows, now, until, by, limit)[k] == leased_row(rows[at[k]], until, by) by {
            if k < a0.len() {
                assert(at[k] == a0[k]);
                assert(taken(init, now, limit, a0[k]));
            }
        }
        assert forall|i: int| 0 <= i < rows.len() && #[trigger] taken(
            rows,
            now,
            limit,
            i,
        ) implies at.contains(i) by {
            if i < n {
                assert(taken(init, now, limit, i));
                let k = choose|k: int| 0 <= k < a0.len() && a0[k] == i;
                assert(at[k] == i);
            } else {
                assert(at[a0.len() as int] == n);
            }
        }
    }
}

/// More rows can be leased with more rows.
proof fn lemma_leasable_count_grows(rows: Seq<ItemView>, now: i64, i: int, j: int)
    requires
        0 <= i <= j <= rows.len(),
    ensures
        leasable_count(rows.take(i), now) <= leasable_count(rows.take(j), now),
    decreases j - i,
{
    if i < j {
        lemma_leasable_count_grows(rows, now, i, j - 1);
        assert(rows.take(j).drop_last() =~= rows.take(j - 1));
    }
}

/// A lease is fair: it hands out waiting rows, and those whose holder's time is up, in the
/// order of the table and up to the limit, and touches no other.
pub proof fn law_leases_are_fair(
    rows: Seq<ItemView>,
    now: i64,
    until: i64,
    by: Seq<char>,
    limit: nat,
)
    ensures
        fair_lease(
            rows,
            now,
            until,
            by,
            limit,
            rows_after_lease(rows, now, until, by, limit),
            handed_out(rows, now, until, by, limit),
            taken_at(rows, now, limit),
        ),
{
    let at = taken_at(rows, now, limit);
    let after = rows_after_lease(rows, now, until, by, limit);
    lemma_taken_at(rows, now, until, by, limit);
    lemma_full_takes_no_more(rows, now, limit);
    assert forall|i: int| 0 <= i < rows.len() && !at.contains(i) && free_at(
        #[trigger] rows[i],
        now,
    ) implies at.len() == limit && (forall|k: int| 0 <= k < at.len() ==> #[trigger] at[k] < i) by {
        assert(!taken(rows, now, limit, i));
        assert(leasable_count(rows.take(i), now) >= limit);
        assert(rows.take(rows.len() as int) =~= rows);
        lemma_leasable_count_grows(rows, now, i, rows.len() as int);
        assert forall|k: int| 0 <= k < at.len() implies #[trigger] at[k] < i by {
            assert(taken(rows, now, limit, at[k]));
            if at[k] > i {
                lemma_leasable_count_grows(rows, now, i, at[k]);
            }
        }
    }
    assert forall|i: int| 0 <= i < rows.len() && !at.contains(i) implies after[i]
        == #[trigger] rows[i] by {
        assert(!taken(rows, now, limit, i));
    }
}

/// As many rows are taken as can be leased, up to the limit.
proof fn lemma_full_takes_no_more(rows: Seq<ItemView>, now: i64, limit: nat)
    ensures
        taken_at(rows, now, limit).len() == if leasable_count(rows, now) < limit {
            leasable_count(rows, now)
        } else {
            limit
        },
    decreases rows.len(),
{
    if rows.len() > 0 {
        lemma_full_takes_no_more(rows.drop_last(), now, limit);
        assert(rows.take(rows.len() - 1) =~= rows.drop_last());
    }
}

/// The reaper gives back just the items whose holder's time is up, as they were asked for
/// and with their attempts, and says how many those are.
pub proof fn law_reap_gives_back_what_has_passed(rows: Seq<ItemView>, now: i64)
    ensures
        rows_after_reap(rows, now).len() == rows.len(),
        forall|i: int|
            0 <= i < rows.len() ==> {
                let old = #[trigger] rows[i];
                let new = rows_after_reap(rows, now)[i];
                if old.status == ItemState::Leased && old.leased_until is Some
                    && old.leased_until->0 < now {
                    &&& new.status == ItemState::Pending
                    &&& new.custom_id == old.custom_id
                    &&& new.method == old.method
                    &&& new.url == old.url
                    &&& new.body == old.body
                    &&& new.attempts == old.attempts
                    &&& new.last_error == old.last_error
                    &&& new.leased_until is None
                    &&& new.leased_by is None
                } else {
                    new == old
                }
            },
        expired_count(rows, now) == rows.filter(
            |row: ItemView|
                row.status == ItemState::Leased && row.leased_until is Some && row.leased_until->0
                    < now,
        ).len(),
    decreases rows.len(),
{
    reveal(Seq::filter);
    if rows.len() > 0 {
        law_reap_gives_back_what_has_passed(rows.drop_last(), now);
    }
}

/// The counts are the numbers of rows in each state.
pub proof fn law_counts_count_the_rows(rows: Seq<ItemView>, s: ItemState)
    ensures
        count_state(rows, s) == rows.filter(|row: ItemView| row.status == s).len(),
    decreases rows.len(),
{
    reveal(Seq::filter);
    if rows.len() > 0 {
        law_counts_count_the_rows(rows.drop_last(), s);
    }
}

/// A close at the current attempt ends the item: it is in the final state, held by nobody,
/// with the error where one is given and the old one where none is. At any other attempt,
/// or for an item that is not leased, nothing changes.
pub proof fn law_close_ends_the_item(
    rows: Seq<ItemView>,
    id: Seq<char>,
    attempt: u32,
    to: ItemState,
    error: Option<Seq<char>>,
    i: int,
)
    requires
        0 <= i < rows.len(),
    ensures
        ({
            let old = rows[i];
            let new = rows_after_close(rows, id, attempt, to, error)[i];
            if old.custom_id == id && old.status == ItemState::Leased && old.attempts == attempt {
                &&& new.status == to
                &&& new.custom_id == old.custom_id
                &&& new.method == old.method
                &&& new.url == old.url
                &&& new.body == old.body
                &&& new.attempts == old.attempts
                &&& new.leased_until is None
                &&& new.leased_by is None
                &&& error is Some ==> new.last_error == error
                &&& error is None ==> new.last_error == old.last_error
                &&& lease_current(rows, id, attempt)
            } else {
                new == old
            }
        }),
        lease_current(rows, id, attempt) ==> exists|k: int|
            0 <= k < rows.len() && (#[trigger] rows[k]).custom_id == id && rows[k].status
                == ItemState::Leased && rows[k].attempts == attempt,
{
    if lease_current(rows, id, attempt) {
        let k = choose|k: int| 0 <= k < rows.len() && holds_lease(#[trigger] rows[k], id, attempt);
        assert(rows[k].custom_id == id);
    }
    if rows[i].custom_id == id && rows[i].status == ItemState::Leased && rows[i].attempts == attempt {
        assert(holds_lease(rows[i], id, attempt));
    }
}

/// A lease ends a whole lease time after it began, in milliseconds, and never beyond the
/// last instant.
pub proof fn law_leases_last_as_asked(now: i64, lease_for: Duration, r: i64)
    requires
        call_ensures(lease_deadline, (now, lease_for), r),
    ensures
        now + lease_for@ / 1_000_000 <= i64::MAX ==> r == now + lease_for@ / 1_000_000,
        now + lease_for@ / 1_000_000 > i64::MAX ==> r == i64::MAX,
        r >= now,
{
}

/// A queue is drained when nothing waits and nothing is in flight; then all of its items
/// are done or dead.
pub proof fn law_drained_means_all_are_final(c: &QueueCounts, drained: bool, total: u64)
    requires
        call_ensures(QueueCounts::is_drained, (c,), drained),
        call_ensures(QueueCounts::total, (c,), total),
    ensures
        drained <==> c.pending == 0 && c.leased == 0,
        total == c.pending + c.leased + c.done + c.dead,
        drained ==> total == c.done + c.dead,
{
}

} // verus!

//! The index-based lease queue: the items, with index tables that keep leasing and
//! reaping off a scan of the whole job.
//!
//! The line of pending items has two parts. Items whose lease has passed stand in
//! front of those that were never tried, so that a retry does not starve behind a
//! backlog. Leased items are indexed in the order of their ids.

use std::collections::VecDeque;

use vstd::prelude::*;

use crate::clock::now_ms;
use crate::duration::Duration;
use crate::queue::{
    closed_row, coordinator_tag, count_rows, count_state, counts_rows, distinct_ids, enqueued,
    expired, find_row, fresh_item, fresh_row, has_id, holds_lease, is_expired, leasable,
    leasable_count, lease_current, lease_deadline, lease_end, leased_row, process_tag,
    requeued_row, rows_after_close, rows_after_reap, QueueCounts,
};
use crate::redb_tables::{
    holds, indexes_point_at_items, leased_view, lemma_place_at, StoredTables, TableQueue,
};
use crate::state::ItemState;
use crate::text::{
    lemma_lex_total, lemma_lex_transitive, lex_before, opt_str_view, str_before, str_eq,
};
use crate::types::{duplicate_opt, item_views, Item, ItemView};

verus! {

/// Sequence numbers from here on are those of never-tried items; lower ones are those
/// of items whose lease has passed.
pub const FRESH_BASE: u64 = 0x4000_0000_0000_0000;

/// The storage code of a state.
pub open spec fn code_of(s: ItemState) -> u8 {
    match s {
        ItemState::Pending => 0,
        ItemState::Leased => 1,
        ItemState::Done => 2,
        ItemState::DeadLetter => 3,
    }
}

/// The storage code of a state.
pub fn status_code(s: ItemState) -> (r: u8)
    ensures
        r == code_of(s),
{
    match s {
        ItemState::Pending => 0,
        ItemState::Leased => 1,
        ItemState::Done => 2,
        ItemState::DeadLetter => 3,
    }
}

/// Distinct states have distinct storage codes.
pub proof fn law_codes_are_distinct(a: ItemState, b: ItemState)
    ensures
        code_of(a) == code_of(b) ==> a == b,
{
}

/// The durable queue of one coordinator.
pub struct RedbQueue {
    items: Vec<Item>,
    requeued: VecDeque<(u64, usize)>,
    fresh: VecDeque<(u64, usize)>,
    leased: Vec<usize>,
    counts: QueueCounts,
    pending_seq: u64,
    requeue_seq: u64,
    coordinator_id: String,
}

/// The positions that a part of the line lists.
pub open spec fn positions(entries: Seq<(u64, usize)>) -> Seq<int> {
    entries.map_values(|e: (u64, usize)| e.1 as int)
}

/// The line lists just the pending rows, each once.
pub open spec fn lists_pending(line: Seq<int>, rows: Seq<ItemView>) -> bool {
    &&& forall|k: int|
        0 <= k < line.len() ==> 0 <= #[trigger] line[k] < rows.len() && rows[line[k]].status
            == ItemState::Pending
    &&& forall|j: int, k: int| 0 <= j < k < line.len() ==> #[trigger] line[j] != #[trigger] line[k]
    &&& forall|i: int|
        0 <= i < rows.len() && (#[trigger] rows[i]).status == ItemState::Pending ==> line.contains(i)
}

/// The index lists just the leased rows, in the order of their ids, each with an end
/// of its lease.
pub open spec fn lists_leased(index: Seq<usize>, rows: Seq<ItemView>) -> bool {
    &&& forall|k: int|
        0 <= k < index.len() ==> (#[trigger] index[k]) < rows.len() && rows[index[k] as int].status
            == ItemState::Leased && rows[index[k] as int].leased_until is Some
    &&& forall|j: int, k: int|
        0 <= j < k < index.len() ==> lex_before(
            rows[#[trigger] index[j] as int].custom_id,
            rows[#[trigger] index[k] as int].custom_id,
        )
    &&& forall|i: int|
        0 <= i < rows.len() && (#[trigger] rows[i]).status == ItemState::Leased ==> index.contains(
            i as usize,
        )
}

/// The sequence numbers ascend within `from..to`.
pub open spec fn numbered(entries: Seq<(u64, usize)>, from: int, to: int) -> bool {
    &&& forall|k: int| 0 <= k < entries.len() ==> from <= (#[trigger] entries[k]).0 < to
    &&& forall|j: int, k: int|
        0 <= j < k < entries.len() ==> (#[trigger] entries[j]).0 < (#[trigger] entries[k]).0
}

/// `e` lists just the rows whose lease has passed, in the order of their ids.
pub open spec fn is_expired_order(e: Seq<int>, rows: Seq<ItemView>, now: i64) -> bool {
    &&& forall|k: int|
        0 <= k < e.len() ==> 0 <= #[trigger] e[k] < rows.len() && expired(rows[e[k]], now)
    &&& forall|j: int, k: int|
        0 <= j < k < e.len() ==> lex_before(
            rows[#[trigger] e[j]].custom_id,
            rows[#[trigger] e[k]].custom_id,
        )
    &&& forall|i: int| 0 <= i < rows.len() && expired(#[trigger] rows[i], now) ==> e.contains(i)
}

/// The rows once those at the positions `claim` have been leased.
pub open spec fn rows_after_claim(
    rows: Seq<ItemView>,
    claim: Seq<int>,
    until: i64,
    by: Seq<char>,
) -> Seq<ItemView> {
    Seq::new(
        rows.len(),
        |i: int|
            if claim.contains(i) {
                leased_row(rows[i], until, by)
            } else {
                rows[i]
            },
    )
}

/// The rows that a claim of the positions `claim` hands out, in that order.
pub open spec fn claimed(
    rows: Seq<ItemView>,
    claim: Seq<int>,
    until: i64,
    by: Seq<char>,
) -> Seq<ItemView> {
    claim.map_values(|i: int| leased_row(rows[i], until, by))
}

/// The lesser of two lengths.
pub open spec fn lesser(a: nat, b: nat) -> nat {
    if a <= b {
        a
    } else {
        b
    }
}

/// `s` without its first `k` elements, or without any where it has fewer.
pub open spec fn without_first(s: Seq<int>, k: nat) -> Seq<int> {
    s.skip(lesser(k, s.len()) as int)
}

/// `a` without as many of its first elements as `k` exceeds the length of `b`.
pub open spec fn excess(k: nat, b: nat) -> nat {
    if k <= b {
        0
    } else {
        (k - b) as nat
    }
}

/// Taking back the passed leases, in the order of ids `e`, turns `before` into `after`.
pub open spec fn requeue_effect(
    before: RedbQueue,
    after: RedbQueue,
    now: i64,
    e: Seq<int>,
) -> bool {
    &&& is_expired_order(e, before.spec_rows(), now)
    &&& after.spec_rows() == rows_after_reap(before.spec_rows(), now)
    &&& after.spec_requeued() == before.spec_requeued() + e
    &&& after.spec_fresh() == before.spec_fresh()
    &&& after.spec_coordinator() == before.spec_coordinator()
    &&& after.spec_pending_seq() == before.spec_pending_seq()
    &&& after.spec_requeue_seq() == before.spec_requeue_seq() + e.len()
    &&& after.spec_leased_len() == before.spec_leased_len() - e.len()
}

/// A lease of up to `limit` items at `now`, for `nanos` nanoseconds, takes back the
/// passed leases `e` first, and then the front of the line.
pub open spec fn claim_effect(
    before: RedbQueue,
    after: RedbQueue,
    now: i64,
    nanos: nat,
    limit: nat,
    e: Seq<int>,
    out: Seq<ItemView>,
) -> bool {
    let until = lease_end(now, nanos / 1_000_000);
    let by = before.spec_coordinator();
    let rows = rows_after_reap(before.spec_rows(), now);
    let retries = before.spec_requeued() + e;
    let line = retries + before.spec_fresh();
    let k = lesser(limit, line.len());
    &&& is_expired_order(e, before.spec_rows(), now)
    &&& after.spec_rows() == rows_after_claim(rows, line.take(k as int), until, by)
    &&& out == claimed(rows, line.take(k as int), until, by)
    &&& after.spec_requeued() == without_first(retries, k)
    &&& after.spec_fresh() == before.spec_fresh().skip(excess(k, retries.len()) as int)
    &&& after.spec_coordinator() == by
    &&& after.spec_pending_seq() == before.spec_pending_seq()
    &&& after.spec_requeue_seq() == before.spec_requeue_seq() + e.len()
    &&& after.spec_leased_len() == before.spec_leased_len() - e.len() + out.len()
}

/// The ids of the rows ascend.
pub open spec fn rows_ascend(rows: Seq<ItemView>) -> bool {
    forall|i: int, j: int|
        0 <= i < j < rows.len() ==> lex_before(
            (#[trigger] rows[i]).custom_id,
            (#[trigger] rows[j]).custom_id,
        )
}

/// The position of a row with an id, where the ids ascend.
fn find_sorted(items: &Vec<Item>, id: &str) -> (r: Option<usize>)
    requires
        rows_ascend(item_views(items@)),
    ensures
        match r {
            Some(i) => i < items@.len() && items@[i as int].custom_id@ == id@,
            None => forall|i: int| 0 <= i < items@.len() ==> (#[trigger] items@[i]).custom_id@ != id@,
        },
{
    let ghost rows = item_views(items@);
    let mut lo: usize = 0;
    let mut hi: usize = items.len();
    while lo < hi
        invariant
            lo <= hi <= items@.len(),
            rows == item_views(items@),
            rows_ascend(rows),
            forall|i: int| 0 <= i < lo ==> lex_before((#[trigger] items@[i]).custom_id@, id@),
            forall|i: int|
                hi <= i < items@.len() ==> lex_before(id@, (#[trigger] items@[i]).custom_id@),
        decreases hi - lo,
    {
        let mid: usize = lo + (hi - lo) / 2;
        let at: &str = items[mid].custom_id.as_str();
        assert(rows[mid as int].custom_id == at@);
        if str_before(at, id) {
            proof {
                assert forall|i: int| 0 <= i < mid + 1 implies lex_before(
                    (#[trigger] items@[i]).custom_id@,
                    id@,
                ) by {
                    if i < mid {
                        assert(rows[i].custom_id == items@[i].custom_id@);
                        assert(lex_before(rows[i].custom_id, rows[mid as int].custom_id));
                        lemma_lex_transitive(rows[i].custom_id, at@, id@);
                    }
                }
            }
            lo = mid + 1;
        } else if str_before(id, at) {
            proof {
                assert forall|i: int| mid <= i < items@.len() implies lex_before(
                    id@,
                    (#[trigger] items@[i]).custom_id@,
                ) by {
                    if i > mid {
                        assert(rows[i].custom_id == items@[i].custom_id@);
                        assert(lex_before(rows[mid as int].custom_id, rows[i].custom_id));
                        lemma_lex_transitive(id@, at@, rows[i].custom_id);
                    }
                }
            }
            hi = mid;
        } else {
            proof {
                lemma_lex_total(at@, id@);
            }
            return Some(mid);
        }
    }
    proof {
        assert forall|i: int| 0 <= i < items@.len() implies (#[trigger] items@[i]).custom_id@
            != id@ by {
            lemma_lex_total(items@[i].custom_id@, id@);
        }
    }
    None
}

/// Whether the ids of the rows ascend.
fn check_ascend(items: &Vec<Item>) -> (r: bool)
    ensures
        r == rows_ascend(item_views(items@)),
{
    let ghost rows = item_views(items@);
    let mut i: usize = 1;
    while i < items.len()
        invariant
            1 <= i,
            i <= items@.len() || items@.len() == 0,
            rows == item_views(items@),
            forall|a: int, b: int|
                0 <= a < b < i && b < rows.len() ==> lex_before(
                    (#[trigger] rows[a]).custom_id,
                    (#[trigger] rows[b]).custom_id,
                ),
        decreases items@.len() - i,
    {
        let ghost x = i as int;
        if !str_before(items[i - 1].custom_id.as_str(), items[i].custom_id.as_str()) {
            assert(!lex_before(rows[x - 1].custom_id, rows[x].custom_id));
            return false;
        }
        proof {
            assert(lex_before(rows[x - 1].custom_id, rows[x].custom_id));
            assert forall|a: int, b: int| 0 <= a < b < x + 1 && b < rows.len() implies lex_before(
                (#[trigger] rows[a]).custom_id,
                (#[trigger] rows[b]).custom_id,
            ) by {
                if b == x && a < x - 1 {
                    assert(lex_before(rows[a].custom_id, rows[x - 1].custom_id));
                    lemma_lex_transitive(
                        rows[a].custom_id,
                        rows[x - 1].custom_id,
                        rows[x].custom_id,
                    );
                }
            }
        }
        i = i + 1;
    }
    true
}

/// The table of leases has one entry for each leased row, in the order of the rows, with
/// the end of the lease.
pub open spec fn leases_agree(rows: Seq<ItemView>, leased: Seq<(Seq<char>, i64)>) -> bool
    decreases rows.len(),
{
    if rows.len() == 0 {
        leased.len() == 0
    } else if rows[0].status == ItemState::Leased {
        &&& leased.len() > 0
        &&& leased[0].0 == rows[0].custom_id
        &&& rows[0].leased_until == Some(leased[0].1)
        &&& leases_agree(rows.skip(1), leased.skip(1))
    } else {
        leases_agree(rows.skip(1), leased)
    }
}

/// The positions of the leased rows; nothing where the table of leases does not agree.
fn index_leased(items: &Vec<Item>, leased: &Vec<(String, i64)>) -> (r: Option<Vec<usize>>)
    requires
        rows_ascend(item_views(items@)),
    ensures
        match r {
            Some(index) => {
                &&& lists_leased(index@, item_views(items@))
                &&& index@.len() == leased@.len()
                &&& leases_agree(item_views(items@), leased_view(leased@))
            },
            None => !leases_agree(item_views(items@), leased_view(leased@)),
        },
{
    let ghost rows = item_views(items@);
    let ghost all = leased_view(leased@);
    let mut index: Vec<usize> = Vec::new();
    let mut i: usize = 0;
    proof {
        assert(rows.skip(0) =~= rows);
        assert(all.skip(0) =~= all);
    }
    while i < items.len()
        invariant
            i <= items@.len(),
            rows == item_views(items@),
            all == leased_view(leased@),
            rows_ascend(rows),
            index@.len() <= all.len(),
            leases_agree(rows, all) == leases_agree(rows.skip(i as int), all.skip(index@.len() as int)),
            forall|k: int|
                0 <= k < index@.len() ==> (#[trigger] index@[k]) < i && rows[index@[k] as int].status
                    == ItemState::Leased && rows[index@[k] as int].leased_until is Some,
            forall|j: int, k: int|
                0 <= j < k < index@.len() ==> (#[trigger] index@[j]) < (#[trigger] index@[k]),
            forall|x: int|
                0 <= x < i && (#[trigger] rows[x]).status == ItemState::Leased
                    ==> index@.contains(x as usize),
        decreases items@.len() - i,
    {
        let ghost before = index@;
        let n: usize = index.len();
        proof {
            assert(rows[i as int] == items@[i as int]@);
            assert(rows.skip(i as int)[0] == rows[i as int]);
            assert(rows.skip(i as int).skip(1) =~= rows.skip(i + 1));
            if n < all.len() {
                assert(all.skip(n as int)[0] == all[n as int]);
                assert(all.skip(n as int).skip(1) =~= all.skip(n + 1));
            }
        }
        match items[i].status {
            ItemState::Leased => {
                if n >= leased.len() || !str_eq(
                    leased[n].0.as_str(),
                    items[i].custom_id.as_str(),
                ) {
                    return None;
                }
                match items[i].leased_until {
                    Some(until) => {
                        if until != leased[n].1 {
                            return None;
                        }
                    },
                    None => {
                        return None;
                    },
                }
                index.push(i);
                proof {
                    assert forall|x: int| 0 <= x < i + 1 && (#[trigger] rows[x]).status
                        == ItemState::Leased implies index@.contains(x as usize) by {
                        if x < i {
                            let k = choose|k: int|
                                0 <= k < before.len() && before[k] == x as usize;
                            assert(index@[k] == x as usize);
                        } else {
                            assert(index@[before.len() as int] == i);
                        }
                    }
                }
            },
            _ => {},
        }
        i = i + 1;
    }
    if index.len() < leased.len() {
        return None;
    }
    Some(index)
}

/// A pending row has the id.
pub open spec fn listed_row(id: Seq<char>, rows: Seq<ItemView>) -> bool {
    exists|x: int|
        0 <= x < rows.len() && (#[trigger] rows[x]).custom_id == id && rows[x].status
            == ItemState::Pending
}

/// The stored line has the id.
pub open spec fn line_has(line: Seq<(u64, String)>, id: Seq<char>) -> bool {
    exists|k: int| 0 <= k < line.len() && (#[trigger] line[k]).1@ == id
}

/// The sequence number of an entry is below the next one of its kind.
pub open spec fn entry_fits(e: (u64, String), pending_seq: u64, requeue_seq: u64) -> bool {
    if e.0 < FRESH_BASE {
        e.0 < requeue_seq
    } else {
        e.0 < pending_seq
    }
}

/// The line lists just the pending items, each once, by ascending numbers, and the items
/// are in the order of their ids.
pub open spec fn line_agrees(
    rows: Seq<ItemView>,
    line: Seq<(u64, String)>,
    pending_seq: u64,
    requeue_seq: u64,
) -> bool {
    &&& requeue_seq <= FRESH_BASE <= pending_seq
    &&& rows_ascend(rows)
    &&& forall|j: int, k: int|
        0 <= j < k < line.len() ==> (#[trigger] line[j]).0 < (#[trigger] line[k]).0
    &&& forall|j: int, k: int|
        0 <= j < k < line.len() ==> (#[trigger] line[j]).1@ != (#[trigger] line[k]).1@
    &&& forall|k: int|
        0 <= k < line.len() ==> entry_fits(#[trigger] line[k], pending_seq, requeue_seq)
    &&& forall|k: int| 0 <= k < line.len() ==> listed_row((#[trigger] line[k]).1@, rows)
    &&& forall|x: int|
        0 <= x < rows.len() && (#[trigger] rows[x]).status == ItemState::Pending ==> line_has(
            line,
            rows[x].custom_id,
        )
}

/// Every item can be read, and stands under its own id.
pub open spec fn items_read(items: Seq<(String, Result<Item, String>)>) -> bool {
    forall|i: int|
        0 <= i < items.len() ==> ((#[trigger] items[i]).1 matches Ok(item) && item.custom_id@
            == items[i].0@)
}

/// The items that can be read.
pub open spec fn rows_read(items: Seq<(String, Result<Item, String>)>) -> Seq<ItemView> {
    items.map_values(|e: (String, Result<Item, String>)| e.1->Ok_0@)
}

/// The stored tables agree with each other.
pub open spec fn tables_agree(t: StoredTables) -> bool {
    let rows = rows_read(t.items@);
    &&& items_read(t.items@)
    &&& line_agrees(rows, t.pending@, t.pending_seq, t.requeue_seq)
    &&& leases_agree(rows, leased_view(t.leased@))
    &&& counts_rows(t.counts, rows)
}

/// The items, where each can be read and stands under its own id.
fn read_items(items: &Vec<(String, Result<Item, String>)>) -> (r: Option<Vec<Item>>)
    ensures
        match r {
            Some(rows) => items_read(items@) && item_views(rows@) == rows_read(items@),
            None => !items_read(items@),
        },
{
    let mut rows: Vec<Item> = Vec::new();
    let mut i: usize = 0;
    while i < items.len()
        invariant
            i <= items@.len(),
            rows@.len() == i,
            forall|k: int|
                0 <= k < i ==> ((#[trigger] items@[k]).1 matches Ok(item) && item.custom_id@
                    == items@[k].0@ && rows@[k]@ == item@),
        decreases items@.len() - i,
    {
        match &items[i].1 {
            Ok(item) => {
                if !str_eq(item.custom_id.as_str(), items[i].0.as_str()) {
                    return None;
                }
                rows.push(item.duplicate());
            },
            Err(_) => {
                return None;
            },
        }
        i = i + 1;
    }
    assert(item_views(rows@) =~= rows_read(items@));
    Some(rows)
}

/// A queue from what is stored.
pub enum Opened {
    /// The tables agree: they are kept as indexes.
    Indexed(RedbQueue),
    /// They do not: they are kept as they stand.
    AsStored(TableQueue),
}

/// The first `n` entries of a stored line are taken up: the flags say which rows are in.
spec fn is_partial_line(
    requeued: Seq<(u64, usize)>,
    fresh: Seq<(u64, usize)>,
    listed: Seq<bool>,
    line: Seq<(u64, String)>,
    rows: Seq<ItemView>,
    n: int,
) -> bool {
    let l = positions(requeued) + positions(fresh);
    &&& l.len() == n
    &&& n <= line.len()
    &&& forall|k: int|
        0 <= k < l.len() ==> 0 <= #[trigger] l[k] < rows.len() && rows[l[k]].status
            == ItemState::Pending && rows[l[k]].custom_id == line[k].1@
    &&& forall|j: int, k: int| 0 <= j < k < l.len() ==> #[trigger] l[j] != #[trigger] l[k]
    &&& forall|x: int| 0 <= x < rows.len() ==> (#[trigger] listed[x]) == l.contains(x)
}

/// Ids that ascend tell rows apart.
proof fn lemma_ascending_ids_differ(rows: Seq<ItemView>, a: int, b: int)
    requires
        rows_ascend(rows),
        0 <= a < rows.len(),
        0 <= b < rows.len(),
        rows[a].custom_id == rows[b].custom_id,
    ensures
        a == b,
{
    if a < b {
        assert(lex_before(rows[a].custom_id, rows[b].custom_id));
        lemma_lex_total(rows[a].custom_id, rows[b].custom_id);
    } else if b < a {
        assert(lex_before(rows[b].custom_id, rows[a].custom_id));
        lemma_lex_total(rows[b].custom_id, rows[a].custom_id);
    }
}

/// One more entry is taken up.
proof fn lemma_partial_line_step(
    r0: Seq<(u64, usize)>,
    f0: Seq<(u64, usize)>,
    r1: Seq<(u64, usize)>,
    f1: Seq<(u64, usize)>,
    listed: Seq<bool>,
    line: Seq<(u64, String)>,
    rows: Seq<ItemView>,
    n: int,
    at: int,
)
    requires
        is_partial_line(r0, f0, listed, line, rows, n),
        n < line.len(),
        0 <= at < rows.len(),
        listed.len() == rows.len(),
        !listed[at],
        rows[at].status == ItemState::Pending,
        rows[at].custom_id == line[n].1@,
        positions(r1) + positions(f1) == (positions(r0) + positions(f0)).push(at),
    ensures
        is_partial_line(r1, f1, listed.update(at, true), line, rows, n + 1),
{
    let l0 = positions(r0) + positions(f0);
    let l1 = positions(r1) + positions(f1);
    assert(l1 == l0.push(at));
    assert forall|k: int| 0 <= k < l1.len() implies 0 <= #[trigger] l1[k] < rows.len()
        && rows[l1[k]].status == ItemState::Pending && rows[l1[k]].custom_id == line[k].1@ by {
        if k < n {
            assert(l1[k] == l0[k]);
        }
    }
    assert forall|j: int, k: int| 0 <= j < k < l1.len() implies #[trigger] l1[j] != #[trigger] l1[
        k] by {
        assert(l1[j] == l0[j]);
        if k < n {
            assert(l1[k] == l0[k]);
        } else {
            assert(l0.contains(l0[j]));
        }
    }
    assert forall|x: int| 0 <= x < rows.len() implies (#[trigger] listed.update(at, true)[x])
        == l1.contains(x) by {
        if l0.contains(x) {
            let k = choose|k: int| 0 <= k < l0.len() && l0[k] == x;
            assert(l1[k] == x);
        }
        if x == at {
            assert(l1[n] == at);
        }
        if l1.contains(x) && x != at {
            let k = choose|k: int| 0 <= k < l1.len() && l1[k] == x;
            assert(l0[k] == x);
        }
    }
}

/// `order` lists the positions of all rows, in the order of their ids.
pub open spec fn is_id_order(order: Seq<usize>, rows: Seq<ItemView>) -> bool {
    &&& order.len() == rows.len()
    &&& forall|k: int| 0 <= k < order.len() ==> (#[trigger] order[k]) < rows.len()
    &&& forall|j: int, k: int|
        0 <= j < k < order.len() ==> lex_before(
            rows[#[trigger] order[j] as int].custom_id,
            rows[#[trigger] order[k] as int].custom_id,
        )
    &&& forall|x: int| 0 <= x < rows.len() ==> #[trigger] order.contains(x as usize)
}

/// Both hold the same rows, in whatever order.
pub open spec fn same_rows(a: Seq<ItemView>, b: Seq<ItemView>) -> bool {
    &&& a.len() == b.len()
    &&& forall|i: int| 0 <= i < a.len() ==> b.contains(#[trigger] a[i])
    &&& forall|i: int| 0 <= i < b.len() ==> a.contains(#[trigger] b[i])
}

/// One more row finds its place.
proof fn lemma_id_order_step(order: Seq<usize>, rows: Seq<ItemView>, i: int, at: int)
    requires
        0 <= i < rows.len() <= usize::MAX,
        is_id_order(order, rows.take(i)),
        0 <= at <= order.len(),
        forall|k: int|
            at <= k < order.len() ==> lex_before(
                rows[i].custom_id,
                rows[#[trigger] order[k] as int].custom_id,
            ),
        at > 0 ==> lex_before(rows[order[at - 1] as int].custom_id, rows[i].custom_id),
    ensures
        is_id_order(order.insert(at, i as usize), rows.take(i + 1)),
{
    let part = rows.take(i);
    let more = rows.take(i + 1);
    let next = order.insert(at, i as usize);
    assert forall|k: int| 0 <= k < at implies lex_before(
        rows[#[trigger] order[k] as int].custom_id,
        rows[i].custom_id,
    ) by {
        if k < at - 1 {
            assert(lex_before(part[order[k] as int].custom_id, part[order[at - 1] as int].custom_id));
            lemma_lex_transitive(
                rows[order[k] as int].custom_id,
                rows[order[at - 1] as int].custom_id,
                rows[i].custom_id,
            );
        }
    }
    assert forall|k: int| 0 <= k < next.len() implies (#[trigger] next[k]) < more.len() by {
        if k != at {
            let o = if k < at { k } else { k - 1 };
            assert(next[k] == order[o]);
        }
    }
    assert forall|j: int, k: int| 0 <= j < k < next.len() implies lex_before(
        more[#[trigger] next[j] as int].custom_id,
        more[#[trigger] next[k] as int].custom_id,
    ) by {
        let a = if j < at { j } else { j - 1 };
        let b = if k < at { k } else { k - 1 };
        if j != at {
            assert(next[j] == order[a]);
            assert(order[a] < part.len());
        }
        if k != at {
            assert(next[k] == order[b]);
            assert(order[b] < part.len());
        }
        if j != at && k != at {
            assert(lex_before(part[order[a] as int].custom_id, part[order[b] as int].custom_id));
        }
    }
    assert forall|x: int| 0 <= x < more.len() implies #[trigger] next.contains(x as usize) by {
        if x < i {
            assert(order.contains(x as usize));
            let k = choose|k: int| 0 <= k < order.len() && order[k] == x as usize;
            assert(next[if k < at { k } else { k + 1 }] == x as usize);
        } else {
            assert(next[at] == i as usize);
        }
    }
}

/// One more row, with its lease where it has one.
proof fn lemma_leases_step(rows: Seq<ItemView>, leased: Seq<(Seq<char>, i64)>, row: ItemView)
    requires
        leases_agree(rows, leased),
    ensures
        row.status != ItemState::Leased ==> leases_agree(rows.push(row), leased),
        row.status == ItemState::Leased && row.leased_until is Some ==> leases_agree(
            rows.push(row),
            leased.push((row.custom_id, row.leased_until->0)),
        ),
    decreases rows.len(),
{
    let more = rows.push(row);
    let longer = leased.push((row.custom_id, row.leased_until->0));
    if rows.len() == 0 {
        assert(more.skip(1) =~= Seq::<ItemView>::empty());
        assert(longer.skip(1) =~= Seq::<(Seq<char>, i64)>::empty());
        assert(leases_agree(more.skip(1), longer.skip(1)));
        assert(leases_agree(more.skip(1), leased));
    } else {
        assert(more.skip(1) =~= rows.skip(1).push(row));
        if rows[0].status == ItemState::Leased {
            assert(longer.skip(1) =~= leased.skip(1).push((row.custom_id, row.leased_until->0)));
            lemma_leases_step(rows.skip(1), leased.skip(1), row);
        } else {
            lemma_leases_step(rows.skip(1), leased, row);
        }
    }
}

/// One more row raises the count of its state, and no other.
proof fn lemma_counts_step(rows: Seq<ItemView>, row: ItemView)
    ensures
        forall|s: ItemState| #[trigger] count_state(rows.push(row), s) == count_state(rows, s) + if row.status
            == s {
            1nat
        } else {
            0nat
        },
{
    assert(rows.push(row).drop_last() =~= rows);
}

/// The line agrees with the rows in the order of their ids too.
proof fn lemma_sorted_line_agrees(
    rows: Seq<ItemView>,
    order: Seq<usize>,
    sorted: Seq<ItemView>,
    positions: Seq<int>,
    line: Seq<(u64, String)>,
    pending_seq: u64,
    requeue_seq: u64,
)
    requires
        requeue_seq <= FRESH_BASE <= pending_seq,
        rows.len() <= usize::MAX,
        distinct_ids(rows),
        lists_pending(positions, rows),
        is_id_order(order, rows),
        sorted == Seq::new(order.len(), |k: int| rows[order[k] as int]),
        is_line(line_view(line), positions, rows),
        forall|j: int, k: int|
            0 <= j < k < line.len() ==> (#[trigger] line[j]).0 < (#[trigger] line[k]).0,
        forall|k: int|
            0 <= k < line.len() ==> entry_fits(#[trigger] line[k], pending_seq, requeue_seq),
    ensures
        line_agrees(sorted, line, pending_seq, requeue_seq),
        same_rows(sorted, rows),
{
    let ids = line_view(line);
    assert forall|x: int| 0 <= x < rows.len() implies sorted.contains(#[trigger] rows[x]) by {
        assert(order.contains(x as usize));
        let k = choose|k: int| 0 <= k < order.len() && order[k] == x as usize;
        assert(sorted[k] == rows[x]);
    }
    assert forall|k: int| 0 <= k < sorted.len() implies rows.contains(#[trigger] sorted[k]) by {
        assert(order[k] < rows.len());
        assert(rows[order[k] as int] == sorted[k]);
    }
    assert forall|i: int, j: int| 0 <= i < j < sorted.len() implies lex_before(
        (#[trigger] sorted[i]).custom_id,
        (#[trigger] sorted[j]).custom_id,
    ) by {
        assert(order[i] < rows.len() && order[j] < rows.len());
    }
    assert forall|j: int, k: int| 0 <= j < k < line.len() implies (#[trigger] line[j]).1@ != (
    #[trigger] line[k]).1@ by {
        assert(ids[j] == rows[positions[j]].custom_id && ids[k] == rows[positions[k]].custom_id);
        assert(positions[j] != positions[k]);
        if positions[j] < positions[k] {
            assert(rows[positions[j]].custom_id != rows[positions[k]].custom_id);
        } else {
            assert(rows[positions[k]].custom_id != rows[positions[j]].custom_id);
        }
    }
    assert forall|k: int| 0 <= k < line.len() implies listed_row((#[trigger] line[k]).1@, sorted) by {
        assert(ids[k] == rows[positions[k]].custom_id);
        assert(sorted.contains(rows[positions[k]]));
        let x = choose|x: int| 0 <= x < sorted.len() && sorted[x] == rows[positions[k]];
        assert(sorted[x].custom_id == line[k].1@);
    }
    assert forall|x: int|
        0 <= x < sorted.len() && (#[trigger] sorted[x]).status == ItemState::Pending implies line_has(
        line,
        sorted[x].custom_id,
    ) by {
        assert(order[x] < rows.len());
        assert(rows[order[x] as int] == sorted[x]);
        assert(positions.contains(order[x] as int));
        let k = choose|k: int| 0 <= k < positions.len() && positions[k] == order[x] as int;
        assert(ids[k] == rows[positions[k]].custom_id);
        assert(line[k].1@ == sorted[x].custom_id);
    }
}

/// A line that is taken up whole, and in which every pending row stands, agrees.
proof fn lemma_line_agrees(
    requeued: Seq<(u64, usize)>,
    fresh: Seq<(u64, usize)>,
    listed: Seq<bool>,
    line: Seq<(u64, String)>,
    rows: Seq<ItemView>,
    pending_seq: u64,
    requeue_seq: u64,
)
    requires
        requeue_seq <= FRESH_BASE <= pending_seq,
        rows_ascend(rows),
        is_partial_line(requeued, fresh, listed, line, rows, line.len() as int),
        forall|j: int, k: int|
            0 <= j < k < line.len() ==> (#[trigger] line[j]).0 < (#[trigger] line[k]).0,
        forall|k: int|
            0 <= k < line.len() ==> entry_fits(#[trigger] line[k], pending_seq, requeue_seq),
        forall|x: int|
            0 <= x < rows.len() && (#[trigger] rows[x]).status == ItemState::Pending ==> (positions(
                requeued,
            ) + positions(fresh)).contains(x),
    ensures
        line_agrees(rows, line, pending_seq, requeue_seq),
{
    let l = positions(requeued) + positions(fresh);
    assert forall|j: int, k: int| 0 <= j < k < line.len() implies (#[trigger] line[j]).1@ != (
    #[trigger] line[k]).1@ by {
        assert(l[j] != l[k]);
        if rows[l[j]].custom_id == rows[l[k]].custom_id {
            lemma_ascending_ids_differ(rows, l[j], l[k]);
        }
    }
    assert forall|k: int| 0 <= k < line.len() implies listed_row((#[trigger] line[k]).1@, rows) by {
        assert(rows[l[k]].custom_id == line[k].1@);
    }
    assert forall|x: int|
        0 <= x < rows.len() && (#[trigger] rows[x]).status == ItemState::Pending implies line_has(
        line,
        rows[x].custom_id,
    ) by {
        let k = choose|k: int| 0 <= k < l.len() && l[k] == x;
        assert(line[k].1@ == rows[x].custom_id);
    }
}

/// The ids of a stored line.
pub open spec fn line_view(line: Seq<(u64, String)>) -> Seq<Seq<char>> {
    line.map_values(|e: (u64, String)| e.1@)
}

/// The ids are those of the rows at the positions, in order.
pub open spec fn is_line(ids: Seq<Seq<char>>, line: Seq<int>, rows: Seq<ItemView>) -> bool {
    &&& ids.len() == line.len()
    &&& forall|k: int|
        0 <= k < ids.len() ==> 0 <= line[k] < rows.len() && (#[trigger] ids[k])
            == rows[line[k]].custom_id
}

impl RedbQueue {
    /// The items, in the order in which they were first enqueued.
    pub closed spec fn spec_rows(self) -> Seq<ItemView> {
        item_views(self.items@)
    }

    /// The front part of the line: items whose lease has passed.
    pub closed spec fn spec_requeued(self) -> Seq<int> {
        positions(self.requeued@)
    }

    /// The back part of the line: items that were never tried.
    pub closed spec fn spec_fresh(self) -> Seq<int> {
        positions(self.fresh@)
    }

    /// The tag that leases carry.
    pub closed spec fn spec_coordinator(self) -> Seq<char> {
        self.coordinator_id@
    }

    /// The next sequence number of a never-tried item.
    pub closed spec fn spec_pending_seq(self) -> nat {
        self.pending_seq as nat
    }

    /// The next sequence number of an item whose lease has passed.
    pub closed spec fn spec_requeue_seq(self) -> nat {
        self.requeue_seq as nat
    }

    /// How many leases are out.
    pub closed spec fn spec_leased_len(self) -> nat {
        self.leased@.len()
    }

    /// The index tables and the counters agree with the items.
    pub closed spec fn wf(self) -> bool {
        let rows = item_views(self.items@);
        &&& distinct_ids(rows)
        &&& lists_pending(positions(self.requeued@) + positions(self.fresh@), rows)
        &&& lists_leased(self.leased@, rows)
        &&& counts_rows(self.counts, rows)
        &&& numbered(self.requeued@, 0, self.requeue_seq as int)
        &&& numbered(self.fresh@, FRESH_BASE as int, self.pending_seq as int)
        &&& self.requeue_seq <= FRESH_BASE <= self.pending_seq
    }

    /// An empty queue of the process with the number `process`.
    pub fn new(process: u32) -> (q: Self)
        ensures
            q.wf(),
            q.spec_rows() == Seq::<ItemView>::empty(),
            q.spec_requeued() == Seq::<int>::empty(),
            q.spec_fresh() == Seq::<int>::empty(),
            q.spec_coordinator() == process_tag(process),
            q.spec_pending_seq() == FRESH_BASE,
            q.spec_requeue_seq() == 0,
            q.spec_leased_len() == 0,
    {
        let q: RedbQueue = RedbQueue {
            items: Vec::new(),
            requeued: VecDeque::new(),
            fresh: VecDeque::new(),
            leased: Vec::new(),
            counts: QueueCounts::default(),
            pending_seq: FRESH_BASE,
            requeue_seq: 0,
            coordinator_id: coordinator_tag(process),
        };
        assert(item_views(q.items@) == Seq::<ItemView>::empty());
        assert(positions(q.requeued@) == Seq::<int>::empty());
        q
    }

    /// The items.
    pub fn items(&self) -> (r: &Vec<Item>)
        ensures
            item_views(r@) == self.spec_rows(),
    {
        &self.items
    }

    /// The next sequence numbers: of a never-tried item, and of one whose lease has
    /// passed.
    pub fn sequences(&self) -> (r: (u64, u64))
        ensures
            r.0 == self.spec_pending_seq(),
            r.1 == self.spec_requeue_seq(),
    {
        (self.pending_seq, self.requeue_seq)
    }

    /// The line as it is stored: sequence numbers and ids, in order.
    pub fn line(&self) -> (r: Vec<(u64, String)>)
        requires
            self.wf(),
        ensures
            is_line(line_view(r@), self.spec_requeued() + self.spec_fresh(), self.spec_rows()),
            forall|j: int, k: int|
                0 <= j < k < r@.len() ==> (#[trigger] r@[j]).0 < (#[trigger] r@[k]).0,
            forall|k: int|
                0 <= k < r@.len() ==> entry_fits(
                    #[trigger] r@[k],
                    self.spec_pending_seq() as u64,
                    self.spec_requeue_seq() as u64,
                ),
    {
        let ghost rows = item_views(self.items@);
        let ghost a = positions(self.requeued@);
        let ghost b = positions(self.fresh@);
        let mut out: Vec<(u64, String)> = Vec::new();
        let mut i: usize = 0;
        while i < self.requeued.len()
            invariant
                i <= self.requeued@.len(),
                self.wf(),
                rows == item_views(self.items@),
                a == positions(self.requeued@),
                b == positions(self.fresh@),
                out@.len() == i,
                forall|k: int|
                    0 <= k < i ==> (#[trigger] out@[k]).1@ == rows[a[k]].custom_id && out@[k].0
                        == self.requeued@[k].0,
            decreases self.requeued@.len() - i,
        {
            let (seq, at): (u64, usize) = self.requeued[i];
            assert((a + b)[i as int] == at);
            out.push((seq, self.items[at].custom_id.as_str().to_owned()));
            i = i + 1;
        }
        let mut j: usize = 0;
        while j < self.fresh.len()
            invariant
                j <= self.fresh@.len(),
                self.wf(),
                rows == item_views(self.items@),
                a == positions(self.requeued@),
                b == positions(self.fresh@),
                out@.len() == a.len() + j,
                forall|k: int|
                    0 <= k < a.len() + j ==> (#[trigger] out@[k]).1@ == rows[(a + b)[k]].custom_id
                        && out@[k].0 == if k < a.len() {
                        self.requeued@[k].0
                    } else {
                        self.fresh@[k - a.len()].0
                    },
            decreases self.fresh@.len() - j,
        {
            let (seq, at): (u64, usize) = self.fresh[j];
            assert((a + b)[a.len() + j] == at);
            out.push((seq, self.items[at].custom_id.as_str().to_owned()));
            j = j + 1;
        }
        out
    }

    /// The positions of the items, in the order of their ids.
    fn by_id(&self) -> (order: Vec<usize>)
        requires
            self.wf(),
        ensures
            is_id_order(order@, self.spec_rows()),
    {
        let ghost rows = item_views(self.items@);
        let mut order: Vec<usize> = Vec::new();
        let mut i: usize = 0;
        while i < self.items.len()
            invariant
                i <= self.items@.len(),
                rows == item_views(self.items@),
                distinct_ids(rows),
                is_id_order(order@, rows.take(i as int)),
            decreases self.items@.len() - i,
        {
            let ghost before = order@;
            let ghost part = rows.take(i as int);
            let mut at: usize = order.len();
            while at > 0 && str_before(
                self.items[i].custom_id.as_str(),
                self.items[order[at - 1]].custom_id.as_str(),
            )
                invariant
                    at <= order@.len(),
                    order@ == before,
                    i < self.items@.len(),
                    rows == item_views(self.items@),
                    part == rows.take(i as int),
                    is_id_order(before, part),
                    forall|k: int|
                        at <= k < before.len() ==> lex_before(
                            rows[i as int].custom_id,
                            rows[#[trigger] before[k] as int].custom_id,
                        ),
                decreases at,
            {
                assert(before[at - 1] < part.len());
                assert(rows[i as int] == self.items@[i as int]@);
                assert(rows[before[at - 1] as int] == self.items@[before[at - 1] as int]@);
                at = at - 1;
            }
            proof {
                if at > 0 {
                    assert(before[at - 1] < part.len());
                    assert(rows[i as int] == self.items@[i as int]@);
                    assert(rows[before[at - 1] as int] == self.items@[before[at - 1] as int]@);
                    assert(rows[before[at - 1] as int].custom_id != rows[i as int].custom_id);
                    lemma_lex_total(rows[before[at - 1] as int].custom_id, rows[i as int].custom_id);
                }
                lemma_id_order_step(before, rows, i as int, at as int);
            }
            order.insert(at, i);
            i = i + 1;
        }
        assert(rows.take(rows.len() as int) =~= rows);
        order
    }

    /// The tables as they are stored. They agree, and hold the same items and the same
    /// line.
    pub fn tables(&self) -> (t: StoredTables)
        requires
            self.wf(),
        ensures
            tables_agree(t),
            same_rows(rows_read(t.items@), self.spec_rows()),
            is_line(line_view(t.pending@), self.spec_requeued() + self.spec_fresh(), self.spec_rows()),
            t.pending_seq == self.spec_pending_seq(),
            t.requeue_seq == self.spec_requeue_seq(),
    {
        let ghost rows = item_views(self.items@);
        let order: Vec<usize> = self.by_id();
        let n: usize = order.len();
        let ghost sorted = Seq::new(order@.len(), |k: int| rows[order@[k] as int]);
        let mut items: Vec<(String, Result<Item, String>)> = Vec::new();
        let mut leased: Vec<(String, i64)> = Vec::new();
        let mut counts: QueueCounts = QueueCounts::default();
        let mut i: usize = 0;
        proof {
            crate::queue::law_counts_add_up(sorted);
            assert(sorted.take(0) =~= Seq::<ItemView>::empty());
        }
        while i < n
            invariant
                i <= n == order@.len(),
                self.wf(),
                rows == item_views(self.items@),
                is_id_order(order@, rows),
                sorted == Seq::new(order@.len(), |k: int| rows[order@[k] as int]),
                items@.len() == i,
                forall|k: int|
                    0 <= k < i ==> ((#[trigger] items@[k]).1 matches Ok(item) && item@ == sorted[k]
                        && item.custom_id@ == items@[k].0@),
                leases_agree(sorted.take(i as int), leased_view(leased@)),
                counts_rows(counts, sorted.take(i as int)),
            decreases order@.len() - i,
        {
            let at: usize = order[i];
            let item: Item = self.items[at].duplicate();
            proof {
                assert(rows[at as int] == self.items@[at as int]@);
                assert(sorted.take(i + 1) =~= sorted.take(i as int).push(sorted[i as int]));
                crate::queue::law_counts_add_up(sorted.take(i as int));
                lemma_leases_step(sorted.take(i as int), leased_view(leased@), sorted[i as int]);
                lemma_counts_step(sorted.take(i as int), sorted[i as int]);
            }
            match item.status {
                ItemState::Pending => {
                    counts.pending = counts.pending + 1;
                },
                ItemState::Leased => {
                    counts.leased = counts.leased + 1;
                    let ghost before = leased@;
                    match item.leased_until {
                        Some(until) => {
                            leased.push((item.custom_id.as_str().to_owned(), until));
                            assert(leased_view(leased@) =~= leased_view(before).push(
                                (item@.custom_id, until),
                            ));
                        },
                        None => {
                            assert(self.leased@.contains(at));
                        },
                    }
                },
                ItemState::Done => {
                    counts.done = counts.done + 1;
                },
                ItemState::DeadLetter => {
                    counts.dead = counts.dead + 1;
                },
            }
            items.push((item.custom_id.as_str().to_owned(), Ok(item)));
            i = i + 1;
        }
        let pending: Vec<(u64, String)> = self.line();
        let t: StoredTables = StoredTables {
            items,
            pending,
            leased,
            counts,
            pending_seq: self.pending_seq,
            requeue_seq: self.requeue_seq,
        };
        proof {
            assert(sorted.take(sorted.len() as int) =~= sorted);
            assert(rows_read(t.items@) =~= sorted);
            lemma_sorted_line_agrees(
                rows,
                order@,
                sorted,
                positions(self.requeued@) + positions(self.fresh@),
                t.pending@,
                t.pending_seq,
                t.requeue_seq,
            );
        }
        t
    }

    /// A queue from what is stored, for the process with the number `process`. Tables
    /// that do not agree are taken as they stand.
    pub fn open(tables: StoredTables, process: u32) -> (r: Opened)
        ensures
            match r {
                Opened::Indexed(q) => {
                    &&& tables_agree(tables)
                    &&& q.wf()
                    &&& q.spec_rows() == rows_read(tables.items@)
                    &&& is_line(
                        line_view(tables.pending@),
                        q.spec_requeued() + q.spec_fresh(),
                        q.spec_rows(),
                    )
                    &&& q.spec_coordinator() == process_tag(process)
                    &&& q.spec_pending_seq() == tables.pending_seq
                    &&& q.spec_requeue_seq() == tables.requeue_seq
                    &&& q.spec_leased_len() == tables.leased@.len()
                },
                Opened::AsStored(q) => {
                    &&& !tables_agree(tables)
                    &&& q@ == tables@
                    &&& q.spec_coordinator() == process_tag(process)
                },
            },
    {
        match Self::indexed(&tables, process) {
            Some(q) => Opened::Indexed(q),
            None => Opened::AsStored(TableQueue::new(tables, process)),
        }
    }

    /// The queue whose indexes the tables are, where they agree.
    fn indexed(tables: &StoredTables, process: u32) -> (r: Option<Self>)
        ensures
            match r {
                Some(q) => {
                    &&& tables_agree(*tables)
                    &&& q.wf()
                    &&& q.spec_rows() == rows_read(tables.items@)
                    &&& is_line(
                        line_view(tables.pending@),
                        q.spec_requeued() + q.spec_fresh(),
                        q.spec_rows(),
                    )
                    &&& q.spec_coordinator() == process_tag(process)
                    &&& q.spec_pending_seq() == tables.pending_seq
                    &&& q.spec_requeue_seq() == tables.requeue_seq
                    &&& q.spec_leased_len() == tables.leased@.len()
                },
                None => !tables_agree(*tables),
            },
    {
        let items: Vec<Item> = match read_items(&tables.items) {
            Some(items) => items,
            None => {
                return None;
            },
        };
        let line: &Vec<(u64, String)> = &tables.pending;
        let pending_seq: u64 = tables.pending_seq;
        let requeue_seq: u64 = tables.requeue_seq;
        let ghost rows = item_views(items@);
        if requeue_seq > FRESH_BASE || pending_seq < FRESH_BASE {
            return None;
        }
        if !check_ascend(&items) {
            return None;
        }
        let leased: Vec<usize> = match index_leased(&items, &tables.leased) {
            Some(x) => x,
            None => {
                return None;
            },
        };
        let counts: QueueCounts = count_rows(&items);
        if counts != tables.counts {
            return None;
        }
        let mut listed: Vec<bool> = Vec::new();
        let mut n: usize = 0;
        while n < items.len()
            invariant
                n <= items@.len(),
                listed@.len() == n,
                forall|x: int| 0 <= x < n ==> !(#[trigger] listed@[x]),
            decreases items@.len() - n,
        {
            listed.push(false);
            n = n + 1;
        }
        let mut requeued: VecDeque<(u64, usize)> = VecDeque::new();
        let mut fresh: VecDeque<(u64, usize)> = VecDeque::new();
        let mut i: usize = 0;
        while i < line.len()
            invariant
                i <= line@.len(),
                rows == item_views(items@),
                rows_ascend(rows),
                listed@.len() == rows.len(),
                requeue_seq <= FRESH_BASE <= pending_seq,
                is_partial_line(requeued@, fresh@, listed@, line@, rows, i as int),
                *line == tables.pending,
                pending_seq == tables.pending_seq,
                requeue_seq == tables.requeue_seq,
                rows == rows_read(tables.items@),
                forall|j: int, k: int|
                    0 <= j < k < i ==> (#[trigger] line@[j]).0 < (#[trigger] line@[k]).0,
                numbered(requeued@, 0, requeue_seq as int),
                numbered(fresh@, FRESH_BASE as int, pending_seq as int),
                forall|k: int| 0 <= k < requeued@.len() ==> (#[trigger] requeued@[k]).0 <= line@[i - 1].0,
                forall|k: int| 0 <= k < fresh@.len() ==> (#[trigger] fresh@[k]).0 <= line@[i - 1].0,
                forall|k: int| 0 <= k < i ==> entry_fits(#[trigger] line@[k], pending_seq, requeue_seq),
            decreases line@.len() - i,
        {
            let seq: u64 = line[i].0;
            if i > 0 && seq <= line[i - 1].0 {
                assert(!(line@[i - 1].0 < line@[i as int].0));
                return None;
            }
            if (seq < FRESH_BASE && seq >= requeue_seq) || (seq >= FRESH_BASE && seq
                >= pending_seq) {
                assert(!entry_fits(line@[i as int], pending_seq, requeue_seq));
                return None;
            }
            let at: usize = match find_sorted(&items, line[i].1.as_str()) {
                Some(at) => at,
                None => {
                    proof {
                        assert(!listed_row(line@[i as int].1@, rows)) by {
                            if listed_row(line@[i as int].1@, rows) {
                                let x = choose|x: int|
                                    0 <= x < rows.len() && (#[trigger] rows[x]).custom_id
                                        == line@[i as int].1@ && rows[x].status
                                        == ItemState::Pending;
                                assert(items@[x].custom_id@ == line@[i as int].1@);
                            }
                        }
                    }
                    return None;
                },
            };
            assert(rows[at as int] == items@[at as int]@);
            let pending: bool = match items[at].status {
                ItemState::Pending => true,
                _ => false,
            };
            if !pending {
                proof {
                    assert(!listed_row(line@[i as int].1@, rows)) by {
                        if listed_row(line@[i as int].1@, rows) {
                            let x = choose|x: int|
                                0 <= x < rows.len() && (#[trigger] rows[x]).custom_id
                                    == line@[i as int].1@ && rows[x].status == ItemState::Pending;
                            lemma_ascending_ids_differ(rows, x, at as int);
                        }
                    }
                }
                return None;
            }
            if listed[at] {
                proof {
                    let l = positions(requeued@) + positions(fresh@);
                    let k = choose|k: int| 0 <= k < l.len() && l[k] == at as int;
                    assert(line@[k].1@ == line@[i as int].1@);
                }
                return None;
            }
            let ghost r0 = requeued@;
            let ghost f0 = fresh@;
            let ghost l0 = listed@;
            listed.set(at, true);
            if seq < FRESH_BASE {
                proof {
                    if f0.len() > 0 {
                        assert(f0[0].0 >= FRESH_BASE);
                        assert(f0[0].0 <= line@[i - 1].0);
                    }
                }
                requeued.push_back((seq, at));
                proof {
                    assert(positions(requeued@) == positions(r0).push(at as int));
                    assert(positions(requeued@) + positions(fresh@) == (positions(r0) + positions(
                        f0,
                    )).push(at as int));
                }
            } else {
                fresh.push_back((seq, at));
                proof {
                    assert(positions(fresh@) == positions(f0).push(at as int));
                    assert(positions(requeued@) + positions(fresh@) == (positions(r0) + positions(
                        f0,
                    )).push(at as int));
                }
            }
            proof {
                lemma_partial_line_step(r0, f0, requeued@, fresh@, l0, line@, rows, i as int, at as int);
            }
            i = i + 1;
        }
        let ghost whole = positions(requeued@) + positions(fresh@);
        let mut x: usize = 0;
        while x < items.len()
            invariant
                x <= items@.len(),
                rows == item_views(items@),
                rows_ascend(rows),
                listed@.len() == rows.len(),
                is_partial_line(requeued@, fresh@, listed@, line@, rows, line@.len() as int),
                whole == positions(requeued@) + positions(fresh@),
                *line == tables.pending,
                rows == rows_read(tables.items@),
                forall|k: int|
                    0 <= k < x && (#[trigger] rows[k]).status == ItemState::Pending
                        ==> whole.contains(k),
            decreases items@.len() - x,
        {
            assert(rows[x as int] == items@[x as int]@);
            let pending: bool = match items[x].status {
                ItemState::Pending => true,
                _ => false,
            };
            if pending && !listed[x] {
                proof {
                    assert(!whole.contains(x as int));
                    assert(!line_has(line@, rows[x as int].custom_id)) by {
                        if line_has(line@, rows[x as int].custom_id) {
                            let k = choose|k: int|
                                0 <= k < line@.len() && (#[trigger] line@[k]).1@
                                    == rows[x as int].custom_id;
                            assert(rows[whole[k]].custom_id == rows[x as int].custom_id);
                            lemma_ascending_ids_differ(rows, whole[k], x as int);
                            assert(whole.contains(x as int));
                        }
                    }
                }
                return None;
            }
            x = x + 1;
        }
        proof {
            lemma_line_agrees(requeued@, fresh@, listed@, line@, rows, pending_seq, requeue_seq);
            assert forall|a: int, b: int| 0 <= a < b < rows.len() implies (
            #[trigger] rows[a]).custom_id != (#[trigger] rows[b]).custom_id by {
                assert(lex_before(rows[a].custom_id, rows[b].custom_id));
                lemma_lex_total(rows[a].custom_id, rows[b].custom_id);
            }
        }
        Some(
            RedbQueue {
                items,
                requeued,
                fresh,
                leased,
                counts,
                pending_seq,
                requeue_seq,
                coordinator_id: coordinator_tag(process),
            },
        )
    }

    /// Whether sequence numbers are left for `n` more never-tried items.
    pub fn can_enqueue(&self, n: usize) -> (r: bool)
        ensures
            r == (self.spec_pending_seq() + n <= u64::MAX),
    {
        self.pending_seq as u128 + n as u128 <= 0xffff_ffff_ffff_ffff
    }

    /// Whether sequence numbers are left to take back every lease that is out.
    pub fn can_requeue(&self) -> (r: bool)
        ensures
            r == (self.spec_requeue_seq() + self.spec_leased_len() <= FRESH_BASE),
    {
        self.requeue_seq as u128 + self.leased.len() as u128 <= FRESH_BASE as u128
    }

    /// The stored item of an id.
    pub fn row(&self, custom_id: &str) -> (r: Option<&Item>)
        ensures
            match r {
                Some(i) => i@.custom_id == custom_id@ && self.spec_rows().contains(i@),
                None => !has_id(self.spec_rows(), custom_id@),
            },
    {
        match find_row(&self.items, custom_id) {
            Some(i) => {
                assert(self.spec_rows()[i as int] == self.items@[i as int]@);
                Some(&self.items[i])
            },
            None => None,
        }
    }

    /// Current cardinalities by state.
    pub fn counts(&self) -> (c: QueueCounts)
        requires
            self.wf(),
        ensures
            counts_rows(c, self.spec_rows()),
    {
        self.counts
    }

    fn push_fresh(&mut self, item: Item)
        requires
            old(self).wf(),
            old(self).spec_pending_seq() < u64::MAX,
            item@ == fresh_row(item@),
            !has_id(old(self).spec_rows(), item@.custom_id),
        ensures
            final(self).wf(),
            final(self).spec_rows() == old(self).spec_rows().push(item@),
            final(self).spec_requeued() == old(self).spec_requeued(),
            final(self).spec_fresh() == old(self).spec_fresh().push(
                old(self).spec_rows().len() as int,
            ),
            final(self).spec_coordinator() == old(self).spec_coordinator(),
            final(self).spec_pending_seq() == old(self).spec_pending_seq() + 1,
            final(self).spec_requeue_seq() == old(self).spec_requeue_seq(),
            final(self).spec_leased_len() == old(self).spec_leased_len(),
    {
        let ghost rows = self.spec_rows();
        let ghost line = positions(self.requeued@) + positions(self.fresh@);
        let ghost fresh = self.fresh@;
        let at: usize = self.items.len();
        let seq: u64 = self.pending_seq;
        proof {
            crate::queue::law_counts_add_up(rows);
        }
        self.items.push(item);
        let n: usize = self.items.len();
        self.fresh.push_back((seq, at));
        self.pending_seq = seq + 1;
        self.counts = QueueCounts { pending: self.counts.pending + 1, ..self.counts };
        proof {
            let after = item_views(self.items@);
            assert(after == rows.push(item@));
            assert(after.drop_last() == rows);
            assert(positions(self.fresh@) == positions(fresh).push(at as int));
            let now = positions(self.requeued@) + positions(self.fresh@);
            assert(now == line.push(at as int));
            assert forall|i: int, j: int| 0 <= i < j < after.len() implies (
            #[trigger] after[i]).custom_id != (#[trigger] after[j]).custom_id by {
                assert(after[i] == rows[i]);
                if j < rows.len() {
                    assert(after[j] == rows[j]);
                } else {
                    assert(rows[i].custom_id != item@.custom_id);
                }
            }
            assert forall|i: int| 0 <= i < after.len() && (#[trigger] after[i]).status
                == ItemState::Pending implies now.contains(i) by {
                if i < rows.len() {
                    assert(rows[i].status == ItemState::Pending);
                    assert(line.contains(i));
                    let k = choose|k: int| 0 <= k < line.len() && line[k] == i;
                    assert(now[k] == i);
                } else {
                    assert(now[line.len() as int] == i);
                }
            }
            assert forall|i: int| 0 <= i < after.len() && (#[trigger] after[i]).status
                == ItemState::Leased implies self.leased@.contains(i as usize) by {
                assert(i < rows.len());
                assert(rows[i].status == ItemState::Leased);
            }
        }
    }

    /// Idempotent hydrate: one pending item per id, at the end of the line, skipping
    /// ids that are already there. Returns the number of items inserted.
    pub fn enqueue(&mut self, items: &[Item]) -> (inserted: u64)
        requires
            old(self).wf(),
            old(self).spec_pending_seq() + items@.len() <= u64::MAX,
        ensures
            final(self).wf(),
            final(self).spec_rows() == enqueued(old(self).spec_rows(), item_views(items@)),
            inserted == final(self).spec_rows().len() - old(self).spec_rows().len(),
            final(self).spec_requeued() == old(self).spec_requeued(),
            final(self).spec_fresh() == old(self).spec_fresh() + Seq::new(
                inserted as nat,
                |k: int| old(self).spec_rows().len() + k,
            ),
            final(self).spec_coordinator() == old(self).spec_coordinator(),
            final(self).spec_leased_len() == old(self).spec_leased_len(),
            final(self).spec_requeue_seq() == old(self).spec_requeue_seq(),
            final(self).spec_pending_seq() == old(self).spec_pending_seq() + inserted,
    {
        let ghost start = self.spec_rows();
        let ghost all = item_views(items@);
        let mut inserted: u64 = 0;
        let mut i: usize = 0;
        let n: usize = items.len();
        proof {
            assert(all.take(0) == Seq::<ItemView>::empty());
            assert(self.spec_fresh() + Seq::new(0, |k: int| start.len() + k) == self.spec_fresh());
        }
        while i < n
            invariant
                i <= n == items@.len(),
                all == item_views(items@),
                start == old(self).spec_rows(),
                self.wf(),
                self.spec_rows() == enqueued(start, all.take(i as int)),
                inserted == self.spec_rows().len() - start.len(),
                inserted <= i,
                self.spec_pending_seq() == old(self).spec_pending_seq() + inserted,
                old(self).spec_pending_seq() + items@.len() <= u64::MAX,
                self.spec_requeued() == old(self).spec_requeued(),
                self.spec_fresh() == old(self).spec_fresh() + Seq::new(
                    inserted as nat,
                    |k: int| start.len() + k,
                ),
                self.spec_coordinator() == old(self).spec_coordinator(),
                self.spec_leased_len() == old(self).spec_leased_len(),
                self.spec_requeue_seq() == old(self).spec_requeue_seq(),
            decreases n - i,
        {
            assert(all.take(i + 1).drop_last() == all.take(i as int));
            assert(all.take(i + 1).last() == items@[i as int]@);
            let ghost before = self.spec_rows();
            let ghost line = self.spec_fresh();
            match find_row(&self.items, items[i].custom_id.as_str()) {
                Some(k) => {
                    assert(before[k as int] == self.items@[k as int]@);
                    assert(has_id(before, items@[i as int]@.custom_id));
                },
                None => {
                    let fresh: Item = fresh_item(&items[i]);
                    self.push_fresh(fresh);
                    inserted = inserted + 1;
                    assert(self.spec_fresh() == old(self).spec_fresh() + Seq::new(
                        inserted as nat,
                        |k: int| start.len() + k,
                    ));
                },
            }
            i = i + 1;
        }
        assert(all.take(all.len() as int) == all);
        inserted
    }
}

proof fn lemma_count_state_update(rows: Seq<ItemView>, i: int, row: ItemView, s: ItemState)
    requires
        0 <= i < rows.len(),
    ensures
        count_state(rows.update(i, row), s) == count_state(rows, s) + (if row.status == s {
            1int
        } else {
            0int
        }) - (if rows[i].status == s {
            1int
        } else {
            0int
        }),
    decreases rows.len(),
{
    let upd = rows.update(i, row);
    if i == rows.len() - 1 {
        assert(upd.drop_last() == rows.drop_last());
    } else {
        assert(upd.drop_last() == rows.drop_last().update(i, row));
        lemma_count_state_update(rows.drop_last(), i, row, s);
    }
}

proof fn lemma_count_state_bound(rows: Seq<ItemView>, s: ItemState)
    ensures
        count_state(rows, s) <= rows.len(),
    decreases rows.len(),
{
    if rows.len() > 0 {
        lemma_count_state_bound(rows.drop_last(), s);
    }
}

proof fn lemma_count_state_positive(rows: Seq<ItemView>, i: int, s: ItemState)
    requires
        0 <= i < rows.len(),
        rows[i].status == s,
    ensures
        count_state(rows, s) > 0,
    decreases rows.len(),
{
    if i < rows.len() - 1 {
        assert(rows.drop_last()[i] == rows[i]);
        lemma_count_state_positive(rows.drop_last(), i, s);
    }
}

/// The items of the index that stand in the part of it below `k`.
spec fn from_index(s: Seq<int>, index: Seq<usize>, k: int) -> bool {
    forall|m: int|
        0 <= m < s.len() ==> exists|j: int| 0 <= j < k && index[j] as int == #[trigger] s[m]
}

/// The rows once those at the positions `e` have been taken back.
spec fn rows_requeued(rows: Seq<ItemView>, e: Seq<int>) -> Seq<ItemView> {
    Seq::new(
        rows.len(),
        |i: int|
            if e.contains(i) {
                requeued_row(rows[i])
            } else {
                rows[i]
            },
    )
}

/// The ids of the rows at the positions `s` ascend.
spec fn ids_ascend(s: Seq<int>, rows: Seq<ItemView>) -> bool {
    forall|j: int, k: int|
        0 <= j < k < s.len() ==> lex_before(
            rows[#[trigger] s[j]].custom_id,
            rows[#[trigger] s[k]].custom_id,
        )
}

proof fn lemma_lex_ids_differ(rows: Seq<ItemView>, a: int, b: int)
    requires
        0 <= a < rows.len(),
        0 <= b < rows.len(),
        lex_before(rows[a].custom_id, rows[b].custom_id),
    ensures
        a != b,
{
    lemma_lex_total(rows[a].custom_id, rows[b].custom_id);
}

impl RedbQueue {
    /// Moves every lease that has passed at `now` back to the front part of the line.
    /// Looks at the leased items only. Returns how many were moved.
    fn requeue_expired(&mut self, now: i64) -> (moved: u64)
        requires
            old(self).wf(),
            old(self).spec_requeue_seq() + old(self).spec_leased_len() <= FRESH_BASE,
        ensures
            final(self).wf(),
            exists|e: Seq<int>|
                #[trigger] requeue_effect(*old(self), *final(self), now, e) && moved == e.len(),
    {
        let ghost rows = self.spec_rows();
        let ghost index = self.leased@;
        let ghost front = self.requeued@;
        let ghost fresh = self.fresh@;
        let ghost line = positions(front) + positions(fresh);
        let ghost mut e: Seq<int> = Seq::empty();
        let start: u64 = self.requeue_seq;
        let size: usize = self.items.len();
        let mut kept: Vec<usize> = Vec::new();
        let mut moved: u64 = 0;
        let mut k: usize = 0;
        proof {
            assert(rows_requeued(rows, e) == rows);
            assert(positions(front) + e == positions(front));
        }
        while k < self.leased.len()
            invariant
                k <= self.leased@.len(),
                self.leased@ == index,
                rows == old(self).spec_rows(),
                fresh == old(self).fresh@,
                self.fresh@ == fresh,
                front == old(self).requeued@,
                line == positions(front) + positions(fresh),
                distinct_ids(rows),
                lists_pending(line, rows),
                lists_leased(index, rows),
                numbered(fresh, FRESH_BASE as int, self.pending_seq as int),
                FRESH_BASE <= self.pending_seq == old(self).pending_seq,
                start == old(self).requeue_seq,
                self.requeue_seq == start + moved,
                start + index.len() <= FRESH_BASE,
                moved == e.len(),
                moved <= k,
                self.coordinator_id@ == old(self).coordinator_id@,
                size == self.items@.len() == rows.len(),
                item_views(self.items@) == rows_requeued(rows, e),
                positions(self.requeued@) == positions(front) + e,
                numbered(self.requeued@, 0, self.requeue_seq as int),
                counts_rows(self.counts, item_views(self.items@)),
                from_index(e, index, k as int),
                from_index(positions_of(kept@), index, k as int),
                ids_ascend(e, rows),
                ids_ascend(positions_of(kept@), rows),
                forall|m: int| 0 <= m < e.len() ==> expired(rows[#[trigger] e[m]], now),
                forall|m: int|
                    0 <= m < kept@.len() ==> !expired(rows[#[trigger] kept@[m] as int], now),
                forall|j: int|
                    0 <= j < k ==> e.contains(#[trigger] index[j] as int) || kept@.contains(
                        index[j],
                    ),
                kept@.len() + e.len() == k,
            decreases index.len() - k,
        {
            let i: usize = self.leased[k];
            let ghost cur = item_views(self.items@);
            let ghost e0 = e;
            let ghost kept0 = kept@;
            let ghost q0 = self.requeued@;
            proof {
                assert(index[k as int] == i);
                assert(rows[i as int].status == ItemState::Leased);
                assert forall|m: int| 0 <= m < e0.len() implies #[trigger] e0[m] != i
                    && lex_before(rows[e0[m]].custom_id, rows[i as int].custom_id) by {
                    let j = choose|j: int| 0 <= j < k && index[j] as int == e0[m];
                    assert(lex_before(
                        rows[index[j] as int].custom_id,
                        rows[index[k as int] as int].custom_id,
                    ));
                    lemma_lex_ids_differ(rows, e0[m], i as int);
                }
                assert forall|m: int| 0 <= m < kept0.len() implies #[trigger] kept0[m] != i
                    && lex_before(rows[kept0[m] as int].custom_id, rows[i as int].custom_id) by {
                    assert(positions_of(kept0)[m] == kept0[m] as int);
                    let j = choose|j: int| 0 <= j < k && index[j] as int == positions_of(kept0)[m];
                    assert(lex_before(
                        rows[index[j] as int].custom_id,
                        rows[index[k as int] as int].custom_id,
                    ));
                    lemma_lex_ids_differ(rows, kept0[m] as int, i as int);
                }
                assert(!e0.contains(i as int));
                assert(cur[i as int] == rows[i as int]);
                assert(self.items@[i as int]@ == rows[i as int]);
            }
            if is_expired(&self.items[i], now) {
                let row: &mut Item = &mut self.items[i];
                row.status = ItemState::Pending;
                row.leased_until = None;
                row.leased_by = None;
                let ghost after = item_views(self.items@);
                proof {
                    assert(after == cur.update(i as int, requeued_row(rows[i as int])));
                    lemma_count_state_update(
                        cur,
                        i as int,
                        requeued_row(rows[i as int]),
                        ItemState::Pending,
                    );
                    lemma_count_state_update(
                        cur,
                        i as int,
                        requeued_row(rows[i as int]),
                        ItemState::Leased,
                    );
                    lemma_count_state_update(
                        cur,
                        i as int,
                        requeued_row(rows[i as int]),
                        ItemState::Done,
                    );
                    lemma_count_state_update(
                        cur,
                        i as int,
                        requeued_row(rows[i as int]),
                        ItemState::DeadLetter,
                    );
                    lemma_count_state_bound(after, ItemState::Pending);
                    lemma_count_state_positive(cur, i as int, ItemState::Leased);
                }
                let n: usize = self.items.len();
                self.counts = QueueCounts {
                    pending: self.counts.pending + 1,
                    leased: self.counts.leased - 1,
                    ..self.counts
                };
                let seq: u64 = self.requeue_seq;
                self.requeued.push_back((seq, i));
                self.requeue_seq = seq + 1;
                moved = moved + 1;
                proof {
                    e = e0.push(i as int);
                    assert(positions(self.requeued@) == positions(q0).push(i as int));
                    assert(positions(front) + e == (positions(front) + e0).push(i as int));
                    assert forall|x: int| e.contains(x) == (e0.contains(x) || x == i) by {
                        if e0.contains(x) {
                            let m = choose|m: int| 0 <= m < e0.len() && e0[m] == x;
                            assert(e[m] == x);
                        }
                        if x == i {
                            assert(e[e0.len() as int] == x);
                        }
                    }
                    assert(after == rows_requeued(rows, e));
                }
            } else {
                kept.push(i);
                proof {
                    assert(positions_of(kept@) == positions_of(kept0).push(i as int));
                }
            }
            proof {
                assert forall|m: int| 0 <= m < e.len() implies exists|j: int|
                    0 <= j < k + 1 && index[j] as int == #[trigger] e[m] by {
                    if m < e0.len() {
                        assert(e[m] == e0[m]);
                        let j = choose|j: int| 0 <= j < k && index[j] as int == e0[m];
                        assert(index[j] as int == e[m]);
                    } else {
                        assert(index[k as int] as int == e[m]);
                    }
                }
                let kp = positions_of(kept@);
                assert forall|m: int| 0 <= m < kp.len() implies exists|j: int|
                    0 <= j < k + 1 && index[j] as int == #[trigger] kp[m] by {
                    if m < kept0.len() {
                        assert(kp[m] == positions_of(kept0)[m]);
                        let j = choose|j: int|
                            0 <= j < k && index[j] as int == positions_of(kept0)[m];
                        assert(index[j] as int == kp[m]);
                    } else {
                        assert(index[k as int] as int == kp[m]);
                    }
                }
                assert forall|j: int| 0 <= j < k + 1 implies e.contains(#[trigger] index[j] as int)
                    || kept@.contains(index[j]) by {
                    if j < k {
                        if e0.contains(index[j] as int) {
                            let m = choose|m: int| 0 <= m < e0.len() && e0[m] == index[j] as int;
                            assert(e[m] == index[j] as int);
                        } else {
                            let m = choose|m: int| 0 <= m < kept0.len() && kept0[m] == index[j];
                            assert(kept@[m] == index[j]);
                        }
                    } else if e.len() > e0.len() {
                        assert(e[e0.len() as int] == i);
                    } else {
                        assert(kept@[kept0.len() as int] == i);
                    }
                }
            }
            k = k + 1;
        }
        self.leased = kept;
        proof {
            let after = item_views(self.items@);
            assert(is_expired_order(e, rows, now)) by {
                assert forall|m: int| 0 <= m < e.len() implies 0 <= #[trigger] e[m] < rows.len()
                    && expired(rows[e[m]], now) by {
                    let j = choose|j: int| 0 <= j < index.len() && index[j] as int == e[m];
                    assert(index[j] < rows.len());
                }
                assert forall|i: int| 0 <= i < rows.len() && expired(
                    #[trigger] rows[i],
                    now,
                ) implies e.contains(i) by {
                    assert(rows[i].status == ItemState::Leased);
                    assert(index.contains(i as usize));
                    let j = choose|j: int| 0 <= j < index.len() && index[j] == i as usize;
                    assert(index[j] as int == i);
                    if !e.contains(i) {
                        let m = choose|m: int| 0 <= m < kept@.len() && kept@[m] == index[j];
                        assert(!expired(rows[kept@[m] as int], now));
                    }
                }
            }
            assert(after == rows_after_reap(rows, now)) by {
                assert forall|i: int| 0 <= i < rows.len() implies after[i] == rows_after_reap(
                    rows,
                    now,
                )[i] by {
                    if e.contains(i) {
                        let m = choose|m: int| 0 <= m < e.len() && e[m] == i;
                        assert(expired(rows[e[m]], now));
                    } else if expired(rows[i], now) {
                        assert(false);
                    }
                }
            }
            lemma_requeue_wf(rows, line, positions(front), positions(fresh), index, kept@, e, now);
            assert(positions(self.requeued@) + positions(self.fresh@) == positions(front) + e
                + positions(fresh));
            assert(requeue_effect(*old(self), *self, now, e));
        }
        moved
    }
}

/// The positions of an index.
spec fn positions_of(index: Seq<usize>) -> Seq<int> {
    index.map_values(|i: usize| i as int)
}

/// Once the passed leases `e` have been taken back, the line and the index of the
/// leases `kept` agree with the rows again.
proof fn lemma_requeue_wf(
    rows: Seq<ItemView>,
    line: Seq<int>,
    front: Seq<int>,
    back: Seq<int>,
    index: Seq<usize>,
    kept: Seq<usize>,
    e: Seq<int>,
    now: i64,
)
    requires
        rows.len() <= usize::MAX,
        distinct_ids(rows),
        line == front + back,
        lists_pending(line, rows),
        lists_leased(index, rows),
        is_expired_order(e, rows, now),
        from_index(positions_of(kept), index, index.len() as int),
        ids_ascend(positions_of(kept), rows),
        forall|m: int| 0 <= m < kept.len() ==> !expired(rows[#[trigger] kept[m] as int], now),
        forall|j: int|
            0 <= j < index.len() ==> e.contains(#[trigger] index[j] as int) || kept.contains(
                index[j],
            ),
    ensures
        distinct_ids(rows_after_reap(rows, now)),
        lists_pending(front + e + back, rows_after_reap(rows, now)),
        lists_leased(kept, rows_after_reap(rows, now)),
{
    let after = rows_after_reap(rows, now);
    let next = front + e + back;
    assert forall|a: int, b: int| 0 <= a < b < after.len() implies (#[trigger] after[a]).custom_id
        != (#[trigger] after[b]).custom_id by {
        assert(rows[a].custom_id != rows[b].custom_id);
    }
    // Where an element of the new line comes from.
    assert forall|k: int| 0 <= k < next.len() implies 0 <= #[trigger] next[k] < after.len()
        && after[next[k]].status == ItemState::Pending by {
        if k < front.len() {
            assert(line[k] == next[k]);
        } else if k < front.len() + e.len() {
            assert(next[k] == e[k - front.len()]);
        } else {
            assert(line[k - e.len()] == next[k]);
        }
    }
    assert forall|j: int, k: int| 0 <= j < k < next.len() implies #[trigger] next[j]
        != #[trigger] next[k] by {
        let fl = front.len() as int;
        let el = e.len() as int;
        let je = fl <= j < fl + el;
        let ke = fl <= k < fl + el;
        if je && ke {
            assert(lex_before(rows[e[j - fl]].custom_id, rows[e[k - fl]].custom_id));
            lemma_lex_ids_differ(rows, e[j - fl], e[k - fl]);
        } else if je {
            assert(line[k - el] == next[k]);
            assert(rows[next[k]].status == ItemState::Pending);
            assert(expired(rows[e[j - fl]], now));
        } else if ke {
            assert(line[j] == next[j]);
            assert(rows[next[j]].status == ItemState::Pending);
            assert(expired(rows[e[k - fl]], now));
        } else {
            let a = if j < fl { j } else { j - el };
            let b = if k < fl { k } else { k - el };
            assert(line[a] == next[j] && line[b] == next[k]);
        }
    }
    assert forall|i: int| 0 <= i < after.len() && (#[trigger] after[i]).status
        == ItemState::Pending implies next.contains(i) by {
        if expired(rows[i], now) {
            assert(e.contains(i));
            let m = choose|m: int| 0 <= m < e.len() && e[m] == i;
            assert(next[front.len() + m] == i);
        } else {
            assert(rows[i].status == ItemState::Pending);
            assert(line.contains(i));
            let m = choose|m: int| 0 <= m < line.len() && line[m] == i;
            let p = if m < front.len() { m } else { m + e.len() };
            assert(next[p] == i);
        }
    }
    let kp = positions_of(kept);
    assert forall|k: int| 0 <= k < kept.len() implies (#[trigger] kept[k]) < after.len()
        && after[kept[k] as int].status == ItemState::Leased
        && after[kept[k] as int].leased_until is Some by {
        assert(kp[k] == kept[k] as int);
        let j = choose|j: int| 0 <= j < index.len() && index[j] as int == kp[k];
        assert(index[j] < rows.len());
    }
    assert forall|j: int, k: int| 0 <= j < k < kept.len() implies lex_before(
        after[#[trigger] kept[j] as int].custom_id,
        after[#[trigger] kept[k] as int].custom_id,
    ) by {
        assert(kp[j] == kept[j] as int && kp[k] == kept[k] as int);
        assert(lex_before(rows[kp[j]].custom_id, rows[kp[k]].custom_id));
        let a = choose|a: int| 0 <= a < index.len() && index[a] as int == kp[j];
        let b = choose|b: int| 0 <= b < index.len() && index[b] as int == kp[k];
        assert(index[a] < rows.len() && index[b] < rows.len());
    }
    assert forall|i: int| 0 <= i < after.len() && (#[trigger] after[i]).status
        == ItemState::Leased implies kept.contains(i as usize) by {
        assert(rows[i].status == ItemState::Leased && !expired(rows[i], now));
        assert(index.contains(i as usize));
        let j = choose|j: int| 0 <= j < index.len() && index[j] == i as usize;
        if e.contains(index[j] as int) {
            let m = choose|m: int| 0 <= m < e.len() && e[m] == index[j] as int;
            assert(expired(rows[e[m]], now));
        }
    }
}

impl RedbQueue {
    /// Takes back every lease that has passed at `now`. Returns how many.
    pub fn reap_at(&mut self, now: i64) -> (moved: u64)
        requires
            old(self).wf(),
            old(self).spec_requeue_seq() + old(self).spec_leased_len() <= FRESH_BASE,
        ensures
            final(self).wf(),
            exists|e: Seq<int>|
                #[trigger] requeue_effect(*old(self), *final(self), now, e) && moved == e.len(),
    {
        self.requeue_expired(now)
    }

    /// Takes back every lease that has passed by now. Returns how many.
    pub fn reap(&mut self) -> (moved: u64)
        requires
            old(self).wf(),
            old(self).spec_requeue_seq() + old(self).spec_leased_len() <= FRESH_BASE,
        ensures
            final(self).wf(),
            exists|now: i64, e: Seq<int>|
                #[trigger] requeue_effect(*old(self), *final(self), now, e) && moved == e.len(),
    {
        let now: i64 = now_ms();
        self.requeue_expired(now)
    }

    /// Leases the item at the front of the line until `until`.
    fn claim_front(&mut self, until: i64) -> (item: Item)
        requires
            old(self).wf(),
            old(self).spec_requeued().len() + old(self).spec_fresh().len() > 0,
        ensures
            final(self).wf(),
            ({
                let line = old(self).spec_requeued() + old(self).spec_fresh();
                let row = leased_row(
                    old(self).spec_rows()[line[0]],
                    until,
                    old(self).spec_coordinator(),
                );
                &&& item@ == row
                &&& final(self).spec_rows() == old(self).spec_rows().update(line[0], row)
                &&& final(self).spec_requeued() + final(self).spec_fresh() == line.skip(1)
                &&& final(self).spec_requeued() == without_first(old(self).spec_requeued(), 1)
                &&& 0 <= line[0] < old(self).spec_rows().len()
            }),
            final(self).spec_coordinator() == old(self).spec_coordinator(),
            final(self).spec_requeue_seq() == old(self).spec_requeue_seq(),
            final(self).spec_pending_seq() == old(self).spec_pending_seq(),
            final(self).spec_leased_len() == old(self).spec_leased_len() + 1,
    {
        let ghost rows = self.spec_rows();
        let ghost front = self.requeued@;
        let ghost back = self.fresh@;
        let ghost line = positions(front) + positions(back);
        let ghost index = self.leased@;
        let size: usize = self.items.len();
        let entry: (u64, usize) = match self.requeued.pop_front() {
            Some(x) => x,
            None => match self.fresh.pop_front() {
                Some(x) => x,
                None => (0, 0),
            },
        };
        let i: usize = entry.1;
        let ghost now = positions(self.requeued@) + positions(self.fresh@);
        proof {
            if front.len() > 0 {
                assert(line[0] == front[0].1);
                assert(positions(self.requeued@) == positions(front).skip(1));
                assert(positions(self.requeued@) == without_first(positions(front), 1));
            } else {
                assert(line[0] == back[0].1);
                assert(positions(self.fresh@) == positions(back).skip(1));
                assert(positions(self.requeued@) == without_first(positions(front), 1));
            }
            assert(line[0] == i);
            assert(now == line.skip(1));
            assert(numbered(self.requeued@, 0, self.requeue_seq as int));
            assert(numbered(self.fresh@, FRESH_BASE as int, self.pending_seq as int));
            assert(rows[i as int].status == ItemState::Pending);
            assert(self.items@[i as int]@ == rows[i as int]);
        }
        let owner: String = self.coordinator_id.clone();
        let attempts: u32 = if self.items[i].attempts == 0xffff_ffff {
            0xffff_ffff
        } else {
            self.items[i].attempts + 1
        };
        let row: &mut Item = &mut self.items[i];
        row.status = ItemState::Leased;
        row.leased_until = Some(until);
        row.leased_by = Some(owner);
        row.attempts = attempts;
        let item: Item = self.items[i].duplicate();
        let ghost after = item_views(self.items@);
        proof {
            assert(after == rows.update(i as int, item@));
            lemma_count_state_update(rows, i as int, item@, ItemState::Pending);
            lemma_count_state_update(rows, i as int, item@, ItemState::Leased);
            lemma_count_state_update(rows, i as int, item@, ItemState::Done);
            lemma_count_state_update(rows, i as int, item@, ItemState::DeadLetter);
            lemma_count_state_positive(rows, i as int, ItemState::Pending);
            lemma_count_state_bound(after, ItemState::Leased);
        }
        self.counts = QueueCounts {
            pending: self.counts.pending - 1,
            leased: self.counts.leased + 1,
            ..self.counts
        };
        let mut at: usize = self.leased.len();
        while at > 0 && str_before(
            self.items[i].custom_id.as_str(),
            self.items[self.leased[at - 1]].custom_id.as_str(),
        )
            invariant
                at <= self.leased@.len(),
                self.leased@ == index,
                i < self.items@.len() == rows.len(),
                after == item_views(self.items@),
                after == rows.update(i as int, item@),
                item@.custom_id == rows[i as int].custom_id,
                lists_leased(index, rows),
                forall|k: int|
                    at <= k < index.len() ==> lex_before(
                        rows[i as int].custom_id,
                        rows[#[trigger] index[k] as int].custom_id,
                    ),
            decreases at,
        {
            assert(index[at - 1] < rows.len());
            assert(self.items@[i as int]@.custom_id == after[i as int].custom_id);
            assert(self.items@[index[at - 1] as int]@.custom_id == after[index[at - 1] as int].custom_id);
            assert(after[index[at - 1] as int].custom_id == rows[index[at - 1] as int].custom_id);
            at = at - 1;
        }
        proof {
            if at > 0 {
                let p = index[at - 1] as int;
                assert(rows[p].status == ItemState::Leased);
                assert(p != i);
                assert(rows[p].custom_id != rows[i as int].custom_id) by {
                    if p < i {
                        assert(rows[p].custom_id != rows[i as int].custom_id);
                    } else {
                        assert(rows[i as int].custom_id != rows[p].custom_id);
                    }
                }
                assert(self.items@[i as int]@.custom_id == after[i as int].custom_id);
                assert(self.items@[p]@.custom_id == after[p].custom_id);
                lemma_lex_total(rows[p].custom_id, rows[i as int].custom_id);
            }
            assert forall|k: int| 0 <= k < at implies lex_before(
                rows[#[trigger] index[k] as int].custom_id,
                rows[i as int].custom_id,
            ) by {
                if k < at - 1 {
                    lemma_lex_transitive(
                        rows[index[k] as int].custom_id,
                        rows[index[at - 1] as int].custom_id,
                        rows[i as int].custom_id,
                    );
                }
            }
        }
        self.leased.insert(at, i);
        proof {
            lemma_claim_wf(rows, line, index, self.leased@, i, at as int, item@);
        }
        item
    }

    /// Leases up to `limit` items at the instant `now`: leases that have passed are
    /// taken back first, and then the front of the line is handed out.
    #[verifier::rlimit(40)]
    #[verifier::spinoff_prover]
    pub fn lease_at(&mut self, limit: usize, lease_for: Duration, now: i64) -> (out: Vec<Item>)
        requires
            old(self).wf(),
            old(self).spec_requeue_seq() + old(self).spec_leased_len() <= FRESH_BASE,
        ensures
            final(self).wf(),
            exists|e: Seq<int>|
                claim_effect(
                    *old(self),
                    *final(self),
                    now,
                    lease_for@,
                    limit as nat,
                    e,
                    item_views(out@),
                ),
    {
        let until: i64 = lease_deadline(now, lease_for);
        let ghost before = *self;
        let moved: u64 = self.requeue_expired(now);
        let ghost e = choose|e: Seq<int>|
            #[trigger] requeue_effect(before, *self, now, e) && moved == e.len();
        let ghost rows = self.spec_rows();
        let ghost by = self.spec_coordinator();
        let ghost retries = self.spec_requeued();
        let ghost fresh = self.spec_fresh();
        let ghost line = retries + fresh;
        let mut out: Vec<Item> = Vec::new();
        proof {
            assert(line.skip(0) == line);
            assert(rows_after_claim(rows, line.take(0), until, by) == rows);
            assert(item_views(out@) == claimed(rows, line.take(0), until, by));
            assert(without_first(retries, 0) == retries);
            assert(fresh.skip(0) == fresh);
        }
        while out.len() < limit && self.requeued.len() > 0 || out.len() < limit && self.fresh.len()
            > 0
            invariant
                self.wf(),
                line == retries + fresh,
                out@.len() <= line.len(),
                out@.len() <= limit,
                by == self.spec_coordinator(),
                self.spec_rows() == rows_after_claim(
                    rows,
                    line.take(out@.len() as int),
                    until,
                    by,
                ),
                item_views(out@) == claimed(rows, line.take(out@.len() as int), until, by),
                self.spec_requeued() + self.spec_fresh() == line.skip(out@.len() as int),
                self.spec_requeued() == without_first(retries, out@.len()),
                self.spec_pending_seq() == before.spec_pending_seq(),
                self.spec_requeue_seq() == before.spec_requeue_seq() + e.len(),
                self.spec_leased_len() == before.spec_leased_len() - e.len() + out@.len(),
                forall|j: int, k: int|
                    0 <= j < k < line.len() ==> #[trigger] line[j] != #[trigger] line[k],
            decreases limit - out@.len(),
        {
            let ghost n = out@.len() as int;
            let ghost prev = out@;
            let ghost mid = self.spec_rows();
            let ghost pre_front = self.spec_requeued();
            let item: Item = self.claim_front(until);
            out.push(item);
            proof {
                assert(line.skip(n)[0] == line[n]);
                assert(!line.take(n).contains(line[n])) by {
                    if line.take(n).contains(line[n]) {
                        let m = choose|m: int| 0 <= m < n && line.take(n)[m] == line[n];
                        assert(line[m] == line[n]);
                    }
                }
                assert(mid[line[n]] == rows[line[n]]);
                assert(line.skip(n).skip(1) == line.skip(n + 1));
                assert(item_views(out@) == item_views(prev).push(item@));
                assert(claimed(rows, line.take(n + 1), until, by) == claimed(
                    rows,
                    line.take(n),
                    until,
                    by,
                ).push(item@));
                let head = line.take(n);
                let more = line.take(n + 1);
                assert(more == head.push(line[n]));
                assert forall|x: int| more.contains(x) == (head.contains(x) || x == line[n]) by {
                    if head.contains(x) {
                        let m = choose|m: int| 0 <= m < head.len() && head[m] == x;
                        assert(more[m] == x);
                    }
                    if more.contains(x) {
                        let m = choose|m: int| 0 <= m < more.len() && more[m] == x;
                        if m < n {
                            assert(head[m] == x);
                        }
                    }
                    assert(more[n] == line[n]);
                }
                assert(self.spec_rows() == rows_after_claim(rows, line.take(n + 1), until, by));
                assert(without_first(pre_front, 1) == without_first(retries, (n + 1) as nat));
            }
        }
        proof {
            let k = lesser(limit as nat, line.len());
            assert(out@.len() == k) by {
                assert(line.skip(out@.len() as int).len() == line.len() - out@.len());
            }
            let rest = self.spec_requeued() + self.spec_fresh();
            assert(self.spec_fresh() == fresh.skip(excess(k, retries.len()) as int)) by {
                let f = self.spec_requeued().len() as int;
                assert(self.spec_fresh() == rest.skip(f));
                assert(rest.skip(f) == line.skip(k as int).skip(f));
                assert(line.skip(k as int).skip(f) == fresh.skip(excess(k, retries.len()) as int));
            }
            assert(claim_effect(
                before,
                *self,
                now,
                lease_for@,
                limit as nat,
                e,
                item_views(out@),
            ));
        }
        out
    }

    /// Leases up to `limit` items, now.
    pub fn lease(&mut self, limit: usize, lease_for: Duration) -> (out: Vec<Item>)
        requires
            old(self).wf(),
            old(self).spec_requeue_seq() + old(self).spec_leased_len() <= FRESH_BASE,
        ensures
            final(self).wf(),
            exists|now: i64, e: Seq<int>|
                claim_effect(
                    *old(self),
                    *final(self),
                    now,
                    lease_for@,
                    limit as nat,
                    e,
                    item_views(out@),
                ),
    {
        let now: i64 = now_ms();
        self.lease_at(limit, lease_for, now)
    }
}

/// Once the front of the line has been leased, the rest of the line and the index
/// with the new lease in its place agree with the rows again.
proof fn lemma_claim_wf(
    rows: Seq<ItemView>,
    line: Seq<int>,
    index: Seq<usize>,
    next: Seq<usize>,
    i: usize,
    at: int,
    row: ItemView,
)
    requires
        rows.len() <= usize::MAX,
        distinct_ids(rows),
        line.len() > 0,
        line[0] == i,
        lists_pending(line, rows),
        lists_leased(index, rows),
        0 <= at <= index.len(),
        next == index.insert(at, i),
        row.custom_id == rows[i as int].custom_id,
        row.status == ItemState::Leased,
        row.leased_until is Some,
        forall|k: int|
            0 <= k < at ==> lex_before(
                rows[#[trigger] index[k] as int].custom_id,
                rows[i as int].custom_id,
            ),
        forall|k: int|
            at <= k < index.len() ==> lex_before(
                rows[i as int].custom_id,
                rows[#[trigger] index[k] as int].custom_id,
            ),
    ensures
        distinct_ids(rows.update(i as int, row)),
        lists_pending(line.skip(1), rows.update(i as int, row)),
        lists_leased(next, rows.update(i as int, row)),
{
    let after = rows.update(i as int, row);
    let rest = line.skip(1);
    assert(rows[i as int].status == ItemState::Pending);
    assert forall|a: int, b: int| 0 <= a < b < after.len() implies (#[trigger] after[a]).custom_id
        != (#[trigger] after[b]).custom_id by {
        assert(rows[a].custom_id != rows[b].custom_id);
    }
    assert forall|k: int| 0 <= k < rest.len() implies 0 <= #[trigger] rest[k] < after.len()
        && after[rest[k]].status == ItemState::Pending by {
        assert(rest[k] == line[k + 1]);
        assert(line[0] != line[k + 1]);
    }
    assert forall|j: int, k: int| 0 <= j < k < rest.len() implies #[trigger] rest[j]
        != #[trigger] rest[k] by {
        assert(line[j + 1] != line[k + 1]);
    }
    assert forall|x: int| 0 <= x < after.len() && (#[trigger] after[x]).status
        == ItemState::Pending implies rest.contains(x) by {
        assert(x != i);
        assert(rows[x].status == ItemState::Pending);
        assert(line.contains(x));
        let m = choose|m: int| 0 <= m < line.len() && line[m] == x;
        assert(m != 0);
        assert(rest[m - 1] == x);
    }
    assert forall|k: int| 0 <= k < next.len() implies (#[trigger] next[k]) < after.len()
        && after[next[k] as int].status == ItemState::Leased
        && after[next[k] as int].leased_until is Some by {
        if k != at {
            let p = if k < at { k } else { k - 1 };
            assert(next[k] == index[p]);
            assert(rows[index[p] as int].status == ItemState::Leased);
        }
    }
    assert forall|j: int, k: int| 0 <= j < k < next.len() implies lex_before(
        after[#[trigger] next[j] as int].custom_id,
        after[#[trigger] next[k] as int].custom_id,
    ) by {
        let pj = if j < at { j } else { j - 1 };
        let pk = if k < at { k } else { k - 1 };
        if j != at {
            assert(next[j] == index[pj]);
            assert(index[pj] < rows.len());
        }
        if k != at {
            assert(next[k] == index[pk]);
            assert(index[pk] < rows.len());
        }
        if j != at && k != at {
            assert(lex_before(
                rows[index[pj] as int].custom_id,
                rows[index[pk] as int].custom_id,
            ));
        }
    }
    assert forall|x: int| 0 <= x < after.len() && (#[trigger] after[x]).status
        == ItemState::Leased implies next.contains(x as usize) by {
        if x == i {
            assert(next[at] == i);
        } else {
            assert(rows[x].status == ItemState::Leased);
            assert(index.contains(x as usize));
            let m = choose|m: int| 0 <= m < index.len() && index[m] == x as usize;
            let p = if m < at { m } else { m + 1 };
            assert(next[p] == index[m]);
        }
    }
}

/// Once the lease at place `at` of the index has been closed, the line and the rest
/// of the index agree with the rows again.
proof fn lemma_close_wf(
    rows: Seq<ItemView>,
    line: Seq<int>,
    index: Seq<usize>,
    at: int,
    row: ItemView,
)
    requires
        rows.len() <= usize::MAX,
        distinct_ids(rows),
        lists_pending(line, rows),
        lists_leased(index, rows),
        0 <= at < index.len(),
        row.custom_id == rows[index[at] as int].custom_id,
        row.status == ItemState::Done || row.status == ItemState::DeadLetter,
    ensures
        distinct_ids(rows.update(index[at] as int, row)),
        lists_pending(line, rows.update(index[at] as int, row)),
        lists_leased(index.remove(at), rows.update(index[at] as int, row)),
{
    let i = index[at] as int;
    let after = rows.update(i, row);
    let next = index.remove(at);
    assert(rows[i].status == ItemState::Leased);
    assert forall|a: int, b: int| 0 <= a < b < after.len() implies (#[trigger] after[a]).custom_id
        != (#[trigger] after[b]).custom_id by {
        assert(rows[a].custom_id != rows[b].custom_id);
    }
    assert forall|k: int| 0 <= k < line.len() implies 0 <= #[trigger] line[k] < after.len()
        && after[line[k]].status == ItemState::Pending by {
        assert(rows[line[k]].status == ItemState::Pending);
    }
    assert forall|x: int| 0 <= x < after.len() && (#[trigger] after[x]).status
        == ItemState::Pending implies line.contains(x) by {
        assert(rows[x].status == ItemState::Pending);
    }
    assert forall|k: int| 0 <= k < next.len() implies (#[trigger] next[k]) < after.len()
        && next[k] != i && after[next[k] as int] == rows[next[k] as int]
        && rows[next[k] as int].status == ItemState::Leased
        && rows[next[k] as int].leased_until is Some by {
        let p = if k < at { k } else { k + 1 };
        assert(next[k] == index[p]);
        if p < at {
            assert(lex_before(rows[index[p] as int].custom_id, rows[index[at] as int].custom_id));
        } else {
            assert(lex_before(rows[index[at] as int].custom_id, rows[index[p] as int].custom_id));
        }
        lemma_lex_total(rows[index[p] as int].custom_id, rows[i].custom_id);
    }
    assert forall|j: int, k: int| 0 <= j < k < next.len() implies lex_before(
        after[#[trigger] next[j] as int].custom_id,
        after[#[trigger] next[k] as int].custom_id,
    ) by {
        let pj = if j < at { j } else { j + 1 };
        let pk = if k < at { k } else { k + 1 };
        assert(next[j] == index[pj] && next[k] == index[pk]);
        assert(lex_before(rows[index[pj] as int].custom_id, rows[index[pk] as int].custom_id));
        assert(after[next[j] as int] == rows[next[j] as int]);
        assert(after[next[k] as int] == rows[next[k] as int]);
    }
    assert forall|x: int| 0 <= x < after.len() && (#[trigger] after[x]).status
        == ItemState::Leased implies next.contains(x as usize) by {
        assert(rows[x].status == ItemState::Leased);
        assert(index.contains(x as usize));
        let m = choose|m: int| 0 <= m < index.len() && index[m] == x as usize;
        assert(m != at);
        let p = if m < at { m } else { m - 1 };
        assert(next[p] == index[m]);
    }
}

impl RedbQueue {
    /// The lease-fenced end of a lease: the item goes to the terminal state `to` while
    /// it still carries the attempt number `attempt`. Returns whether it did.
    fn close(
        &mut self,
        custom_id: &str,
        attempt: u32,
        to: ItemState,
        error: Option<&str>,
    ) -> (changed: bool)
        requires
            old(self).wf(),
            to == ItemState::Done || to == ItemState::DeadLetter,
        ensures
            final(self).wf(),
            changed == lease_current(old(self).spec_rows(), custom_id@, attempt),
            final(self).spec_rows() == rows_after_close(
                old(self).spec_rows(),
                custom_id@,
                attempt,
                to,
                opt_str_view(error),
            ),
            final(self).spec_requeued() == old(self).spec_requeued(),
            final(self).spec_fresh() == old(self).spec_fresh(),
            final(self).spec_coordinator() == old(self).spec_coordinator(),
            final(self).spec_requeue_seq() == old(self).spec_requeue_seq(),
            final(self).spec_pending_seq() == old(self).spec_pending_seq(),
            final(self).spec_leased_len() == old(self).spec_leased_len() - if changed {
                1int
            } else {
                0int
            },
    {
        let ghost rows = self.spec_rows();
        let ghost why = opt_str_view(error);
        let ghost goal = rows_after_close(rows, custom_id@, attempt, to, why);
        let ghost index = self.leased@;
        let ghost line = positions(self.requeued@) + positions(self.fresh@);
        let size: usize = self.items.len();
        match find_row(&self.items, custom_id) {
            Some(i) => {
                assert(rows[i as int] == self.items@[i as int]@);
                proof {
                    assert forall|j: int| 0 <= j < rows.len() && j != i implies !holds_lease(
                        #[trigger] rows[j],
                        custom_id@,
                        attempt,
                    ) by {
                        if j < i {
                            assert(rows[j].custom_id != rows[i as int].custom_id);
                        } else {
                            assert(rows[i as int].custom_id != rows[j].custom_id);
                        }
                    }
                }
                if self.items[i].status == ItemState::Leased && self.items[i].attempts == attempt {
                    assert(holds_lease(rows[i as int], custom_id@, attempt));
                    let kept: Option<String> = match error {
                        Some(e) => Some(e.to_owned()),
                        None => duplicate_opt(&self.items[i].last_error),
                    };
                    let row: &mut Item = &mut self.items[i];
                    row.status = to;
                    row.leased_until = None;
                    row.leased_by = None;
                    row.last_error = kept;
                    let ghost last = self.items@[i as int]@;
                    let ghost after = item_views(self.items@);
                    proof {
                        assert(last == closed_row(rows[i as int], to, why));
                        assert(after == rows.update(i as int, last));
                        assert(after == goal);
                        lemma_count_state_update(rows, i as int, last, ItemState::Pending);
                        lemma_count_state_update(rows, i as int, last, ItemState::Leased);
                        lemma_count_state_update(rows, i as int, last, ItemState::Done);
                        lemma_count_state_update(rows, i as int, last, ItemState::DeadLetter);
                        lemma_count_state_positive(rows, i as int, ItemState::Leased);
                        lemma_count_state_bound(after, to);
                        assert(index.contains(i as usize));
                    }
                    if to == ItemState::Done {
                        self.counts = QueueCounts {
                            leased: self.counts.leased - 1,
                            done: self.counts.done + 1,
                            ..self.counts
                        };
                    } else {
                        self.counts = QueueCounts {
                            leased: self.counts.leased - 1,
                            dead: self.counts.dead + 1,
                            ..self.counts
                        };
                    }
                    let mut at: usize = 0;
                    while at < self.leased.len() && self.leased[at] != i
                        invariant
                            at <= self.leased@.len(),
                            self.leased@ == index,
                            forall|k: int| 0 <= k < at ==> (#[trigger] index[k]) != i,
                        decreases self.leased@.len() - at,
                    {
                        at = at + 1;
                    }
                    proof {
                        let m = choose|m: int| 0 <= m < index.len() && index[m] == i;
                        assert(index[m] == i);
                        assert(at < index.len());
                        lemma_close_wf(rows, line, index, at as int, last);
                    }
                    self.leased.remove(at);
                    assert(self.leased@ == index.remove(at as int));
                    true
                } else {
                    assert(goal == rows);
                    false
                }
            },
            None => {
                assert forall|j: int| 0 <= j < rows.len() implies !holds_lease(
                    #[trigger] rows[j],
                    custom_id@,
                    attempt,
                ) by {
                    if rows[j].custom_id == custom_id@ {
                        assert(has_id(rows, custom_id@));
                    }
                }
                assert(goal == rows);
                false
            },
        }
    }

    /// Marks a leased item done. To be called only after the result is durably in the
    /// store. Fenced by `attempt`, the attempt number that the lease handed out.
    /// Returns whether the item was closed.
    pub fn ack(&mut self, custom_id: &str, attempt: u32) -> (acked: bool)
        requires
            old(self).wf(),
        ensures
            final(self).wf(),
            acked == lease_current(old(self).spec_rows(), custom_id@, attempt),
            final(self).spec_rows() == rows_after_close(
                old(self).spec_rows(),
                custom_id@,
                attempt,
                ItemState::Done,
                None,
            ),
            final(self).spec_requeued() == old(self).spec_requeued(),
            final(self).spec_fresh() == old(self).spec_fresh(),
            final(self).spec_coordinator() == old(self).spec_coordinator(),
            final(self).spec_requeue_seq() == old(self).spec_requeue_seq(),
            final(self).spec_pending_seq() == old(self).spec_pending_seq(),
            final(self).spec_leased_len() == old(self).spec_leased_len() - if acked {
                1int
            } else {
                0int
            },
    {
        self.close(custom_id, attempt, ItemState::Done, None)
    }

    /// Quarantines a leased item once its retries are exhausted, recording `error`.
    /// Fenced like [`RedbQueue::ack`].
    pub fn dead_letter(&mut self, custom_id: &str, attempt: u32, error: &str) -> (closed: bool)
        requires
            old(self).wf(),
        ensures
            final(self).wf(),
            closed == lease_current(old(self).spec_rows(), custom_id@, attempt),
            final(self).spec_rows() == rows_after_close(
                old(self).spec_rows(),
                custom_id@,
                attempt,
                ItemState::DeadLetter,
                Some(error@),
            ),
            final(self).spec_requeued() == old(self).spec_requeued(),
            final(self).spec_fresh() == old(self).spec_fresh(),
            final(self).spec_coordinator() == old(self).spec_coordinator(),
            final(self).spec_requeue_seq() == old(self).spec_requeue_seq(),
            final(self).spec_pending_seq() == old(self).spec_pending_seq(),
            final(self).spec_leased_len() == old(self).spec_leased_len() - if closed {
                1int
            } else {
                0int
            },
    {
        self.close(custom_id, attempt, ItemState::DeadLetter, Some(error))
    }
}

/// Items whose lease has passed are handed out before any that was never tried: a
/// never-tried item is leased only once no other stands in the front part of the
/// line.
pub proof fn law_retries_come_first(
    before: RedbQueue,
    after: RedbQueue,
    now: i64,
    nanos: nat,
    limit: nat,
    e: Seq<int>,
    out: Seq<ItemView>,
)
    requires
        claim_effect(before, after, now, nanos, limit, e, out),
        after.spec_fresh().len() < before.spec_fresh().len(),
    ensures
        after.spec_requeued().len() == 0,
{
}

/// How many rows have a property.
spec fn count_with(rows: Seq<ItemView>, f: spec_fn(ItemView) -> bool) -> nat
    decreases rows.len(),
{
    if rows.len() == 0 {
        0
    } else {
        count_with(rows.drop_last(), f) + if f(rows.last()) {
            1nat
        } else {
            0nat
        }
    }
}

/// A list of just the rows with a property, each once, is as long as there are such rows.
proof fn lemma_list_is_as_long(s: Seq<int>, rows: Seq<ItemView>, f: spec_fn(ItemView) -> bool)
    requires
        forall|k: int| 0 <= k < s.len() ==> 0 <= #[trigger] s[k] < rows.len() && f(rows[s[k]]),
        forall|j: int, k: int| 0 <= j < k < s.len() ==> #[trigger] s[j] != #[trigger] s[k],
        forall|i: int| 0 <= i < rows.len() && f(#[trigger] rows[i]) ==> s.contains(i),
    ensures
        s.len() == count_with(rows, f),
    decreases rows.len(),
{
    if rows.len() == 0 {
        if s.len() > 0 {
            assert(0 <= s[0] < rows.len());
        }
    } else {
        let last = rows.len() - 1;
        let fewer = rows.drop_last();
        if f(rows.last()) {
            assert(s.contains(last));
            let at = choose|k: int| 0 <= k < s.len() && s[k] == last;
            let t = s.remove(at);
            assert forall|k: int| 0 <= k < t.len() implies 0 <= #[trigger] t[k] < fewer.len() && f(
                fewer[t[k]],
            ) by {
                let o = if k < at { k } else { k + 1 };
                assert(t[k] == s[o]);
                assert(s[o] != s[at]) by {
                    if o < at {
                        assert(s[o] != s[at]);
                    } else {
                        assert(s[at] != s[o]);
                    }
                }
            }
            assert forall|j: int, k: int| 0 <= j < k < t.len() implies #[trigger] t[j]
                != #[trigger] t[k] by {
                let a = if j < at { j } else { j + 1 };
                let b = if k < at { k } else { k + 1 };
                assert(t[j] == s[a] && t[k] == s[b]);
            }
            assert forall|i: int| 0 <= i < fewer.len() && f(#[trigger] fewer[i]) implies t.contains(
                i,
            ) by {
                assert(f(rows[i]));
                let k = choose|k: int| 0 <= k < s.len() && s[k] == i;
                assert(t[if k < at { k } else { k - 1 }] == i);
            }
            lemma_list_is_as_long(t, fewer, f);
        } else {
            assert forall|k: int| 0 <= k < s.len() implies 0 <= #[trigger] s[k] < fewer.len() && f(
                fewer[s[k]],
            ) by {
                assert(f(rows[s[k]]));
            }
            assert forall|i: int| 0 <= i < fewer.len() && f(#[trigger] fewer[i]) implies s.contains(
                i,
            ) by {
                assert(f(rows[i]));
            }
            lemma_list_is_as_long(s, fewer, f);
        }
    }
}

/// The rows that can be leased are the pending ones and those whose lease has passed.
proof fn lemma_leasable_splits(rows: Seq<ItemView>, now: i64)
    ensures
        leasable_count(rows, now) == count_with(
            rows,
            |row: ItemView| row.status == ItemState::Pending,
        ) + count_with(rows, |row: ItemView| expired(row, now)),
    decreases rows.len(),
{
    if rows.len() > 0 {
        lemma_leasable_splits(rows.drop_last(), now);
    }
}

/// A lease hands out as many items as can be leased, up to the limit: those that are
/// pending, and those whose lease has passed. Each is handed out with one attempt more.
pub proof fn law_lease_takes_what_it_can(
    before: RedbQueue,
    after: RedbQueue,
    now: i64,
    nanos: nat,
    limit: nat,
    e: Seq<int>,
    out: Seq<ItemView>,
)
    requires
        before.wf(),
        claim_effect(before, after, now, nanos, limit, e, out),
    ensures
        out.len() == lesser(limit, leasable_count(before.spec_rows(), now)),
        forall|k: int|
            0 <= k < out.len() ==> exists|i: int|
                0 <= i < before.spec_rows().len() && leasable(
                    #[trigger] before.spec_rows()[i],
                    now,
                ) && #[trigger] out[k] == leased_row(
                    before.spec_rows()[i],
                    lease_end(now, nanos / 1_000_000),
                    before.spec_coordinator(),
                ),
{
    let rows = before.spec_rows();
    let until = lease_end(now, nanos / 1_000_000);
    let by = before.spec_coordinator();
    let pending = before.spec_requeued() + before.spec_fresh();
    let line = before.spec_requeued() + e + before.spec_fresh();
    assert forall|j: int, k: int| 0 <= j < k < e.len() implies #[trigger] e[j] != #[trigger] e[k] by {
        lemma_lex_total(rows[e[j]].custom_id, rows[e[k]].custom_id);
    }
    lemma_list_is_as_long(pending, rows, |row: ItemView| row.status == ItemState::Pending);
    lemma_list_is_as_long(e, rows, |row: ItemView| expired(row, now));
    lemma_leasable_splits(rows, now);
    let claim = line.take(lesser(limit, line.len()) as int);
    assert forall|k: int| 0 <= k < out.len() implies exists|i: int|
        0 <= i < rows.len() && leasable(#[trigger] rows[i], now) && #[trigger] out[k] == leased_row(
            rows[i],
            until,
            by,
        ) by {
        let i = claim[k];
        let n = before.spec_requeued().len();
        if k < n {
            assert(i == pending[k]);
        } else if k < n + e.len() {
            assert(i == e[k - n]);
        } else {
            assert(i == pending[k - e.len()]);
        }
        assert(leasable(rows[i], now));
        assert(out[k] == leased_row(rows_after_reap(rows, now)[i], until, by));
        assert(out[k] == leased_row(rows[i], until, by));
    }
}

/// The items whose lease has passed stand in the line once, behind earlier retries and
/// in the order of their ids; that order is the only one.
pub proof fn law_expired_order_is_unique(
    a: Seq<int>,
    b: Seq<int>,
    rows: Seq<ItemView>,
    now: i64,
)
    requires
        is_expired_order(a, rows, now),
        is_expired_order(b, rows, now),
    ensures
        a == b,
{
    lemma_orders_equal(a, b, rows, now, 0);
}

/// Two orders of the same rows by id agree from place `from` on.
proof fn lemma_orders_equal(a: Seq<int>, b: Seq<int>, rows: Seq<ItemView>, now: i64, from: int)
    requires
        0 <= from <= a.len(),
        from <= b.len(),
        is_expired_order(a, rows, now),
        is_expired_order(b, rows, now),
        forall|k: int| 0 <= k < from ==> a[k] == b[k],
    ensures
        a == b,
    decreases a.len() - from,
{
    if from == a.len() {
        if from < b.len() {
            let x = b[from];
            assert(expired(rows[x], now));
            assert(a.contains(x));
            let k = choose|k: int| 0 <= k < a.len() && a[k] == x;
            assert(b[k] == x);
            lemma_lex_total(rows[b[k]].custom_id, rows[b[from]].custom_id);
        }
        assert(a == b);
    } else if from == b.len() {
        let x = a[from];
        assert(expired(rows[x], now));
        assert(b.contains(x));
        let k = choose|k: int| 0 <= k < b.len() && b[k] == x;
        assert(a[k] == x);
        lemma_lex_total(rows[a[k]].custom_id, rows[a[from]].custom_id);
    } else {
        let x = a[from];
        let y = b[from];
        if x != y {
            assert(expired(rows[x], now) && expired(rows[y], now));
            assert(b.contains(x) && a.contains(y));
            let k = choose|k: int| 0 <= k < b.len() && b[k] == x;
            let m = choose|m: int| 0 <= m < a.len() && a[m] == y;
            if k < from {
                assert(a[k] == x);
                lemma_lex_total(rows[a[k]].custom_id, rows[a[from]].custom_id);
            }
            if m < from {
                assert(b[m] == y);
                lemma_lex_total(rows[b[m]].custom_id, rows[b[from]].custom_id);
            }
            assert(lex_before(rows[b[from]].custom_id, rows[b[k]].custom_id));
            assert(lex_before(rows[a[from]].custom_id, rows[a[m]].custom_id));
            lemma_lex_total(rows[x].custom_id, rows[y].custom_id);
        }
        lemma_orders_equal(a, b, rows, now, from + 1);
    }
}

proof fn lemma_leased_ids_are_rows(rows: Seq<ItemView>, leased: Seq<(Seq<char>, i64)>, k: int)
    requires
        leases_agree(rows, leased),
        0 <= k < leased.len(),
    ensures
        exists|i: int| 0 <= i < rows.len() && (#[trigger] rows[i]).custom_id == leased[k].0,
    decreases rows.len(),
{
    let rest = rows.skip(1);
    if rows[0].status == ItemState::Leased {
        if k == 0 {
            assert(rows[0].custom_id == leased[0].0);
        } else {
            lemma_leased_ids_are_rows(rest, leased.skip(1), k - 1);
            let i = choose|i: int|
                0 <= i < rest.len() && (#[trigger] rest[i]).custom_id == leased.skip(1)[k - 1].0;
            assert(rows[i + 1].custom_id == leased[k].0);
        }
    } else {
        lemma_leased_ids_are_rows(rest, leased, k);
        let i = choose|i: int| 0 <= i < rest.len() && (#[trigger] rest[i]).custom_id == leased[k].0;
        assert(rows[i + 1].custom_id == leased[k].0);
    }
}

/// In tables that agree every index entry has an item that can be read.
pub proof fn law_agreeing_tables_are_sound(t: StoredTables)
    requires
        tables_agree(t),
    ensures
        indexes_point_at_items(t@),
{
    let rows = rows_read(t.items@);
    let items = t@.items;
    assert forall|i: int| 0 <= i < items.len() implies (#[trigger] items[i]).1 is Ok && items[i].0
        == rows[i].custom_id by {
        assert(t.items@[i].1 is Ok);
    }
    assert forall|a: int, b: int| 0 <= a < b < items.len() implies lex_before(
        (#[trigger] items[a]).0,
        (#[trigger] items[b]).0,
    ) by {
        assert(lex_before(rows[a].custom_id, rows[b].custom_id));
    }
    assert forall|k: int| 0 <= k < t@.leased.len() implies holds(items, (#[trigger] t@.leased[k]).0) by {
        lemma_leased_ids_are_rows(rows, t@.leased, k);
        let i = choose|i: int|
            0 <= i < rows.len() && (#[trigger] rows[i]).custom_id == t@.leased[k].0;
        lemma_place_at(items, i);
    }
    assert forall|k: int| 0 <= k < t@.pending.len() implies holds(
        items,
        (#[trigger] t@.pending[k]).1,
    ) by {
        assert(listed_row(t.pending@[k].1@, rows));
        let i = choose|i: int|
            0 <= i < rows.len() && (#[trigger] rows[i]).custom_id == t.pending@[k].1@
                && rows[i].status == ItemState::Pending;
        lemma_place_at(items, i);
    }
}

/// Enqueueing keeps the request here too: an item whose id is new has a row with its id,
/// method, path and payload, pending and never tried, behind the rows that are there; and
/// each new row stands at the end of the line.
pub proof fn law_enqueued_requests_stand_in_line(
    before: RedbQueue,
    after: RedbQueue,
    items: &[Item],
    inserted: u64,
    j: int,
)
    requires
        before.wf(),
        exists|q: &mut RedbQueue|
            *q == before && *final(q) == after && #[trigger] call_ensures(
                RedbQueue::enqueue,
                (q, items),
                inserted,
            ),
        0 <= j < items@.len(),
        forall|i: int| 0 <= i < j ==> (#[trigger] items@[i]).custom_id@ != items@[j].custom_id@,
        forall|i: int|
            0 <= i < before.spec_rows().len() ==> (#[trigger] before.spec_rows()[i]).custom_id
                != items@[j].custom_id@,
    ensures
        after.spec_rows().take(before.spec_rows().len() as int) == before.spec_rows(),
        after.spec_fresh().len() == before.spec_fresh().len() + inserted,
        exists|k: int|
            before.spec_rows().len() <= k < after.spec_rows().len() && {
                let row = #[trigger] after.spec_rows()[k];
                &&& row.custom_id == items@[j].custom_id@
                &&& row.method == items@[j].method@
                &&& row.url == items@[j].url@
                &&& row.body == items@[j].body@
                &&& row.status == ItemState::Pending
                &&& row.attempts == 0
                &&& row.leased_until is None
                &&& row.leased_by is None
                &&& row.last_error is None
            },
{
    let rows = before.spec_rows();
    let views = item_views(items@);
    assert forall|i: int| 0 <= i < j implies (#[trigger] views[i]).custom_id != views[j].custom_id by {
        assert(items@[i].custom_id@ != items@[j].custom_id@);
    }
    crate::queue::law_enqueue_keeps_the_request(rows, views, j);
    crate::queue::law_enqueue_keeps_progress(rows, views);
}

/// A lease hands out requests as they were enqueued: each item is a row that waited, or
/// whose holder's time is up, with one attempt more, the holder and the end of the lease;
/// and every row that is not handed out, and whose lease has not passed, stays as it is.
pub proof fn law_indexed_leases_hand_out_requests(
    before: RedbQueue,
    after: RedbQueue,
    limit: usize,
    lease_for: Duration,
    now: i64,
    out: Vec<Item>,
    until: i64,
    k: int,
)
    requires
        before.wf(),
        now + lease_for@ / 1_000_000 <= i64::MAX ==> until == now + lease_for@ / 1_000_000,
        now + lease_for@ / 1_000_000 > i64::MAX ==> until == i64::MAX,
        exists|q: &mut RedbQueue|
            *q == before && *final(q) == after && #[trigger] call_ensures(
                RedbQueue::lease_at,
                (q, limit, lease_for, now),
                out,
            ),
        0 <= k < out@.len(),
    ensures
        out@.len() <= limit,
        exists|i: int|
            0 <= i < before.spec_rows().len() && crate::queue::free_at(
                #[trigger] before.spec_rows()[i],
                now,
            ) && crate::queue::hand_over(
                before.spec_rows()[i],
                out@[k]@,
                until,
                before.spec_coordinator(),
            ) && after.spec_rows()[i] == out@[k]@,
        after.spec_rows().len() == before.spec_rows().len(),
        forall|i: int|
            0 <= i < before.spec_rows().len() && !crate::queue::free_at(
                #[trigger] before.spec_rows()[i],
                now,
            ) ==> after.spec_rows()[i] == before.spec_rows()[i],
{
    let views = item_views(out@);
    let e = choose|e: Seq<int>|
        claim_effect(before, after, now, lease_for@, limit as nat, e, views);
    let rows = before.spec_rows();
    let by = before.spec_coordinator();
    let line = before.spec_requeued() + e + before.spec_fresh();
    let pending = before.spec_requeued() + before.spec_fresh();
    let claim = line.take(lesser(limit as nat, line.len()) as int);
    assert forall|m: int| 0 <= m < claim.len() implies 0 <= #[trigger] claim[m] < rows.len()
        && crate::queue::free_at(rows[claim[m]], now) by {
        let n = before.spec_requeued().len();
        if m < n {
            assert(claim[m] == pending[m]);
        } else if m < n + e.len() {
            assert(claim[m] == e[m - n]);
        } else {
            assert(claim[m] == pending[m - e.len()]);
        }
    }
    let i = claim[k];
    assert(views[k] == out@[k]@);
    assert(views[k] == leased_row(rows_after_reap(rows, now)[i], until, by));
    assert(claim.contains(i));
    assert(after.spec_rows()[i] == views[k]);
    assert(crate::queue::hand_over(rows[i], views[k], until, by));
    assert forall|x: int| 0 <= x < rows.len() && !crate::queue::free_at(
        #[trigger] rows[x],
        now,
    ) implies after.spec_rows()[x] == rows[x] by {
        if claim.contains(x) {
            let m = choose|m: int| 0 <= m < claim.len() && claim[m] == x;
            assert(crate::queue::free_at(rows[claim[m]], now));
        }
    }
}

/// A lease leaves out nothing that it could hand out: it gives the number asked for, or all
/// that wait or whose holder's time is up.
pub proof fn law_indexed_leases_leave_nothing_out(
    before: RedbQueue,
    after: RedbQueue,
    limit: usize,
    lease_for: Duration,
    now: i64,
    out: Vec<Item>,
    i: int,
)
    requires
        before.wf(),
        exists|q: &mut RedbQueue|
            *q == before && *final(q) == after && #[trigger] call_ensures(
                RedbQueue::lease_at,
                (q, limit, lease_for, now),
                out,
            ),
        out@.len() < limit,
        0 <= i < before.spec_rows().len(),
        crate::queue::free_at(before.spec_rows()[i], now),
    ensures
        after.spec_rows()[i].status == ItemState::Leased,
        after.spec_rows()[i].leased_by == Some(before.spec_coordinator()),
        exists|k: int| 0 <= k < out@.len() && (#[trigger] out@[k])@ == after.spec_rows()[i],
{
    let views = item_views(out@);
    let e = choose|e: Seq<int>|
        claim_effect(before, after, now, lease_for@, limit as nat, e, views);
    let rows = before.spec_rows();
    let line = before.spec_requeued() + e + before.spec_fresh();
    let pending = before.spec_requeued() + before.spec_fresh();
    let claim = line.take(lesser(limit as nat, line.len()) as int);
    assert(claim =~= line);
    let n = before.spec_requeued().len() as int;
    if rows[i].status == ItemState::Pending {
        assert(pending.contains(i));
        let m = choose|m: int| 0 <= m < pending.len() && pending[m] == i;
        if m < n {
            assert(line[m] == i);
        } else {
            assert(line[m + e.len()] == i);
        }
    } else {
        assert(expired(rows[i], now));
        assert(e.contains(i));
        let m = choose|m: int| 0 <= m < e.len() && e[m] == i;
        assert(line[m + n] == i);
    }
    let k = choose|k: int| 0 <= k < line.len() && line[k] == i;
    assert(claim.contains(i));
    assert(views[k] == out@[k]@);
    assert(views[k] == after.spec_rows()[i]);
}

/// Closing and reaping here do to the rows what they do in the table: they are the same
/// operations on them.
pub proof fn law_indexed_leases_are_closed_by_their_holder(
    before: RedbQueue,
    done: RedbQueue,
    dead: RedbQueue,
    custom_id: &str,
    attempt: u32,
    error: &str,
    acked: bool,
    closed: bool,
    i: int,
)
    requires
        before.wf(),
        exists|q: &mut RedbQueue|
            *q == before && *final(q) == done && #[trigger] call_ensures(
                RedbQueue::ack,
                (q, custom_id, attempt),
                acked,
            ),
        exists|q: &mut RedbQueue|
            *q == before && *final(q) == dead && #[trigger] call_ensures(
                RedbQueue::dead_letter,
                (q, custom_id, attempt, error),
                closed,
            ),
        0 <= i < before.spec_rows().len(),
    ensures
        ({
            let old = before.spec_rows()[i];
            let d = done.spec_rows()[i];
            let x = dead.spec_rows()[i];
            if old.custom_id == custom_id@ && old.status == ItemState::Leased && old.attempts
                == attempt {
                &&& acked && closed
                &&& d.status == ItemState::Done && d.last_error == old.last_error
                &&& d.leased_by is None && d.leased_until is None && d.attempts == old.attempts
                &&& x.status == ItemState::DeadLetter && x.last_error == Some(error@)
                &&& x.leased_by is None && x.leased_until is None && x.attempts == old.attempts
                &&& d.custom_id == old.custom_id && x.custom_id == old.custom_id
            } else {
                d == old && x == old
            }
        }),
        acked ==> exists|k: int|
            0 <= k < before.spec_rows().len() && (#[trigger] before.spec_rows()[k]).custom_id
                == custom_id@ && before.spec_rows()[k].status == ItemState::Leased
                && before.spec_rows()[k].attempts == attempt,
        acked == closed,
{
    crate::queue::law_close_ends_the_item(
        before.spec_rows(),
        custom_id@,
        attempt,
        ItemState::Done,
        None,
        i,
    );
    crate::queue::law_close_ends_the_item(
        before.spec_rows(),
        custom_id@,
        attempt,
        ItemState::DeadLetter,
        Some(error@),
        i,
    );
}

/// The reaper puts back in line just the items whose holder's time is up, ahead of those
/// never tried, and says how many.
pub proof fn law_the_indexed_reaper_puts_back_in_line(
    before: RedbQueue,
    after: RedbQueue,
    now: i64,
    moved: u64,
    i: int,
)
    requires
        before.wf(),
        exists|q: &mut RedbQueue|
            *q == before && *final(q) == after && #[trigger] call_ensures(
                RedbQueue::reap_at,
                (q, now),
                moved,
            ),
        0 <= i < before.spec_rows().len(),
    ensures
        ({
            let old = before.spec_rows()[i];
            let new = after.spec_rows()[i];
            if old.status == ItemState::Leased && old.leased_until is Some && old.leased_until->0
                < now {
                &&& new.status == ItemState::Pending
                &&& new.custom_id == old.custom_id && new.url == old.url && new.body == old.body
                &&& new.attempts == old.attempts
                &&& new.leased_by is None && new.leased_until is None
                &&& after.spec_requeued().contains(i)
            } else {
                new == old
            }
        }),
        after.spec_requeued().len() == before.spec_requeued().len() + moved,
        after.spec_fresh() == before.spec_fresh(),
        after.spec_requeued().take(before.spec_requeued().len() as int) == before.spec_requeued(),
{
    crate::queue::law_reap_gives_back_what_has_passed(before.spec_rows(), now);
    let e = choose|e: Seq<int>| #[trigger]
        requeue_effect(before, after, now, e) && moved == e.len();
    let a = before.spec_requeued();
    assert((a + e).take(a.len() as int) =~= a);
    if expired(before.spec_rows()[i], now) {
        let k = choose|k: int| 0 <= k < e.len() && e[k] == i;
        assert((a + e)[a.len() + k] == i);
    }
}

/// The counts of the indexed queue are the numbers of its rows in each state.
pub proof fn law_indexed_counts_are_those_of_the_rows(q: &RedbQueue, c: QueueCounts)
    requires
        q.wf(),
        call_ensures(RedbQueue::counts, (q,), c),
    ensures
        c.pending == q.spec_rows().filter(|row: ItemView| row.status == ItemState::Pending).len(),
        c.leased == q.spec_rows().filter(|row: ItemView| row.status == ItemState::Leased).len(),
        c.done == q.spec_rows().filter(|row: ItemView| row.status == ItemState::Done).len(),
        c.dead == q.spec_rows().filter(|row: ItemView| row.status == ItemState::DeadLetter).len(),
{
    let rows = q.spec_rows();
    crate::queue::law_counts_count_the_rows(rows, ItemState::Pending);
    crate::queue::law_counts_count_the_rows(rows, ItemState::Leased);
    crate::queue::law_counts_count_the_rows(rows, ItemState::Done);
    crate::queue::law_counts_count_the_rows(rows, ItemState::DeadLetter);
}

/// States are stored under the codes 0 to 3.
pub proof fn law_states_have_their_codes(s: ItemState, code: u8)
    requires
        call_ensures(status_code, (s,), code),
    ensures
        s == ItemState::Pending <==> code == 0,
        s == ItemState::Leased <==> code == 1,
        s == ItemState::Done <==> code == 2,
        s == ItemState::DeadLetter <==> code == 3,
{
}

} // verus!

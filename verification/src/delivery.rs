//! Exactly-once effect: what the queue and the store promise together.
//!
//! An item may be run more than once: its holder may die, its lease may pass, a whole
//! coordinator may be killed between any two steps. What the promise takes is the order
//! of two writes: a result is stored before the queue hears of it.

use vstd::prelude::*;

use crate::queue::{
    distinct_ids, enqueued, law_enqueue_keeps_progress, rows_after_close, rows_after_lease,
    rows_after_reap,
};
use crate::result::ResultView;
use crate::state::{terminal, ItemState};
use crate::store::{
    is_record, law_reload_restores, law_terminal_once, lines_for, offered, result_line, scanned,
    terminal_once, Sink, StoreView,
};
use crate::types::ItemView;

verus! {

/// The rows of a queue and the files of its store.
#[verifier::ext_equal]
pub struct Delivery {
    pub rows: Seq<ItemView>,
    pub store: StoreView,
}

/// Something that happens to the queue or to the store.
pub enum Happening {
    /// Items are enqueued.
    Enqueue { items: Seq<ItemView> },
    /// Up to `limit` items are leased.
    Lease { now: i64, until: i64, by: Seq<char>, limit: nat },
    /// Leases that have passed are taken back.
    Reap { now: i64 },
    /// A result is offered to the store.
    Offer { sink: Sink, result: ResultView },
    /// An item is closed by the holder of a lease.
    Close { id: Seq<char>, attempt: u32, to: ItemState, error: Option<Seq<char>> },
    /// The coordinator dies, and another reads the files of the store.
    Reopen,
}

/// What may happen: a result is offered whose line is a record of it, unless its id was
/// written already; and an item is closed only once the store holds its id as written.
pub open spec fn may_happen(d: Delivery, h: Happening) -> bool {
    match h {
        Happening::Offer { sink, result } => d.store.emitted.contains(result.custom_id) || is_record(
            result,
        ),
        Happening::Close { id, attempt, to, error } => terminal(to) && d.store.emitted.contains(id),
        _ => true,
    }
}

/// The queue and the store after something has happened.
pub open spec fn after(d: Delivery, h: Happening) -> Delivery {
    match h {
        Happening::Enqueue { items } => Delivery { rows: enqueued(d.rows, items), ..d },
        Happening::Lease { now, until, by, limit } => Delivery {
            rows: rows_after_lease(d.rows, now, until, by, limit),
            ..d
        },
        Happening::Reap { now } => Delivery { rows: rows_after_reap(d.rows, now), ..d },
        Happening::Offer { sink, result } => Delivery {
            store: offered(d.store, sink, result.custom_id, result_line(result)),
            ..d
        },
        Happening::Close { id, attempt, to, error } => Delivery {
            rows: rows_after_close(d.rows, id, attempt, to, error),
            ..d
        },
        Happening::Reopen => Delivery {
            store: StoreView {
                emitted: scanned(d.store.out).union(scanned(d.store.dead)),
                ..d.store
            },
            ..d
        },
    }
}

/// The queue and the store after a whole history.
pub open spec fn after_all(d: Delivery, hs: Seq<Happening>) -> Delivery
    decreases hs.len(),
{
    if hs.len() == 0 {
        d
    } else {
        after(after_all(d, hs.drop_last()), hs.last())
    }
}

/// Each step of a history may happen where it does.
pub open spec fn all_may_happen(d: Delivery, hs: Seq<Happening>) -> bool
    decreases hs.len(),
{
    hs.len() > 0 ==> all_may_happen(d, hs.drop_last()) && may_happen(
        after_all(d, hs.drop_last()),
        hs.last(),
    )
}

/// No id is in the queue twice, none is in the files twice, and every item that is
/// closed is in the files.
pub open spec fn sound(d: Delivery) -> bool {
    &&& distinct_ids(d.rows)
    &&& terminal_once(d.store)
    &&& forall|i: int|
        0 <= i < d.rows.len() && terminal((#[trigger] d.rows[i]).status) ==> d.store.emitted.contains(
            d.rows[i].custom_id,
        )
}

/// Nothing is pending or leased.
pub open spec fn drained(rows: Seq<ItemView>) -> bool {
    forall|i: int| 0 <= i < rows.len() ==> terminal((#[trigger] rows[i]).status)
}

/// An empty queue and empty files.
pub open spec fn fresh_start() -> Delivery {
    Delivery {
        rows: Seq::empty(),
        store: StoreView { emitted: Set::empty(), out: Seq::empty(), dead: Seq::empty() },
    }
}

/// Rows that are enqueued are pending, but for those that were there.
proof fn lemma_enqueued_rows(rows: Seq<ItemView>, items: Seq<ItemView>)
    ensures
        enqueued(rows, items).len() >= rows.len(),
        forall|i: int|
            rows.len() <= i < enqueued(rows, items).len() ==> (#[trigger] enqueued(
                rows,
                items,
            )[i]).status == ItemState::Pending,
    decreases items.len(),
{
    if items.len() > 0 {
        lemma_enqueued_rows(rows, items.drop_last());
    }
}

/// Whatever happens, closed items are in the files, and no id is there twice.
pub proof fn law_each_step_is_sound(d: Delivery, h: Happening)
    requires
        sound(d),
        may_happen(d, h),
    ensures
        sound(after(d, h)),
{
    let t = after(d, h);
    match h {
        Happening::Enqueue { items } => {
            law_enqueue_keeps_progress(d.rows, items);
            lemma_enqueued_rows(d.rows, items);
            assert forall|i: int|
                0 <= i < t.rows.len() && terminal(
                    (#[trigger] t.rows[i]).status,
                ) implies t.store.emitted.contains(t.rows[i].custom_id) by {
                if i < d.rows.len() {
                    assert(t.rows.take(d.rows.len() as int)[i] == t.rows[i]);
                    assert(d.rows[i] == t.rows[i]);
                }
            }
        },
        Happening::Lease { now, until, by, limit } => {
            assert forall|i: int| 0 <= i < t.rows.len() implies (#[trigger] t.rows[i]).custom_id
                == d.rows[i].custom_id && (terminal(t.rows[i].status) ==> terminal(
                d.rows[i].status,
            )) by {}
        },
        Happening::Reap { now } => {
            assert forall|i: int| 0 <= i < t.rows.len() implies (#[trigger] t.rows[i]).custom_id
                == d.rows[i].custom_id && (terminal(t.rows[i].status) ==> terminal(
                d.rows[i].status,
            )) by {}
        },
        Happening::Offer { sink, result } => {
            law_terminal_once(d.store, sink, result);
        },
        Happening::Close { id, attempt, to, error } => {
            assert forall|i: int| 0 <= i < t.rows.len() implies (#[trigger] t.rows[i]).custom_id
                == d.rows[i].custom_id && (terminal(t.rows[i].status) ==> terminal(d.rows[i].status)
                || d.rows[i].custom_id == id) by {}
        },
        Happening::Reopen => {
            law_reload_restores(d.store);
        },
    }
}

/// Whatever the history, with whatever crashes in it, closed items are in the files, and
/// no id is there twice.
pub proof fn law_every_history_is_sound(d: Delivery, hs: Seq<Happening>)
    requires
        sound(d),
        all_may_happen(d, hs),
    ensures
        sound(after_all(d, hs)),
    decreases hs.len(),
{
    if hs.len() > 0 {
        law_every_history_is_sound(d, hs.drop_last());
        law_each_step_is_sound(after_all(d, hs.drop_last()), hs.last());
    }
}

/// What starts with nothing is sound from the start.
pub proof fn law_a_fresh_start_is_sound()
    ensures
        sound(fresh_start()),
{
}

/// No history loses an item: every row stays in its place, under its id.
pub proof fn law_no_history_loses_an_item(d: Delivery, hs: Seq<Happening>, i: int)
    requires
        0 <= i < d.rows.len(),
    ensures
        i < after_all(d, hs).rows.len(),
        after_all(d, hs).rows[i].custom_id == d.rows[i].custom_id,
    decreases hs.len(),
{
    if hs.len() > 0 {
        law_no_history_loses_an_item(d, hs.drop_last(), i);
        let mid = after_all(d, hs.drop_last());
        match hs.last() {
            Happening::Enqueue { items } => {
                law_enqueue_keeps_progress(mid.rows, items);
                lemma_enqueued_rows(mid.rows, items);
                assert(enqueued(mid.rows, items).take(mid.rows.len() as int)[i] == enqueued(
                    mid.rows,
                    items,
                )[i]);
            },
            _ => {},
        }
    }
}

/// Exactly-once effect: once a queue is drained, whatever happened on the way, every item
/// that was ever in it has one line in the files of the store, as a result or as a dead
/// letter.
pub proof fn law_drained_is_exactly_once(d: Delivery, hs: Seq<Happening>, i: int)
    requires
        sound(d),
        all_may_happen(d, hs),
        drained(after_all(d, hs).rows),
        0 <= i < d.rows.len(),
    ensures
        ({
            let store = after_all(d, hs).store;
            lines_for(store.out, d.rows[i].custom_id) + lines_for(store.dead, d.rows[i].custom_id)
                == 1
        }),
{
    law_every_history_is_sound(d, hs);
    law_no_history_loses_an_item(d, hs, i);
    let end = after_all(d, hs);
    assert(terminal(end.rows[i].status));
    assert(end.store.emitted.contains(d.rows[i].custom_id));
}

} // verus!

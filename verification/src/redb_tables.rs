//! The tables of the index-based queue as they are stored, whatever they hold.
//!
//! Each operation reads and writes the tables entry by entry. One that comes upon an
//! index entry without an item, or upon an item that cannot be read, fails and leaves
//! every table as it was.

use vstd::prelude::*;

use crate::clock::now_ms;
use crate::duration::Duration;
use crate::error::ForgeError;
use crate::queue::{
    closed_row, coordinator_tag, fresh_item, fresh_row, lease_deadline, lease_end, leased_row,
    process_tag, requeued_row, QueueCounts,
};
use crate::state::ItemState;
use crate::text::{concat2, lemma_lex_total, lex_before, opt_str_view, str_before, str_eq, views};
use crate::types::{duplicate_opt, item_views, Item, ItemView};

verus! {

/// The tables of a stored queue. Each is in the order of its keys.
pub struct StoredTables {
    /// By id: the item, or the reason why it cannot be read.
    pub items: Vec<(String, Result<Item, String>)>,
    /// By sequence number: the id of an item in line.
    pub pending: Vec<(u64, String)>,
    /// By id: the end of the lease.
    pub leased: Vec<(String, i64)>,
    pub counts: QueueCounts,
    /// The next sequence number of a never-tried item.
    pub pending_seq: u64,
    /// The next sequence number of an item whose lease has passed.
    pub requeue_seq: u64,
}

/// The view of [`StoredTables`].
pub struct TablesView {
    pub items: Seq<(Seq<char>, Result<ItemView, Seq<char>>)>,
    pub pending: Seq<(nat, Seq<char>)>,
    pub leased: Seq<(Seq<char>, i64)>,
    pub counts: QueueCounts,
    pub pending_seq: nat,
    pub requeue_seq: nat,
}

/// The view of an item as it is stored.
pub open spec fn stored_view(r: Result<Item, String>) -> Result<ItemView, Seq<char>> {
    match r {
        Ok(i) => Ok(i@),
        Err(why) => Err(why@),
    }
}

/// The view of the table of items.
pub open spec fn items_view(s: Seq<(String, Result<Item, String>)>) -> Seq<
    (Seq<char>, Result<ItemView, Seq<char>>),
> {
    s.map_values(|e: (String, Result<Item, String>)| (e.0@, stored_view(e.1)))
}

/// The view of the line.
pub open spec fn pending_view(s: Seq<(u64, String)>) -> Seq<(nat, Seq<char>)> {
    s.map_values(|e: (u64, String)| (e.0 as nat, e.1@))
}

/// The view of the table of leases.
pub open spec fn leased_view(s: Seq<(String, i64)>) -> Seq<(Seq<char>, i64)> {
    s.map_values(|e: (String, i64)| (e.0@, e.1))
}

impl View for StoredTables {
    type V = TablesView;

    open spec fn view(&self) -> TablesView {
        TablesView {
            items: items_view(self.items@),
            pending: pending_view(self.pending@),
            leased: leased_view(self.leased@),
            counts: self.counts,
            pending_seq: self.pending_seq as nat,
            requeue_seq: self.requeue_seq as nat,
        }
    }
}

/// Where the entry of an id stands, or belongs, in a table.
pub open spec fn place<V>(s: Seq<(Seq<char>, V)>, id: Seq<char>) -> nat
    decreases s.len(),
{
    if s.len() == 0 || !lex_before(s[0].0, id) {
        0
    } else {
        1 + place(s.skip(1), id)
    }
}

/// A table holds an entry of an id.
pub open spec fn holds<V>(s: Seq<(Seq<char>, V)>, id: Seq<char>) -> bool {
    place(s, id) < s.len() && s[place(s, id) as int].0 == id
}

/// A table with the entry of an id added, or replaced.
pub open spec fn put<V>(s: Seq<(Seq<char>, V)>, id: Seq<char>, v: V) -> Seq<(Seq<char>, V)> {
    if holds(s, id) {
        s.update(place(s, id) as int, (id, v))
    } else {
        s.insert(place(s, id) as int, (id, v))
    }
}

/// A table without the entry of an id.
pub open spec fn without<V>(s: Seq<(Seq<char>, V)>, id: Seq<char>) -> Seq<(Seq<char>, V)> {
    if holds(s, id) {
        s.remove(place(s, id) as int)
    } else {
        s
    }
}

/// Where the entry of a sequence number stands, or belongs, in the line.
pub open spec fn place_in_line(s: Seq<(nat, Seq<char>)>, seq: nat) -> nat
    decreases s.len(),
{
    if s.len() == 0 || s[0].0 >= seq {
        0
    } else {
        1 + place_in_line(s.skip(1), seq)
    }
}

/// The line with the entry of a sequence number added, or replaced.
pub open spec fn put_in_line(s: Seq<(nat, Seq<char>)>, seq: nat, id: Seq<char>) -> Seq<
    (nat, Seq<char>),
> {
    let p = place_in_line(s, seq) as int;
    if p < s.len() && s[p].0 == seq {
        s.update(p, (seq, id))
    } else {
        s.insert(p, (seq, id))
    }
}

/// A counter one up, where it can be told from a negative number.
pub open spec fn raised(n: u64) -> u64 {
    if n < i64::MAX {
        (n + 1) as u64
    } else {
        0
    }
}

/// A counter one down, but not below 0.
pub open spec fn lowered(n: u64) -> u64 {
    if 1 <= n <= i64::MAX {
        (n - 1) as u64
    } else {
        0
    }
}

fn raise(n: u64) -> (r: u64)
    ensures
        r == raised(n),
{
    if n < 0x7fff_ffff_ffff_ffff {
        n + 1
    } else {
        0
    }
}

fn lower(n: u64) -> (r: u64)
    ensures
        r == lowered(n),
{
    if 1 <= n && n <= 0x7fff_ffff_ffff_ffff {
        n - 1
    } else {
        0
    }
}

/// Why an operation on the tables fails.
pub enum Fault {
    /// An index entry has no item.
    Missing(Seq<char>),
    /// An item cannot be read.
    Unreadable(Seq<char>),
}

/// The error says what the fault is.
pub open spec fn tells(e: ForgeError, fault: Fault) -> bool {
    match fault {
        Fault::Missing(m) => e matches ForgeError::Queue(t) && t@ == m,
        Fault::Unreadable(m) => e matches ForgeError::Json(t) && t@ == m,
    }
}

/// The item stored under an id, or the fault where there is none or it cannot be read.
pub open spec fn stored_row(t: TablesView, id: Seq<char>, missing: Seq<char>) -> Result<
    ItemView,
    Fault,
> {
    if holds(t.items, id) {
        match t.items[place(t.items, id) as int].1 {
            Ok(row) => Ok(row),
            Err(why) => Err(Fault::Unreadable(why)),
        }
    } else {
        Err(Fault::Missing(missing + id))
    }
}

/// The ids whose lease ends before `now`, in their order.
pub open spec fn passed_ids(leased: Seq<(Seq<char>, i64)>, now: i64) -> Seq<Seq<char>>
    decreases leased.len(),
{
    if leased.len() == 0 {
        Seq::empty()
    } else {
        let before = passed_ids(leased.drop_last(), now);
        if leased.last().1 < now {
            before.push(leased.last().0)
        } else {
            before
        }
    }
}

/// The tables once the lease of one id has been taken back.
pub open spec fn taken_back(t: TablesView, id: Seq<char>) -> Result<TablesView, Fault> {
    match stored_row(t, id, "leased index points at missing item "@) {
        Err(fault) => Err(fault),
        Ok(row) => Ok(
            TablesView {
                items: put(t.items, id, Ok(requeued_row(row))),
                pending: put_in_line(t.pending, t.requeue_seq, id),
                leased: without(t.leased, id),
                counts: QueueCounts {
                    pending: raised(t.counts.pending),
                    leased: lowered(t.counts.leased),
                    ..t.counts
                },
                requeue_seq: t.requeue_seq + 1,
                ..t
            },
        ),
    }
}

/// The tables once the leases of the ids have been taken back, one after another.
pub open spec fn all_taken_back(t: TablesView, ids: Seq<Seq<char>>) -> Result<TablesView, Fault>
    decreases ids.len(),
{
    if ids.len() == 0 {
        Ok(t)
    } else {
        match taken_back(t, ids[0]) {
            Ok(u) => all_taken_back(u, ids.skip(1)),
            Err(fault) => Err(fault),
        }
    }
}

/// The tables once every lease that ends before `now` has been taken back.
pub open spec fn reaped(t: TablesView, now: i64) -> Result<TablesView, Fault> {
    all_taken_back(t, passed_ids(t.leased, now))
}

/// The item of one entry of the line once leased, and the tables then.
pub open spec fn claimed_entry(
    t: TablesView,
    id: Seq<char>,
    until: i64,
    by: Seq<char>,
) -> Result<(TablesView, ItemView), Fault> {
    match stored_row(t, id, "pending index points at missing item "@) {
        Err(fault) => Err(fault),
        Ok(row) => {
            let item = leased_row(row, until, by);
            Ok(
                (
                    TablesView {
                        items: put(t.items, id, Ok(item)),
                        leased: put(t.leased, id, until),
                        counts: QueueCounts {
                            pending: lowered(t.counts.pending),
                            leased: raised(t.counts.leased),
                            ..t.counts
                        },
                        ..t
                    },
                    item,
                ),
            )
        },
    }
}

/// The items of the entries once leased one after another, behind `out`, and the tables
/// then.
pub open spec fn claimed_entries(
    t: TablesView,
    claim: Seq<(nat, Seq<char>)>,
    until: i64,
    by: Seq<char>,
    out: Seq<ItemView>,
) -> Result<(TablesView, Seq<ItemView>), Fault>
    decreases claim.len(),
{
    if claim.len() == 0 {
        Ok((t, out))
    } else {
        match claimed_entry(t, claim[0].1, until, by) {
            Ok((u, item)) => claimed_entries(u, claim.skip(1), until, by, out.push(item)),
            Err(fault) => Err(fault),
        }
    }
}

/// A lease of up to `limit` items: the leases that have passed are taken back, and then
/// the front of the line leaves it and is handed out.
pub open spec fn leased_out(
    t: TablesView,
    now: i64,
    nanos: nat,
    limit: nat,
    by: Seq<char>,
) -> Result<(TablesView, Seq<ItemView>), Fault> {
    match reaped(t, now) {
        Err(fault) => Err(fault),
        Ok(u) => {
            let k = if limit <= u.pending.len() {
                limit as int
            } else {
                u.pending.len() as int
            };
            claimed_entries(
                TablesView { pending: u.pending.skip(k), ..u },
                u.pending.take(k),
                lease_end(now, nanos / 1_000_000),
                by,
                Seq::empty(),
            )
        },
    }
}

/// The tables once items have been enqueued: one fresh item at the end of the line for
/// each id that is not there yet.
pub open spec fn entered(t: TablesView, items: Seq<ItemView>) -> TablesView
    decreases items.len(),
{
    if items.len() == 0 {
        t
    } else {
        let id = items[0].custom_id;
        let next = if holds(t.items, id) {
            t
        } else {
            TablesView {
                items: put(t.items, id, Ok(fresh_row(items[0]))),
                pending: put_in_line(t.pending, t.pending_seq, id),
                counts: QueueCounts { pending: raised(t.counts.pending), ..t.counts },
                pending_seq: t.pending_seq + 1,
                ..t
            }
        };
        entered(next, items.skip(1))
    }
}

/// The tables once the lease of an id at an attempt has been closed, and whether there
/// was one.
pub open spec fn closed_entry(
    t: TablesView,
    id: Seq<char>,
    attempt: u32,
    to: ItemState,
    error: Option<Seq<char>>,
) -> Result<(TablesView, bool), Fault> {
    if !holds(t.items, id) {
        Ok((t, false))
    } else {
        match t.items[place(t.items, id) as int].1 {
            Err(why) => Err(Fault::Unreadable(why)),
            Ok(row) => if row.status == ItemState::Leased && row.attempts == attempt {
                let counts = QueueCounts { leased: lowered(t.counts.leased), ..t.counts };
                Ok(
                    (
                        TablesView {
                            items: put(t.items, id, Ok(closed_row(row, to, error))),
                            leased: without(t.leased, id),
                            counts: if to == ItemState::Done {
                                QueueCounts { done: raised(counts.done), ..counts }
                            } else {
                                QueueCounts { dead: raised(counts.dead), ..counts }
                            },
                            ..t
                        },
                        true,
                    ),
                )
            } else {
                Ok((t, false))
            },
        }
    }
}

/// The entries with the views of their keys.
spec fn keyed<V>(s: Seq<(String, V)>) -> Seq<(Seq<char>, V)> {
    s.map_values(|e: (String, V)| (e.0@, e.1))
}

/// A place goes by the keys alone.
proof fn lemma_place_by_keys<V, W>(s: Seq<(Seq<char>, V)>, t: Seq<(Seq<char>, W)>, id: Seq<char>)
    requires
        s.len() == t.len(),
        forall|i: int| 0 <= i < s.len() ==> (#[trigger] s[i]).0 == (#[trigger] t[i]).0,
    ensures
        place(s, id) == place(t, id),
    decreases s.len(),
{
    if s.len() > 0 {
        assert(s[0].0 == t[0].0);
        let a = s.skip(1);
        let b = t.skip(1);
        assert forall|i: int| 0 <= i < a.len() implies (#[trigger] a[i]).0 == (#[trigger] b[i]).0 by {
            assert(s[i + 1].0 == t[i + 1].0);
        }
        lemma_place_by_keys(a, b, id);
    }
}

fn seek<V>(s: &Vec<(String, V)>, id: &str) -> (r: usize)
    ensures
        r <= s@.len(),
        r == place(keyed(s@), id@),
{
    let ghost all = keyed(s@);
    let mut i: usize = 0;
    assert(all.skip(0) == all);
    while i < s.len() && str_before(s[i].0.as_str(), id)
        invariant
            i <= s@.len(),
            all == keyed(s@),
            place(all, id@) == i + place(all.skip(i as int), id@),
        decreases s@.len() - i,
    {
        proof {
            assert(all.skip(i as int)[0] == all[i as int]);
            assert(all.skip(i as int).skip(1) == all.skip(i + 1));
        }
        i = i + 1;
    }
    proof {
        if i < s@.len() {
            assert(all.skip(i as int)[0] == all[i as int]);
        }
    }
    i
}

impl StoredTables {
    /// Where the item of an id stands, or belongs, and whether it is there.
    fn item_place(&self, id: &str) -> (r: (usize, bool))
        ensures
            r.0 <= self.items@.len(),
            r.0 == place(self@.items, id@),
            r.1 == holds(self@.items, id@),
    {
        let i: usize = seek(&self.items, id);
        proof {
            lemma_place_by_keys(keyed(self.items@), self@.items, id@);
        }
        let found: bool = i < self.items.len() && str_eq(self.items[i].0.as_str(), id);
        assert(i < self.items@.len() ==> self@.items[i as int].0 == self.items@[i as int].0@);
        (i, found)
    }

    /// Where the lease of an id stands, or belongs, and whether it is there.
    fn lease_place(&self, id: &str) -> (r: (usize, bool))
        ensures
            r.0 <= self.leased@.len(),
            r.0 == place(self@.leased, id@),
            r.1 == holds(self@.leased, id@),
    {
        let i: usize = seek(&self.leased, id);
        proof {
            lemma_place_by_keys(keyed(self.leased@), self@.leased, id@);
        }
        let found: bool = i < self.leased.len() && str_eq(self.leased[i].0.as_str(), id);
        assert(i < self.leased@.len() ==> self@.leased[i as int].0 == self.leased@[i as int].0@);
        (i, found)
    }

    /// The item stored under an id; `missing` begins the message where there is none.
    fn read(&self, id: &str, missing: &str) -> (r: Result<Item, ForgeError>)
        ensures
            match (r, stored_row(self@, id@, missing@)) {
                (Ok(i), Ok(row)) => i@ == row,
                (Err(e), Err(fault)) => tells(e, fault),
                _ => false,
            },
    {
        let (i, found): (usize, bool) = self.item_place(id);
        if !found {
            return Err(ForgeError::Queue(concat2(missing, id)));
        }
        assert(self@.items[i as int].1 == stored_view(self.items@[i as int].1));
        match &self.items[i].1 {
            Ok(item) => Ok(item.duplicate()),
            Err(why) => Err(ForgeError::Json(why.as_str().to_owned())),
        }
    }

    fn put_item(&mut self, id: &str, item: Item)
        ensures
            final(self)@ == (TablesView {
                items: put(old(self)@.items, id@, Ok(item@)),
                ..old(self)@
            }),
    {
        let ghost before = *self;
        let (i, found): (usize, bool) = self.item_place(id);
        let ghost entry = (id@, Ok::<ItemView, Seq<char>>(item@));
        if found {
            self.items.set(i, (id.to_owned(), Ok(item)));
            assert(items_view(self.items@) =~= items_view(before.items@).update(i as int, entry));
        } else {
            self.items.insert(i, (id.to_owned(), Ok(item)));
            assert(items_view(self.items@) =~= items_view(before.items@).insert(i as int, entry));
        }
    }

    fn put_lease(&mut self, id: &str, until: i64)
        ensures
            final(self)@ == (TablesView {
                leased: put(old(self)@.leased, id@, until),
                ..old(self)@
            }),
    {
        let ghost before = *self;
        let (i, found): (usize, bool) = self.lease_place(id);
        if found {
            self.leased.set(i, (id.to_owned(), until));
            assert(leased_view(self.leased@) =~= leased_view(before.leased@).update(
                i as int,
                (id@, until),
            ));
        } else {
            self.leased.insert(i, (id.to_owned(), until));
            assert(leased_view(self.leased@) =~= leased_view(before.leased@).insert(
                i as int,
                (id@, until),
            ));
        }
    }

    fn drop_lease(&mut self, id: &str)
        ensures
            final(self)@ == (TablesView { leased: without(old(self)@.leased, id@), ..old(self)@ }),
    {
        let ghost before = *self;
        let (i, found): (usize, bool) = self.lease_place(id);
        if found {
            self.leased.remove(i);
            assert(leased_view(self.leased@) =~= leased_view(before.leased@).remove(i as int));
        }
    }

    fn put_pending(&mut self, seq: u64, id: &str)
        ensures
            final(self)@ == (TablesView {
                pending: put_in_line(old(self)@.pending, seq as nat, id@),
                ..old(self)@
            }),
    {
        let ghost before = *self;
        let ghost all = pending_view(self.pending@);
        let mut i: usize = 0;
        assert(all.skip(0) == all);
        while i < self.pending.len() && self.pending[i].0 < seq
            invariant
                *self == before,
                i <= self.pending@.len(),
                all == pending_view(self.pending@),
                place_in_line(all, seq as nat) == i + place_in_line(all.skip(i as int), seq as nat),
            decreases self.pending@.len() - i,
        {
            proof {
                assert(all.skip(i as int)[0] == all[i as int]);
                assert(all.skip(i as int).skip(1) == all.skip(i + 1));
            }
            i = i + 1;
        }
        proof {
            if i < self.pending@.len() {
                assert(all.skip(i as int)[0] == all[i as int]);
            }
        }
        if i < self.pending.len() && self.pending[i].0 == seq {
            self.pending.set(i, (seq, id.to_owned()));
            assert(pending_view(self.pending@) =~= all.update(i as int, (seq as nat, id@)));
        } else {
            self.pending.insert(i, (seq, id.to_owned()));
            assert(pending_view(self.pending@) =~= all.insert(i as int, (seq as nat, id@)));
        }
    }

    /// Another copy of the tables.
    pub fn duplicate(&self) -> (r: StoredTables)
        ensures
            r@ == self@,
    {
        let mut items: Vec<(String, Result<Item, String>)> = Vec::new();
        let mut i: usize = 0;
        while i < self.items.len()
            invariant
                i <= self.items@.len(),
                items@.len() == i,
                items_view(items@) == items_view(self.items@).take(i as int),
            decreases self.items@.len() - i,
        {
            let ghost before = items@;
            let row: Result<Item, String> = match &self.items[i].1 {
                Ok(item) => Ok(item.duplicate()),
                Err(why) => Err(why.as_str().to_owned()),
            };
            let entry: (String, Result<Item, String>) = (self.items[i].0.as_str().to_owned(), row);
            let ghost v = (entry.0@, stored_view(entry.1));
            items.push(entry);
            proof {
                assert(v == items_view(self.items@)[i as int]);
                assert(items_view(items@) =~= items_view(before).push(v));
                assert(items_view(self.items@).take(i + 1) =~= items_view(self.items@).take(
                    i as int,
                ).push(v));
            }
            i = i + 1;
        }
        let mut pending: Vec<(u64, String)> = Vec::new();
        let mut j: usize = 0;
        while j < self.pending.len()
            invariant
                j <= self.pending@.len(),
                pending@.len() == j,
                pending_view(pending@) == pending_view(self.pending@).take(j as int),
            decreases self.pending@.len() - j,
        {
            let ghost before = pending@;
            pending.push((self.pending[j].0, self.pending[j].1.as_str().to_owned()));
            proof {
                let v = pending_view(self.pending@)[j as int];
                assert(pending_view(pending@) =~= pending_view(before).push(v));
                assert(pending_view(self.pending@).take(j + 1) =~= pending_view(
                    self.pending@,
                ).take(j as int).push(v));
            }
            j = j + 1;
        }
        let mut leased: Vec<(String, i64)> = Vec::new();
        let mut k: usize = 0;
        while k < self.leased.len()
            invariant
                k <= self.leased@.len(),
                leased@.len() == k,
                leased_view(leased@) == leased_view(self.leased@).take(k as int),
            decreases self.leased@.len() - k,
        {
            let ghost before = leased@;
            leased.push((self.leased[k].0.as_str().to_owned(), self.leased[k].1));
            proof {
                let v = leased_view(self.leased@)[k as int];
                assert(leased_view(leased@) =~= leased_view(before).push(v));
                assert(leased_view(self.leased@).take(k + 1) =~= leased_view(self.leased@).take(
                    k as int,
                ).push(v));
            }
            k = k + 1;
        }
        let r: StoredTables = StoredTables {
            items,
            pending,
            leased,
            counts: self.counts,
            pending_seq: self.pending_seq,
            requeue_seq: self.requeue_seq,
        };
        proof {
            assert(r@.items =~= self@.items);
            assert(r@.pending =~= self@.pending);
            assert(r@.leased =~= self@.leased);
        }
        r
    }
}

impl StoredTables {
    /// The ids whose lease ends before `now`.
    fn passed(&self, now: i64) -> (r: Vec<String>)
        ensures
            views(r@) == passed_ids(self@.leased, now),
            r@.len() <= self.leased@.len(),
    {
        let ghost all = leased_view(self.leased@);
        let mut r: Vec<String> = Vec::new();
        let mut i: usize = 0;
        assert(views(r@) =~= passed_ids(all.take(0), now));
        while i < self.leased.len()
            invariant
                i <= self.leased@.len(),
                all == leased_view(self.leased@),
                views(r@) == passed_ids(all.take(i as int), now),
                r@.len() <= i,
            decreases self.leased@.len() - i,
        {
            let ghost before = r@;
            proof {
                assert(all.take(i + 1).drop_last() =~= all.take(i as int));
                assert(all.take(i + 1).last() == all[i as int]);
            }
            if self.leased[i].1 < now {
                r.push(self.leased[i].0.as_str().to_owned());
                assert(views(r@) =~= views(before).push(all[i as int].0));
            }
            i = i + 1;
        }
        assert(all.take(all.len() as int) =~= all);
        r
    }

    fn take_back(&mut self, id: &str) -> (r: Result<(), ForgeError>)
        requires
            old(self)@.requeue_seq < u64::MAX,
        ensures
            match (r, taken_back(old(self)@, id@)) {
                (Ok(_), Ok(t)) => final(self)@ == t,
                (Err(e), Err(fault)) => tells(e, fault),
                _ => false,
            },
    {
        let mut item: Item = match self.read(id, "leased index points at missing item ") {
            Ok(item) => item,
            Err(e) => {
                return Err(e);
            },
        };
        item.status = ItemState::Pending;
        item.leased_until = None;
        item.leased_by = None;
        self.put_item(id, item);
        self.drop_lease(id);
        let seq: u64 = self.requeue_seq;
        self.put_pending(seq, id);
        self.requeue_seq = seq + 1;
        self.counts = QueueCounts {
            pending: raise(self.counts.pending),
            leased: lower(self.counts.leased),
            ..self.counts
        };
        Ok(())
    }

    fn take_back_passed(&mut self, now: i64) -> (r: Result<u64, ForgeError>)
        requires
            old(self)@.requeue_seq + old(self)@.leased.len() <= u64::MAX,
        ensures
            match (r, reaped(old(self)@, now)) {
                (Ok(moved), Ok(t)) => final(self)@ == t && moved == passed_ids(
                    old(self)@.leased,
                    now,
                ).len(),
                (Err(e), Err(fault)) => tells(e, fault),
                _ => false,
            },
    {
        let ghost before = self@;
        let ids: Vec<String> = self.passed(now);
        let ghost all = views(ids@);
        let mut i: usize = 0;
        assert(all.skip(0) =~= all);
        while i < ids.len()
            invariant
                i <= ids@.len(),
                before == old(self)@,
                all == views(ids@),
                all == passed_ids(before.leased, now),
                ids@.len() <= before.leased.len(),
                self@.requeue_seq == before.requeue_seq + i,
                before.requeue_seq + before.leased.len() <= u64::MAX,
                reaped(before, now) == all_taken_back(self@, all.skip(i as int)),
            decreases ids@.len() - i,
        {
            proof {
                assert(all.skip(i as int)[0] == ids@[i as int]@);
                assert(all.skip(i as int).skip(1) =~= all.skip(i + 1));
            }
            match self.take_back(ids[i].as_str()) {
                Ok(_) => {},
                Err(e) => {
                    return Err(e);
                },
            }
            i = i + 1;
        }
        Ok(i as u64)
    }

    fn claim(&mut self, id: &str, until: i64, by: &str) -> (r: Result<Item, ForgeError>)
        ensures
            match (r, claimed_entry(old(self)@, id@, until, by@)) {
                (Ok(item), Ok((t, row))) => final(self)@ == t && item@ == row,
                (Err(e), Err(fault)) => tells(e, fault),
                _ => false,
            },
    {
        let mut item: Item = match self.read(id, "pending index points at missing item ") {
            Ok(item) => item,
            Err(e) => {
                return Err(e);
            },
        };
        item.status = ItemState::Leased;
        item.attempts = if item.attempts == 0xffff_ffff {
            0xffff_ffff
        } else {
            item.attempts + 1
        };
        item.leased_until = Some(until);
        item.leased_by = Some(by.to_owned());
        self.put_item(id, item.duplicate());
        self.put_lease(id, until);
        self.counts = QueueCounts {
            pending: lower(self.counts.pending),
            leased: raise(self.counts.leased),
            ..self.counts
        };
        Ok(item)
    }

    /// Takes the first `k` entries out of the line.
    fn pop(&mut self, k: usize) -> (claim: Vec<String>)
        requires
            k <= old(self)@.pending.len(),
        ensures
            final(self)@ == (TablesView {
                pending: old(self)@.pending.skip(k as int),
                ..old(self)@
            }),
            claim@.len() == k,
            forall|i: int| 0 <= i < k ==> (#[trigger] claim@[i])@ == old(self)@.pending[i].1,
    {
        let ghost before = *self;
        let mut claim: Vec<String> = Vec::new();
        let mut rest: Vec<(u64, String)> = Vec::new();
        let mut i: usize = 0;
        while i < self.pending.len()
            invariant
                i <= self.pending@.len(),
                k <= self.pending@.len(),
                *self == before,
                claim@.len() == if i <= k {
                    i
                } else {
                    k
                },
                rest@.len() == if i <= k {
                    0
                } else {
                    i - k
                },
                forall|x: int|
                    0 <= x < claim@.len() ==> (#[trigger] claim@[x])@ == before.pending@[x].1@,
                forall|x: int|
                    0 <= x < rest@.len() ==> (#[trigger] rest@[x]).0 == before.pending@[x + k].0
                        && rest@[x].1@ == before.pending@[x + k].1@,
            decreases self.pending@.len() - i,
        {
            let id: String = self.pending[i].1.as_str().to_owned();
            if i < k {
                claim.push(id);
            } else {
                rest.push((self.pending[i].0, id));
            }
            i = i + 1;
        }
        self.pending = rest;
        assert(pending_view(self.pending@) =~= pending_view(before.pending@).skip(k as int));
        claim
    }

    fn lease_out(&mut self, limit: usize, lease_for: Duration, now: i64, by: &str) -> (r: Result<
        Vec<Item>,
        ForgeError,
    >)
        requires
            old(self)@.requeue_seq + old(self)@.leased.len() <= u64::MAX,
        ensures
            match (r, leased_out(old(self)@, now, lease_for@, limit as nat, by@)) {
                (Ok(out), Ok((t, rows))) => final(self)@ == t && item_views(out@) == rows,
                (Err(e), Err(fault)) => tells(e, fault),
                _ => false,
            },
    {
        let ghost before = self@;
        match self.take_back_passed(now) {
            Ok(_) => {},
            Err(e) => {
                return Err(e);
            },
        }
        let until: i64 = lease_deadline(now, lease_for);
        let ghost line = self@.pending;
        let k: usize = if limit <= self.pending.len() {
            limit
        } else {
            self.pending.len()
        };
        let ids: Vec<String> = self.pop(k);
        let ghost claim = line.take(k as int);
        let mut out: Vec<Item> = Vec::new();
        let mut i: usize = 0;
        proof {
            assert(claim.skip(0) =~= claim);
            assert(item_views(out@) =~= Seq::<ItemView>::empty());
        }
        while i < ids.len()
            invariant
                i <= ids@.len(),
                before == old(self)@,
                ids@.len() == claim.len(),
                forall|x: int| 0 <= x < ids@.len() ==> (#[trigger] ids@[x])@ == claim[x].1,
                leased_out(before, now, lease_for@, limit as nat, by@) == claimed_entries(
                    self@,
                    claim.skip(i as int),
                    until,
                    by@,
                    item_views(out@),
                ),
            decreases ids@.len() - i,
        {
            proof {
                assert(claim.skip(i as int)[0] == claim[i as int]);
                assert(claim.skip(i as int).skip(1) =~= claim.skip(i + 1));
            }
            let ghost rows = item_views(out@);
            let item: Item = match self.claim(ids[i].as_str(), until, by) {
                Ok(item) => item,
                Err(e) => {
                    return Err(e);
                },
            };
            let ghost row = item@;
            out.push(item);
            assert(item_views(out@) =~= rows.push(row));
            i = i + 1;
        }
        Ok(out)
    }

    fn enter(&mut self, items: &[Item]) -> (inserted: u64)
        requires
            old(self)@.pending_seq + items@.len() <= u64::MAX,
        ensures
            final(self)@ == entered(old(self)@, item_views(items@)),
            inserted == final(self)@.pending_seq - old(self)@.pending_seq,
    {
        let ghost before = self@;
        let ghost all = item_views(items@);
        let mut inserted: u64 = 0;
        let mut i: usize = 0;
        assert(all.skip(0) =~= all);
        while i < items.len()
            invariant
                i <= items@.len(),
                all == item_views(items@),
                inserted <= i,
                self@.pending_seq == before.pending_seq + inserted,
                before.pending_seq + items@.len() <= u64::MAX,
                entered(before, all) == entered(self@, all.skip(i as int)),
            decreases items@.len() - i,
        {
            proof {
                assert(all.skip(i as int)[0] == items@[i as int]@);
                assert(all.skip(i as int).skip(1) =~= all.skip(i + 1));
            }
            let id: &str = items[i].custom_id.as_str();
            let (_, found): (usize, bool) = self.item_place(id);
            if !found {
                self.put_item(id, fresh_item(&items[i]));
                let seq: u64 = self.pending_seq;
                self.put_pending(seq, id);
                self.pending_seq = seq + 1;
                self.counts = QueueCounts { pending: raise(self.counts.pending), ..self.counts };
                inserted = inserted + 1;
            }
            i = i + 1;
        }
        inserted
    }

    fn close(&mut self, id: &str, attempt: u32, to: ItemState, error: Option<&str>) -> (r: Result<
        bool,
        ForgeError,
    >)
        ensures
            match (r, closed_entry(old(self)@, id@, attempt, to, opt_str_view(error))) {
                (Ok(closed), Ok((t, was))) => final(self)@ == t && closed == was,
                (Err(e), Err(fault)) => tells(e, fault) && final(self)@ == old(self)@,
                _ => false,
            },
    {
        let (i, found): (usize, bool) = self.item_place(id);
        if !found {
            return Ok(false);
        }
        assert(self@.items[i as int].1 == stored_view(self.items@[i as int].1));
        let mut item: Item = match &self.items[i].1 {
            Ok(item) => item.duplicate(),
            Err(why) => {
                return Err(ForgeError::Json(why.as_str().to_owned()));
            },
        };
        if item.status != ItemState::Leased || item.attempts != attempt {
            return Ok(false);
        }
        let kept: Option<String> = match error {
            Some(e) => Some(e.to_owned()),
            None => duplicate_opt(&item.last_error),
        };
        item.status = to;
        item.leased_until = None;
        item.leased_by = None;
        item.last_error = kept;
        self.put_item(id, item);
        self.drop_lease(id);
        let counts: QueueCounts = QueueCounts { leased: lower(self.counts.leased), ..self.counts };
        self.counts = if to == ItemState::Done {
            QueueCounts { done: raise(counts.done), ..counts }
        } else {
            QueueCounts { dead: raise(counts.dead), ..counts }
        };
        Ok(true)
    }
}

/// A queue over tables as they are stored.
pub struct TableQueue {
    tables: StoredTables,
    coordinator_id: String,
}

impl View for TableQueue {
    type V = TablesView;

    closed spec fn view(&self) -> TablesView {
        self.tables@
    }
}

impl TableQueue {
    /// The tag that leases carry.
    pub closed spec fn spec_coordinator(self) -> Seq<char> {
        self.coordinator_id@
    }

    /// A queue over the tables, for the process with the number `process`.
    pub fn new(tables: StoredTables, process: u32) -> (q: Self)
        ensures
            q@ == tables@,
            q.spec_coordinator() == process_tag(process),
    {
        TableQueue { tables, coordinator_id: coordinator_tag(process) }
    }

    /// The tables.
    pub fn tables(&self) -> (r: &StoredTables)
        ensures
            r@ == self@,
    {
        &self.tables
    }

    /// Whether sequence numbers are left for `n` more never-tried items.
    pub fn can_enqueue(&self, n: usize) -> (r: bool)
        ensures
            r == (self@.pending_seq + n <= u64::MAX),
    {
        self.tables.pending_seq as u128 + n as u128 <= 0xffff_ffff_ffff_ffff
    }

    /// Whether sequence numbers are left to take back every lease that is out.
    pub fn can_requeue(&self) -> (r: bool)
        ensures
            r == (self@.requeue_seq + self@.leased.len() <= u64::MAX),
    {
        self.tables.requeue_seq as u128 + self.tables.leased.len() as u128 <= 0xffff_ffff_ffff_ffff
    }

    /// The stored cardinalities by state.
    pub fn counts(&self) -> (c: QueueCounts)
        ensures
            c == self@.counts,
    {
        self.tables.counts
    }

    /// Adds the items whose id is not there yet. Returns how many.
    pub fn enqueue(&mut self, items: &[Item]) -> (inserted: u64)
        requires
            old(self)@.pending_seq + items@.len() <= u64::MAX,
        ensures
            final(self)@ == entered(old(self)@, item_views(items@)),
            final(self).spec_coordinator() == old(self).spec_coordinator(),
            inserted == final(self)@.pending_seq - old(self)@.pending_seq,
    {
        self.tables.enter(items)
    }

    /// Takes back every lease that ends before `now`. Returns how many.
    pub fn reap_at(&mut self, now: i64) -> (r: Result<u64, ForgeError>)
        requires
            old(self)@.requeue_seq + old(self)@.leased.len() <= u64::MAX,
        ensures
            final(self).spec_coordinator() == old(self).spec_coordinator(),
            match (r, reaped(old(self)@, now)) {
                (Ok(moved), Ok(t)) => final(self)@ == t && moved == passed_ids(
                    old(self)@.leased,
                    now,
                ).len(),
                (Err(e), Err(fault)) => tells(e, fault) && final(self)@ == old(self)@,
                _ => false,
            },
    {
        let mut next: StoredTables = self.tables.duplicate();
        match next.take_back_passed(now) {
            Ok(moved) => {
                self.tables = next;
                Ok(moved)
            },
            Err(e) => Err(e),
        }
    }

    /// Takes back every lease that has passed by now. Returns how many.
    pub fn reap(&mut self) -> (r: Result<u64, ForgeError>)
        requires
            old(self)@.requeue_seq + old(self)@.leased.len() <= u64::MAX,
        ensures
            final(self).spec_coordinator() == old(self).spec_coordinator(),
            exists|now: i64|
                match (r, #[trigger] reaped(old(self)@, now)) {
                    (Ok(moved), Ok(t)) => final(self)@ == t && moved == passed_ids(
                        old(self)@.leased,
                        now,
                    ).len(),
                    (Err(e), Err(fault)) => tells(e, fault) && final(self)@ == old(self)@,
                    _ => false,
                },
    {
        let now: i64 = now_ms();
        self.reap_at(now)
    }

    /// Leases up to `limit` items at the instant `now`.
    pub fn lease_at(&mut self, limit: usize, lease_for: Duration, now: i64) -> (r: Result<
        Vec<Item>,
        ForgeError,
    >)
        requires
            old(self)@.requeue_seq + old(self)@.leased.len() <= u64::MAX,
        ensures
            final(self).spec_coordinator() == old(self).spec_coordinator(),
            match (
                r,
                leased_out(
                    old(self)@,
                    now,
                    lease_for@,
                    limit as nat,
                    old(self).spec_coordinator(),
                ),
            ) {
                (Ok(out), Ok((t, rows))) => final(self)@ == t && item_views(out@) == rows,
                (Err(e), Err(fault)) => tells(e, fault) && final(self)@ == old(self)@,
                _ => false,
            },
    {
        let mut next: StoredTables = self.tables.duplicate();
        match next.lease_out(limit, lease_for, now, self.coordinator_id.as_str()) {
            Ok(out) => {
                self.tables = next;
                Ok(out)
            },
            Err(e) => Err(e),
        }
    }

    /// Leases up to `limit` items from now on.
    pub fn lease(&mut self, limit: usize, lease_for: Duration) -> (r: Result<
        Vec<Item>,
        ForgeError,
    >)
        requires
            old(self)@.requeue_seq + old(self)@.leased.len() <= u64::MAX,
        ensures
            final(self).spec_coordinator() == old(self).spec_coordinator(),
            exists|now: i64|
                match (
                    r,
                    #[trigger] leased_out(
                        old(self)@,
                        now,
                        lease_for@,
                        limit as nat,
                        old(self).spec_coordinator(),
                    ),
                ) {
                    (Ok(out), Ok((t, rows))) => final(self)@ == t && item_views(out@) == rows,
                    (Err(e), Err(fault)) => tells(e, fault) && final(self)@ == old(self)@,
                    _ => false,
                },
    {
        let now: i64 = now_ms();
        self.lease_at(limit, lease_for, now)
    }

    /// Marks a leased item done, while it still carries the attempt number `attempt`.
    /// Returns whether it was closed.
    pub fn ack(&mut self, custom_id: &str, attempt: u32) -> (r: Result<bool, ForgeError>)
        ensures
            final(self).spec_coordinator() == old(self).spec_coordinator(),
            match (r, closed_entry(old(self)@, custom_id@, attempt, ItemState::Done, None)) {
                (Ok(closed), Ok((t, was))) => final(self)@ == t && closed == was,
                (Err(e), Err(fault)) => tells(e, fault) && final(self)@ == old(self)@,
                _ => false,
            },
    {
        self.tables.close(custom_id, attempt, ItemState::Done, None)
    }

    /// Quarantines a leased item, recording `error`. Fenced like [`TableQueue::ack`].
    pub fn dead_letter(&mut self, custom_id: &str, attempt: u32, error: &str) -> (r: Result<
        bool,
        ForgeError,
    >)
        ensures
            final(self).spec_coordinator() == old(self).spec_coordinator(),
            match (
                r,
                closed_entry(
                    old(self)@,
                    custom_id@,
                    attempt,
                    ItemState::DeadLetter,
                    Some(error@),
                ),
            ) {
                (Ok(closed), Ok((t, was))) => final(self)@ == t && closed == was,
                (Err(e), Err(fault)) => tells(e, fault) && final(self)@ == old(self)@,
                _ => false,
            },
    {
        self.tables.close(custom_id, attempt, ItemState::DeadLetter, Some(error))
    }
}

/// Every item can be read, and every index entry has one.
pub open spec fn indexes_point_at_items(t: TablesView) -> bool {
    &&& forall|i: int| 0 <= i < t.items.len() ==> (#[trigger] t.items[i]).1 is Ok
    &&& forall|k: int| 0 <= k < t.leased.len() ==> holds(t.items, (#[trigger] t.leased[k]).0)
    &&& forall|k: int| 0 <= k < t.pending.len() ==> holds(t.items, (#[trigger] t.pending[k]).1)
}

/// Replacing an entry leaves the ids that a table holds.
proof fn lemma_put_keeps_ids<V>(s: Seq<(Seq<char>, V)>, id: Seq<char>, v: V, other: Seq<char>)
    requires
        holds(s, id),
    ensures
        put(s, id, v).len() == s.len(),
        holds(put(s, id, v), other) == holds(s, other),
{
    let p = place(s, id) as int;
    let t = put(s, id, v);
    assert forall|i: int| 0 <= i < s.len() implies (#[trigger] s[i]).0 == (#[trigger] t[i]).0 by {
        if i == p {
            assert(t[i] == (id, v));
        }
    }
    lemma_place_by_keys(s, t, other);
    lemma_place_bound(s, other);
}

/// A place lies within the table or right behind it.
proof fn lemma_place_bound<V>(s: Seq<(Seq<char>, V)>, id: Seq<char>)
    ensures
        place(s, id) <= s.len(),
    decreases s.len(),
{
    if s.len() > 0 && lex_before(s[0].0, id) {
        lemma_place_bound(s.skip(1), id);
    }
}

/// A place lies within the line or right behind it.
proof fn lemma_place_in_line_bound(s: Seq<(nat, Seq<char>)>, seq: nat)
    ensures
        place_in_line(s, seq) <= s.len(),
    decreases s.len(),
{
    if s.len() > 0 && s[0].0 < seq {
        lemma_place_in_line_bound(s.skip(1), seq);
    }
}

/// Where the ids ascend, the place of an id that occurs is where it occurs.
pub proof fn lemma_place_at<V>(s: Seq<(Seq<char>, V)>, i: int)
    requires
        0 <= i < s.len(),
        forall|a: int, b: int|
            0 <= a < b < s.len() ==> lex_before((#[trigger] s[a]).0, (#[trigger] s[b]).0),
    ensures
        place(s, s[i].0) == i,
        holds(s, s[i].0),
    decreases i,
{
    if i > 0 {
        assert(lex_before(s[0].0, s[i].0));
        let rest = s.skip(1);
        assert forall|a: int, b: int| 0 <= a < b < rest.len() implies lex_before(
            (#[trigger] rest[a]).0,
            (#[trigger] rest[b]).0,
        ) by {
            assert(lex_before(s[a + 1].0, s[b + 1].0));
        }
        assert(rest[i - 1] == s[i]);
        lemma_place_at(rest, i - 1);
    } else {
        lemma_lex_total(s[0].0, s[0].0);
    }
}

proof fn lemma_taken_back_points(t: TablesView, id: Seq<char>)
    requires
        indexes_point_at_items(t),
        holds(t.items, id),
    ensures
        taken_back(t, id) matches Ok(u) && indexes_point_at_items(u) && forall|other: Seq<char>|
            #[trigger] holds(u.items, other) == holds(t.items, other),
{
    let p = place(t.items, id) as int;
    assert(t.items[p].1 is Ok);
    let row = t.items[p].1->Ok_0;
    let u = taken_back(t, id)->Ok_0;
    assert forall|other: Seq<char>| #[trigger] holds(u.items, other) == holds(t.items, other) by {
        lemma_put_keeps_ids(t.items, id, Ok(requeued_row(row)), other);
    }
    lemma_put_keeps_ids(t.items, id, Ok(requeued_row(row)), id);
    lemma_place_in_line_bound(t.pending, t.requeue_seq);
    let q = place_in_line(t.pending, t.requeue_seq) as int;
    assert forall|i: int| 0 <= i < u.items.len() implies (#[trigger] u.items[i]).1 is Ok by {
        if i != p {
            assert(u.items[i] == t.items[i]);
        }
    }
    assert forall|k: int| 0 <= k < u.leased.len() implies holds(u.items, (#[trigger] u.leased[k]).0) by {
        let at = place(t.leased, id) as int;
        if holds(t.leased, id) && k >= at {
            assert(u.leased[k] == t.leased[k + 1]);
        } else {
            assert(u.leased[k] == t.leased[k]);
        }
    }
    assert forall|k: int| 0 <= k < u.pending.len() implies holds(
        u.items,
        (#[trigger] u.pending[k]).1,
    ) by {
        if k < q {
            assert(u.pending[k] == t.pending[k]);
        } else if k > q {
            if q < t.pending.len() && t.pending[q].0 == t.requeue_seq {
                assert(u.pending[k] == t.pending[k]);
            } else {
                assert(u.pending[k] == t.pending[k - 1]);
            }
        }
    }
}

proof fn lemma_all_taken_back_points(t: TablesView, ids: Seq<Seq<char>>)
    requires
        indexes_point_at_items(t),
        forall|i: int| 0 <= i < ids.len() ==> holds(t.items, #[trigger] ids[i]),
    ensures
        all_taken_back(t, ids) matches Ok(u) && indexes_point_at_items(u),
    decreases ids.len(),
{
    if ids.len() > 0 {
        lemma_taken_back_points(t, ids[0]);
        let u = taken_back(t, ids[0])->Ok_0;
        let rest = ids.skip(1);
        assert forall|i: int| 0 <= i < rest.len() implies holds(u.items, #[trigger] rest[i]) by {
            assert(rest[i] == ids[i + 1]);
        }
        lemma_all_taken_back_points(u, rest);
    }
}

proof fn lemma_passed_ids_are_leased(leased: Seq<(Seq<char>, i64)>, now: i64, i: int)
    requires
        0 <= i < passed_ids(leased, now).len(),
    ensures
        exists|k: int| 0 <= k < leased.len() && (#[trigger] leased[k]).0 == passed_ids(leased, now)[i],
    decreases leased.len(),
{
    let before = passed_ids(leased.drop_last(), now);
    if i < before.len() {
        lemma_passed_ids_are_leased(leased.drop_last(), now, i);
        let k = choose|k: int|
            0 <= k < leased.drop_last().len() && (#[trigger] leased.drop_last()[k]).0 == before[i];
        assert(leased[k].0 == passed_ids(leased, now)[i]);
    } else {
        assert(leased[leased.len() - 1].0 == passed_ids(leased, now)[i]);
    }
}

proof fn lemma_claimed_entries_point(
    t: TablesView,
    claim: Seq<(nat, Seq<char>)>,
    until: i64,
    by: Seq<char>,
    out: Seq<ItemView>,
)
    requires
        indexes_point_at_items(t),
        forall|i: int| 0 <= i < claim.len() ==> holds(t.items, (#[trigger] claim[i]).1),
    ensures
        claimed_entries(t, claim, until, by, out) matches Ok((u, all)) && indexes_point_at_items(u)
            && all.len() == out.len() + claim.len(),
    decreases claim.len(),
{
    if claim.len() > 0 {
        let id = claim[0].1;
        let p = place(t.items, id) as int;
        assert(t.items[p].1 is Ok);
        let item = leased_row(t.items[p].1->Ok_0, until, by);
        let u = (claimed_entry(t, id, until, by)->Ok_0).0;
        assert forall|other: Seq<char>| #[trigger] holds(u.items, other) == holds(t.items, other) by {
            lemma_put_keeps_ids(t.items, id, Ok(item), other);
        }
        lemma_put_keeps_ids(t.items, id, Ok(item), id);
        assert forall|i: int| 0 <= i < u.items.len() implies (#[trigger] u.items[i]).1 is Ok by {
            if i != p {
                assert(u.items[i] == t.items[i]);
            }
        }
        lemma_place_bound(t.leased, id);
        let q = place(t.leased, id) as int;
        assert forall|k: int| 0 <= k < u.leased.len() implies holds(
            u.items,
            (#[trigger] u.leased[k]).0,
        ) by {
            if k < q {
                assert(u.leased[k] == t.leased[k]);
            } else if k > q {
                if holds(t.leased, id) {
                    assert(u.leased[k] == t.leased[k]);
                } else {
                    assert(u.leased[k] == t.leased[k - 1]);
                }
            }
        }
        let rest = claim.skip(1);
        assert forall|i: int| 0 <= i < rest.len() implies holds(u.items, (#[trigger] rest[i]).1) by {
            assert(rest[i] == claim[i + 1]);
        }
        lemma_claimed_entries_point(u, rest, until, by, out.push(item));
    }
}

/// While every index entry has an item that can be read, leases are taken back and
/// handed out without a fault, and that stays so.
pub proof fn law_sound_tables_do_not_fail(
    t: TablesView,
    now: i64,
    nanos: nat,
    limit: nat,
    by: Seq<char>,
)
    requires
        indexes_point_at_items(t),
    ensures
        reaped(t, now) matches Ok(u) && indexes_point_at_items(u),
        leased_out(t, now, nanos, limit, by) matches Ok((u, _)) && indexes_point_at_items(u),
{
    let ids = passed_ids(t.leased, now);
    assert forall|i: int| 0 <= i < ids.len() implies holds(t.items, #[trigger] ids[i]) by {
        lemma_passed_ids_are_leased(t.leased, now, i);
        let k = choose|k: int| 0 <= k < t.leased.len() && (#[trigger] t.leased[k]).0 == ids[i];
        assert(holds(t.items, t.leased[k].0));
    }
    lemma_all_taken_back_points(t, ids);
    let u = reaped(t, now)->Ok_0;
    let k = if limit <= u.pending.len() {
        limit as int
    } else {
        u.pending.len() as int
    };
    let rest = TablesView { pending: u.pending.skip(k), ..u };
    let claim = u.pending.take(k);
    assert forall|i: int| 0 <= i < rest.pending.len() implies holds(
        rest.items,
        (#[trigger] rest.pending[i]).1,
    ) by {
        assert(rest.pending[i] == u.pending[i + k]);
    }
    assert forall|i: int| 0 <= i < claim.len() implies holds(rest.items, (#[trigger] claim[i]).1) by {
        assert(claim[i] == u.pending[i]);
    }
    lemma_claimed_entries_point(rest, claim, lease_end(now, nanos / 1_000_000), by, Seq::empty());
}

/// The entries of a table are in the order of their keys.
pub open spec fn in_key_order<V>(s: Seq<(Seq<char>, V)>) -> bool {
    forall|a: int, b: int|
        0 <= a < b < s.len() ==> lex_before((#[trigger] s[a]).0, (#[trigger] s[b]).0)
}

/// A table holds an id exactly where one of its entries has it.
proof fn lemma_holds_is_having<V>(s: Seq<(Seq<char>, V)>, id: Seq<char>)
    requires
        in_key_order(s),
    ensures
        holds(s, id) == exists|i: int| 0 <= i < s.len() && (#[trigger] s[i]).0 == id,
{
    if exists|i: int| 0 <= i < s.len() && (#[trigger] s[i]).0 == id {
        let i = choose|i: int| 0 <= i < s.len() && (#[trigger] s[i]).0 == id;
        lemma_place_at(s, i);
    }
}

/// Putting an entry in changes no entry of another id, and leaves one entry of its own.
proof fn lemma_put_is_put<V>(s: Seq<(Seq<char>, V)>, id: Seq<char>, v: V)
    requires
        in_key_order(s),
    ensures
        put(s, id, v).contains((id, v)),
        forall|e: (Seq<char>, V)| #[trigger]
            put(s, id, v).contains(e) ==> e == (id, v) || (e.0 != id && s.contains(e)),
        forall|e: (Seq<char>, V)| #[trigger] s.contains(e) && e.0 != id ==> put(s, id, v).contains(e),
{
    let p = place(s, id) as int;
    let t = put(s, id, v);
    lemma_place_bound(s, id);
    lemma_holds_is_having(s, id);
    assert(t[p] == (id, v));
    assert forall|e: (Seq<char>, V)| #[trigger] t.contains(e) implies e == (id, v) || (e.0 != id
        && s.contains(e)) by {
        let i = choose|i: int| 0 <= i < t.len() && t[i] == e;
        if i != p {
            let j = if holds(s, id) || i < p {
                i
            } else {
                i - 1
            };
            assert(s[j] == e);
            if e.0 == id {
                lemma_place_at(s, j);
            }
        }
    }
    assert forall|e: (Seq<char>, V)| #[trigger] s.contains(e) && e.0 != id implies t.contains(
        e,
    ) by {
        let i = choose|i: int| 0 <= i < s.len() && s[i] == e;
        if holds(s, id) || i < p {
            assert(t[i] == e);
        } else {
            assert(t[i + 1] == e);
        }
    }
}

/// Taking an entry out changes no entry of another id, and leaves none of its own.
proof fn lemma_without_is_without<V>(s: Seq<(Seq<char>, V)>, id: Seq<char>)
    requires
        in_key_order(s),
    ensures
        in_key_order(without(s, id)),
        forall|e: (Seq<char>, V)| #[trigger]
            without(s, id).contains(e) <==> s.contains(e) && e.0 != id,
{
    let p = place(s, id) as int;
    let t = without(s, id);
    lemma_holds_is_having(s, id);
    assert forall|e: (Seq<char>, V)| #[trigger] t.contains(e) <==> s.contains(e) && e.0
        != id by {
        if t.contains(e) {
            let i = choose|i: int| 0 <= i < t.len() && t[i] == e;
            let j = if !holds(s, id) || i < p {
                i
            } else {
                i + 1
            };
            assert(s[j] == e);
            if e.0 == id {
                lemma_place_at(s, j);
            }
        }
        if s.contains(e) && e.0 != id {
            let i = choose|i: int| 0 <= i < s.len() && s[i] == e;
            if !holds(s, id) || i < p {
                assert(t[i] == e);
            } else {
                assert(t[i - 1] == e);
            }
        }
    }
    assert forall|a: int, b: int| 0 <= a < b < t.len() implies lex_before(
        (#[trigger] t[a]).0,
        (#[trigger] t[b]).0,
    ) by {
        let x = if !holds(s, id) || a < p {
            a
        } else {
            a + 1
        };
        let y = if !holds(s, id) || b < p {
            b
        } else {
            b + 1
        };
        assert(t[a] == s[x] && t[b] == s[y]);
    }
}

/// An item that is enqueued into stored tables keeps its request, is pending and untried,
/// and stands in line under the next sequence number; one whose id is there already
/// changes nothing.
pub proof fn law_stored_items_keep_their_request(
    before: TableQueue,
    after: TableQueue,
    items: &[Item],
    inserted: u64,
)
    requires
        exists|m: &mut TableQueue|
            *m == before && *final(m) == after && #[trigger] call_ensures(
                TableQueue::enqueue,
                (m, items),
                inserted,
            ),
        items@.len() == 1,
        in_key_order(before@.items),
        before@.counts.pending < i64::MAX,
    ensures
        ({
            let x = items@[0]@;
            let known = exists|i: int|
                0 <= i < before@.items.len() && (#[trigger] before@.items[i]).0 == x.custom_id;
            &&& known ==> after@ == before@ && inserted == 0
            &&& !known ==> {
                &&& inserted == 1
                &&& after@.pending_seq == before@.pending_seq + 1
                &&& after@.requeue_seq == before@.requeue_seq
                &&& after@.leased == before@.leased
                &&& after@.counts.pending == before@.counts.pending + 1
                &&& after@.counts.leased == before@.counts.leased
                &&& after@.counts.done == before@.counts.done
                &&& after@.counts.dead == before@.counts.dead
                &&& after@.pending.contains((before@.pending_seq, x.custom_id))
                &&& exists|row: ItemView|
                    {
                        &&& #[trigger] after@.items.contains((x.custom_id, Ok(row)))
                        &&& row.custom_id == x.custom_id
                        &&& row.method == x.method
                        &&& row.url == x.url
                        &&& row.body == x.body
                        &&& row.status == ItemState::Pending
                        &&& row.attempts == 0
                        &&& row.leased_until is None
                    }
                &&& forall|e: (Seq<char>, Result<ItemView, Seq<char>>)| #[trigger]
                    before@.items.contains(e) ==> after@.items.contains(e)
            }
        }),
{
    let t = before@;
    let v = item_views(items@);
    let x = items@[0]@;
    assert(v[0] == x);
    assert(v.skip(1) == Seq::<ItemView>::empty());
    reveal_with_fuel(entered, 2);
    lemma_holds_is_having(t.items, x.custom_id);
    if !holds(t.items, x.custom_id) {
        let row = fresh_row(x);
        lemma_put_is_put(t.items, x.custom_id, Ok(row));
        assert(after@.items.contains((x.custom_id, Ok(row))));
        lemma_place_in_line_bound(t.pending, t.pending_seq);
        let p = place_in_line(t.pending, t.pending_seq) as int;
        assert(after@.pending[p] == (t.pending_seq, x.custom_id));
    }
}

/// Items that are enqueued one part after the other are enqueued as they are at once.
pub proof fn law_stored_items_enter_one_by_one(t: TablesView, a: Seq<ItemView>, b: Seq<ItemView>)
    ensures
        entered(t, a + b) == entered(entered(t, a), b),
    decreases a.len(),
{
    if a.len() == 0 {
        assert(a + b == b);
    } else {
        assert((a + b).skip(1) == a.skip(1) + b);
        assert((a + b)[0] == a[0]);
        let id = a[0].custom_id;
        let next = if holds(t.items, id) {
            t
        } else {
            TablesView {
                items: put(t.items, id, Ok(fresh_row(a[0]))),
                pending: put_in_line(t.pending, t.pending_seq, id),
                counts: QueueCounts { pending: raised(t.counts.pending), ..t.counts },
                pending_seq: t.pending_seq + 1,
                ..t
            }
        };
        law_stored_items_enter_one_by_one(next, a.skip(1), b);
    }
}

/// The holder of a stored lease, and nobody else, closes it: the item ends as done, keeps
/// its request and its attempts, is leased no longer, and is counted where it now is.
pub proof fn law_stored_leases_are_closed_by_their_holder(
    before: TableQueue,
    after: TableQueue,
    id: &str,
    attempt: u32,
    i: int,
    r: Result<bool, ForgeError>,
)
    requires
        exists|m: &mut TableQueue|
            *m == before && *final(m) == after && #[trigger] call_ensures(
                TableQueue::ack,
                (m, id, attempt),
                r,
            ),
        in_key_order(before@.items) && in_key_order(before@.leased),
        0 <= i < before@.items.len(),
        before@.items[i].0 == id@,
        before@.items[i].1 is Ok,
        1 <= before@.counts.leased <= i64::MAX && before@.counts.done < i64::MAX,
    ensures
        ({
            let row = before@.items[i].1->Ok_0;
            let held = row.status == ItemState::Leased && row.attempts == attempt;
            &&& r == Ok::<bool, ForgeError>(held)
            &&& !held ==> after@ == before@
            &&& held ==> {
                &&& after@.items.len() == before@.items.len()
                &&& forall|j: int|
                    0 <= j < before@.items.len() && j != i ==> #[trigger] after@.items[j]
                        == before@.items[j]
                &&& after@.items[i].0 == id@
                &&& after@.items[i].1 matches Ok(now)
                &&& now.status == ItemState::Done
                &&& now.custom_id == row.custom_id
                &&& now.method == row.method
                &&& now.url == row.url
                &&& now.body == row.body
                &&& now.attempts == row.attempts
                &&& now.leased_until is None
                &&& after@.pending == before@.pending
                &&& after@.counts.leased == before@.counts.leased - 1
                &&& after@.counts.done == before@.counts.done + 1
                &&& after@.counts.dead == before@.counts.dead
                &&& after@.counts.pending == before@.counts.pending
                &&& forall|e: (Seq<char>, i64)| #[trigger]
                    after@.leased.contains(e) <==> before@.leased.contains(e) && e.0 != id@
            }
        }),
{
    lemma_place_at(before@.items, i);
    lemma_without_is_without(before@.leased, id@);
}

/// A stored lease that is quarantined ends as a dead letter with the error that was told.
pub proof fn law_stored_dead_letters_tell_their_error(
    before: TableQueue,
    after: TableQueue,
    id: &str,
    attempt: u32,
    error: &str,
    i: int,
    r: Result<bool, ForgeError>,
)
    requires
        exists|m: &mut TableQueue|
            *m == before && *final(m) == after && #[trigger] call_ensures(
                TableQueue::dead_letter,
                (m, id, attempt, error),
                r,
            ),
        in_key_order(before@.items) && in_key_order(before@.leased),
        0 <= i < before@.items.len(),
        before@.items[i].0 == id@,
        before@.items[i].1 is Ok,
        1 <= before@.counts.leased <= i64::MAX && before@.counts.dead < i64::MAX,
    ensures
        ({
            let row = before@.items[i].1->Ok_0;
            let held = row.status == ItemState::Leased && row.attempts == attempt;
            &&& r == Ok::<bool, ForgeError>(held)
            &&& !held ==> after@ == before@
            &&& held ==> {
                &&& after@.items.len() == before@.items.len()
                &&& after@.items[i].1 matches Ok(now)
                &&& now.status == ItemState::DeadLetter
                &&& now.last_error == Some(error@)
                &&& now.custom_id == row.custom_id
                &&& now.method == row.method
                &&& now.url == row.url
                &&& now.body == row.body
                &&& now.attempts == row.attempts
                &&& now.leased_until is None
                &&& after@.pending == before@.pending
                &&& after@.counts.leased == before@.counts.leased - 1
                &&& after@.counts.dead == before@.counts.dead + 1
                &&& after@.counts.done == before@.counts.done
                &&& after@.counts.pending == before@.counts.pending
                &&& forall|e: (Seq<char>, i64)| #[trigger]
                    after@.leased.contains(e) <==> before@.leased.contains(e) && e.0 != id@
            }
        }),
{
    lemma_place_at(before@.items, i);
    lemma_without_is_without(before@.leased, id@);
}

/// The leases that are left once some were taken back are those of the other ids.
proof fn lemma_taken_back_leases(t: TablesView, ids: Seq<Seq<char>>)
    requires
        in_key_order(t.leased),
        all_taken_back(t, ids) is Ok,
    ensures
        all_taken_back(t, ids)->Ok_0.requeue_seq == t.requeue_seq + ids.len(),
        all_taken_back(t, ids)->Ok_0.pending_seq == t.pending_seq,
        all_taken_back(t, ids)->Ok_0.counts.done == t.counts.done,
        all_taken_back(t, ids)->Ok_0.counts.dead == t.counts.dead,
        forall|e: (Seq<char>, i64)| #[trigger]
            all_taken_back(t, ids)->Ok_0.leased.contains(e) <==> t.leased.contains(e)
                && !ids.contains(e.0),
    decreases ids.len(),
{
    if ids.len() > 0 {
        let u = taken_back(t, ids[0])->Ok_0;
        lemma_without_is_without(t.leased, ids[0]);
        let rest = ids.skip(1);
        lemma_taken_back_leases(u, rest);
        assert forall|e: (Seq<char>, i64)| #[trigger]
            all_taken_back(t, ids)->Ok_0.leased.contains(e) <==> t.leased.contains(e)
                && !ids.contains(e.0) by {
            assert(u.leased.contains(e) == (t.leased.contains(e) && e.0 != ids[0]));
            assert(ids.contains(e.0) <==> e.0 == ids[0] || rest.contains(e.0)) by {
                if ids.contains(e.0) {
                    let i = choose|i: int| 0 <= i < ids.len() && ids[i] == e.0;
                    if i > 0 {
                        assert(rest[i - 1] == e.0);
                    }
                }
                if rest.contains(e.0) {
                    let i = choose|i: int| 0 <= i < rest.len() && rest[i] == e.0;
                    assert(ids[i + 1] == e.0);
                }
            }
        }
    }
}

/// The ids whose lease has passed are those of the entries that end before now.
proof fn lemma_passed_ids_have_passed(leased: Seq<(Seq<char>, i64)>, now: i64)
    ensures
        forall|e: (Seq<char>, i64)| #[trigger]
            leased.contains(e) && e.1 < now ==> passed_ids(leased, now).contains(e.0),
        forall|i: int|
            0 <= i < passed_ids(leased, now).len() ==> exists|k: int|
                0 <= k < leased.len() && (#[trigger] leased[k]).0 == #[trigger] passed_ids(
                    leased,
                    now,
                )[i] && leased[k].1 < now,
    decreases leased.len(),
{
    if leased.len() > 0 {
        let init = leased.drop_last();
        let before = passed_ids(init, now);
        let ids = passed_ids(leased, now);
        lemma_passed_ids_have_passed(init, now);
        assert forall|e: (Seq<char>, i64)| #[trigger]
            leased.contains(e) && e.1 < now implies ids.contains(e.0) by {
            let k = choose|k: int| 0 <= k < leased.len() && leased[k] == e;
            if k < init.len() {
                assert(init[k] == e);
                assert(init.contains(e));
                let i = choose|i: int| 0 <= i < before.len() && before[i] == e.0;
                assert(ids[i] == e.0);
            } else {
                assert(ids[ids.len() - 1] == e.0);
            }
        }
        assert forall|i: int| 0 <= i < ids.len() implies exists|k: int|
            0 <= k < leased.len() && (#[trigger] leased[k]).0 == #[trigger] ids[i] && leased[k].1
                < now by {
            if i < before.len() {
                assert(ids[i] == before[i]);
                let k = choose|k: int|
                    0 <= k < init.len() && (#[trigger] init[k]).0 == before[i] && init[k].1 < now;
                assert(leased[k] == init[k]);
            } else {
                assert(leased[leased.len() - 1].0 == ids[i]);
            }
        }
    }
}

/// The reaper takes back every stored lease that ends before now, and no other, and
/// closes nothing.
pub proof fn law_stored_leases_are_taken_back_when_passed(
    before: TableQueue,
    after: TableQueue,
    now: i64,
    moved: u64,
)
    requires
        exists|m: &mut TableQueue|
            *m == before && *final(m) == after && #[trigger] call_ensures(
                TableQueue::reap_at,
                (m, now),
                Ok::<u64, ForgeError>(moved),
            ),
        in_key_order(before@.leased),
    ensures
        forall|e: (Seq<char>, i64)| #[trigger]
            after@.leased.contains(e) <==> before@.leased.contains(e) && e.1 >= now,
        after@.requeue_seq == before@.requeue_seq + moved,
        after@.pending_seq == before@.pending_seq,
        after@.counts.done == before@.counts.done,
        after@.counts.dead == before@.counts.dead,
        moved == 0 <==> forall|e: (Seq<char>, i64)| #[trigger]
            before@.leased.contains(e) ==> e.1 >= now,
        moved == 0 ==> after@ == before@,
{
    let t = before@;
    let ids = passed_ids(t.leased, now);
    lemma_passed_ids_have_passed(t.leased, now);
    lemma_taken_back_leases(t, ids);
    assert forall|e: (Seq<char>, i64)| #[trigger] t.leased.contains(e) implies ids.contains(e.0)
        == (e.1 < now) by {
        if ids.contains(e.0) {
            let i = choose|i: int| 0 <= i < ids.len() && ids[i] == e.0;
            let k = choose|k: int|
                0 <= k < t.leased.len() && (#[trigger] t.leased[k]).0 == ids[i] && t.leased[k].1
                    < now;
            let j = choose|j: int| 0 <= j < t.leased.len() && t.leased[j] == e;
            lemma_place_at(t.leased, k);
            lemma_place_at(t.leased, j);
        }
    }
    if moved != 0 {
        assert(ids.contains(ids[0]));
        let k = choose|k: int|
            0 <= k < t.leased.len() && (#[trigger] t.leased[k]).0 == ids[0] && t.leased[k].1 < now;
        assert(t.leased.contains(t.leased[k]));
    }
}

/// The only stored lease that has passed goes back in line under the next number for
/// items tried before; its item is pending again and keeps its request and its attempts.
pub proof fn law_a_passed_lease_goes_back_in_line(
    before: TableQueue,
    after: TableQueue,
    now: i64,
    k: int,
    i: int,
    r: Result<u64, ForgeError>,
)
    requires
        exists|m: &mut TableQueue|
            *m == before && *final(m) == after && #[trigger] call_ensures(
                TableQueue::reap_at,
                (m, now),
                r,
            ),
        in_key_order(before@.items) && in_key_order(before@.leased),
        0 <= k < before@.leased.len(),
        0 <= i < before@.items.len(),
        before@.items[i].0 == before@.leased[k].0,
        before@.items[i].1 is Ok,
        forall|j: int| 0 <= j < before@.leased.len() ==> ((#[trigger] before@.leased[j]).1 < now <==> j == k),
        1 <= before@.counts.leased <= i64::MAX && before@.counts.pending < i64::MAX,
    ensures
        ({
            let id = before@.leased[k].0;
            let row = before@.items[i].1->Ok_0;
            &&& r == Ok::<u64, ForgeError>(1)
            &&& after@.items.len() == before@.items.len()
            &&& after@.items[i].1 matches Ok(back)
            &&& back.status == ItemState::Pending
            &&& back.custom_id == row.custom_id
            &&& back.method == row.method
            &&& back.url == row.url
            &&& back.body == row.body
            &&& back.attempts == row.attempts
            &&& back.leased_until is None
            &&& after@.pending.contains((before@.requeue_seq, id))
            &&& after@.counts.pending == before@.counts.pending + 1
            &&& after@.counts.leased == before@.counts.leased - 1
        }),
{
    let t = before@;
    let id = t.leased[k].0;
    let ids = passed_ids(t.leased, now);
    lemma_one_has_passed(t.leased, now, k);
    assert(ids.skip(1) == Seq::<Seq<char>>::empty());
    reveal_with_fuel(all_taken_back, 2);
    lemma_place_at(t.items, i);
    lemma_place_in_line_bound(t.pending, t.requeue_seq);
    let p = place_in_line(t.pending, t.requeue_seq) as int;
    assert(after@.pending[p] == (t.requeue_seq, id));
}

/// Where one lease alone has passed, its id is the one to take back.
proof fn lemma_one_has_passed(leased: Seq<(Seq<char>, i64)>, now: i64, k: int)
    requires
        forall|j: int| 0 <= j < leased.len() ==> ((#[trigger] leased[j]).1 < now <==> j == k),
    ensures
        passed_ids(leased, now) == if 0 <= k < leased.len() {
            seq![leased[k].0]
        } else {
            Seq::<Seq<char>>::empty()
        },
    decreases leased.len(),
{
    if leased.len() > 0 {
        let init = leased.drop_last();
        assert forall|j: int| 0 <= j < init.len() implies ((#[trigger] init[j]).1 < now <==> j
            == k) by {
            assert(leased[j] == init[j]);
        }
        lemma_one_has_passed(init, now, k);
        let n = leased.len() - 1;
        assert(leased[n] == leased.last());
    }
}

/// As many items are handed out as there are entries, each leased until the same instant
/// by the same coordinator.
proof fn lemma_claims_are_leases(
    t: TablesView,
    claim: Seq<(nat, Seq<char>)>,
    until: i64,
    by: Seq<char>,
    out: Seq<ItemView>,
)
    requires
        claimed_entries(t, claim, until, by, out) is Ok,
    ensures
        ({
            let (u, rows) = claimed_entries(t, claim, until, by, out)->Ok_0;
            &&& rows.len() == out.len() + claim.len()
            &&& rows.take(out.len() as int) == out
            &&& u.pending == t.pending
            &&& u.counts.done == t.counts.done
            &&& u.counts.dead == t.counts.dead
            &&& u.pending_seq == t.pending_seq
            &&& u.requeue_seq == t.requeue_seq
            &&& forall|i: int|
                out.len() <= i < rows.len() ==> (#[trigger] rows[i]).status == ItemState::Leased
                    && rows[i].leased_until == Some(until) && rows[i].leased_by == Some(by)
                    && rows[i].attempts >= 1
        }),
    decreases claim.len(),
{
    if claim.len() == 0 {
        assert(out.take(out.len() as int) == out);
    } else {
        let (u, item) = claimed_entry(t, claim[0].1, until, by)->Ok_0;
        lemma_claims_are_leases(u, claim.skip(1), until, by, out.push(item));
        let rows = claimed_entries(t, claim, until, by, out)->Ok_0.1;
        assert(rows.take(out.len() as int + 1)[out.len() as int] == item);
        assert(rows.take(out.len() as int) =~= rows.take(out.len() as int + 1).take(out.len() as int));
        assert(out.push(item).take(out.len() as int) == out);
    }
}

/// A lease from stored tables in which no lease has passed takes the front of the line:
/// as many items as asked for or as there are, each leased until the end of the span.
/// The first is the stored request at the front of the line, one attempt further on.
pub proof fn law_stored_leases_take_the_front_of_the_line(
    before: TableQueue,
    after: TableQueue,
    limit: usize,
    lease_for: Duration,
    now: i64,
    out: Vec<Item>,
    i: int,
)
    requires
        exists|m: &mut TableQueue|
            *m == before && *final(m) == after && #[trigger] call_ensures(
                TableQueue::lease_at,
                (m, limit, lease_for, now),
                Ok::<Vec<Item>, ForgeError>(out),
            ),
        forall|j: int| 0 <= j < before@.leased.len() ==> (#[trigger] before@.leased[j]).1 >= now,
        in_key_order(before@.items),
    ensures
        out@.len() == if limit <= before@.pending.len() {
            limit as nat
        } else {
            before@.pending.len()
        },
        after@.pending == before@.pending.skip(out@.len() as int),
        after@.counts.done == before@.counts.done && after@.counts.dead == before@.counts.dead,
        forall|j: int|
            0 <= j < out@.len() ==> (#[trigger] out@[j])@.status == ItemState::Leased
                && out@[j]@.attempts >= 1 && out@[j]@.leased_by == Some(before.spec_coordinator()),
        now + lease_for@ / 1_000_000 <= i64::MAX ==> forall|j: int|
            0 <= j < out@.len() ==> (#[trigger] out@[j])@.leased_until == Some(
                (now + lease_for@ / 1_000_000) as i64,
            ),
        out@.len() > 0 && 0 <= i < before@.items.len() && before@.items[i].0
            == before@.pending[0].1 && before@.items[i].1 is Ok ==> {
            let row = before@.items[i].1->Ok_0;
            &&& out@[0]@.custom_id == row.custom_id
            &&& out@[0]@.method == row.method
            &&& out@[0]@.url == row.url
            &&& out@[0]@.body == row.body
            &&& row.attempts < u32::MAX ==> out@[0]@.attempts == row.attempts + 1
        },
{
    let t = before@;
    lemma_one_has_passed(t.leased, now, -1);
    assert(reaped(t, now) == Ok::<TablesView, Fault>(t));
    let k = if limit <= t.pending.len() {
        limit as int
    } else {
        t.pending.len() as int
    };
    let until = lease_end(now, lease_for@ / 1_000_000);
    let by = before.spec_coordinator();
    let rest = TablesView { pending: t.pending.skip(k), ..t };
    let claim = t.pending.take(k);
    lemma_claims_are_leases(rest, claim, until, by, Seq::empty());
    let rows = item_views(out@);
    assert forall|j: int| 0 <= j < out@.len() implies (#[trigger] out@[j])@.status
        == ItemState::Leased && out@[j]@.attempts >= 1 && out@[j]@.leased_by == Some(by)
        && out@[j]@.leased_until == Some(until) by {
        assert(rows[j] == out@[j]@);
    }
    if out@.len() > 0 && 0 <= i < t.items.len() && t.items[i].0 == t.pending[0].1
        && t.items[i].1 is Ok {
        lemma_place_at(t.items, i);
        let (u, item) = claimed_entry(rest, claim[0].1, until, by)->Ok_0;
        lemma_claims_are_leases(u, claim.skip(1), until, by, Seq::empty().push(item));
        assert(rows.take(1)[0] == item);
        assert(rows[0] == out@[0]@);
    }
}


} // verus!

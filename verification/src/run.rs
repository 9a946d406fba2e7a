//! The fan-out loop: lease independent items, hand each to a ready interchangeable
//! worker, write the result to the store and then ack the queue, and let the reaper
//! take back what a dead worker left leased.
//!
//! The loop itself is a state machine. It says what to do next, and is told what came
//! of it; the queue, the workers and the store are driven elsewhere.

use vstd::prelude::*;

use crate::dispatch::{
    dispatch_assignment, is_assignment, law_assignment_exists, law_assignment_is_total,
    law_assignment_is_unique, law_never_oversubscribed, share, total,
};
use crate::duration::{max_nat, min_nat, printed_span, Duration};
use crate::error::{error_text, ForgeError};
use crate::queue::QueueCounts;
use crate::retry::RetryPolicy;
use crate::text::concat3;
use crate::types::{totals_fit, totals_with, zero_totals, JobTotals, TokenUsage};

verus! {

/// How much headroom the lease has over the longest observed item.
pub const LEASE_LATENCY_FACTOR: u64 = 2;

/// `factor` times the observed milliseconds, or the greatest number of them.
pub open spec fn grown_millis(peak_ms: nat) -> nat {
    min_nat(peak_ms * 2, u64::MAX as nat)
}

/// The lease for the next round, in nanoseconds: twice the longest observed item, and
/// between `base` and `max`; a `max` below `base` counts as `base`.
pub open spec fn lease_nanos(base: nat, max: nat, peak_ms: nat) -> nat {
    min_nat(max_nat(grown_millis(peak_ms) * 1_000_000, base), max_nat(max, base))
}

/// The lease for the next round. It grows from `base` towards `max` once the observed
/// latency suggests that a fixed one would pass while a slow generation is still in
/// flight. `peak_ms` is the longest that an item has taken so far.
pub fn adaptive_lease(base: Duration, max: Duration, peak_ms: u64) -> (d: Duration)
    ensures
        d@ == lease_nanos(base@, max@, peak_ms as nat),
{
    let ceiling: Duration = max.max(base);
    let doubled: u64 = match peak_ms.checked_mul(LEASE_LATENCY_FACTOR) {
        Some(ms) => ms,
        None => 0xffff_ffff_ffff_ffff,
    };
    Duration::from_millis(doubled).max(base).min(ceiling)
}

/// The lease is never shorter than its floor, and never longer than its cap.
pub proof fn law_lease_is_bounded(base: nat, max: nat, peak_ms: nat)
    ensures
        base <= lease_nanos(base, max, peak_ms),
        lease_nanos(base, max, peak_ms) <= max_nat(max, base),
{
}

/// A longer observed latency never shortens the lease.
pub proof fn law_lease_grows_with_latency(base: nat, max: nat, a: nat, b: nat)
    requires
        a <= b,
    ensures
        lease_nanos(base, max, a) <= lease_nanos(base, max, b),
{
}

/// Tunables for a run.
#[derive(Debug, Clone, Copy, PartialEq, Eq)]
pub struct RunConfig {
    /// The lease before any latency is observed.
    pub lease_for: Duration,
    /// Cap on the adaptive lease.
    pub lease_max: Duration,
    /// How many items to lease per round trip to the queue.
    pub lease_batch: usize,
    /// How long to wait before looking again when nothing can be leased yet.
    pub poll_interval: Duration,
    /// How long to wait for a worker to become ready before giving up.
    pub ready_grace: Duration,
    /// Advisory retry envelope; each worker owns its own retry loop.
    pub retry: RetryPolicy,
    /// Bias dispatch towards the least-loaded ready worker.
    pub load_aware: bool,
}

impl Default for RunConfig {
    fn default() -> (c: Self)
        ensures
            c.lease_for@ == 300_000_000_000,
            c.lease_max@ == 1_800_000_000_000,
            c.lease_batch == 256,
            c.poll_interval@ == 250_000_000,
            c.ready_grace@ == 60_000_000_000,
            c.retry.max_attempts == 5,
            c.retry.base@ == 500_000_000,
            c.retry.cap@ == 30_000_000_000,
            c.load_aware,
    {
        RunConfig {
            lease_for: Duration::from_secs(300),
            lease_max: Duration::from_secs(1800),
            lease_batch: 256,
            poll_interval: Duration::from_millis(250),
            ready_grace: Duration::from_secs(60),
            retry: RetryPolicy::default(),
            load_aware: true,
        }
    }
}

/// What a single item's dispatch resolved to.
#[derive(Debug, Clone, Copy, PartialEq, Eq, Structural)]
pub enum Dispatched {
    Done(TokenUsage),
    Dead,
}

/// What the loop is waiting for.
#[derive(Debug, Clone, Copy, PartialEq, Eq, Structural)]
pub enum Phase {
    /// It has not begun.
    Ready,
    /// A reap.
    Reaping,
    /// A look at the fleet.
    Inspecting,
    /// A probe of the fleet, which had no ready worker.
    Probing,
    /// A completion, while no worker is ready.
    Landing,
    /// The counts, while no worker is ready and nothing is in flight.
    IdleCounts,
    /// A lease of up to so many items.
    Leasing(usize),
    /// The counts, after a lease that gave nothing with nothing in flight.
    DryCounts,
    /// The start of the items just leased.
    Dispatching,
    /// A completion.
    Awaiting,
    /// A pause.
    Sleeping,
    /// The counts for the final tally.
    Closing,
    /// The loop is over.
    Over,
}

/// What came of the last action.
pub enum Event {
    /// The loop begins.
    Begin,
    /// Passed leases were taken back.
    Reaped,
    /// The fleet: which workers are ready, and the load of each if known.
    Fleet { ready: Vec<bool>, loads: Vec<Option<u32>> },
    /// An item that worker `worker` had in flight has landed.
    Completed { worker: usize, outcome: Dispatched },
    /// The queue's counts.
    Counts(QueueCounts),
    /// So many items were leased.
    Leased(usize),
    /// The leased items are in flight.
    Started,
    /// The pause is over.
    Rested,
}

/// What to do next.
pub enum Action {
    /// Take back passed leases.
    Reap,
    /// Look at the fleet.
    Inspect,
    /// Probe every worker, then look at the fleet.
    Probe,
    /// Wait for one completion.
    AwaitOne,
    /// Read the queue's counts.
    ReadCounts,
    /// Lease up to `limit` items for `lease_for`.
    Lease { limit: usize, lease_for: Duration },
    /// Start the leased items: the one at place `i` on the worker `workers[i]`.
    Dispatch { workers: Vec<usize> },
    /// Pause for the poll interval.
    Pause,
    /// The run is over, with these totals.
    Finish(JobTotals),
    /// The run is given up.
    Fail(ForgeError),
}

/// The mathematical value of the loop's state.
#[verifier::ext_equal]
pub struct RunView {
    pub cfg: RunConfig,
    pub caps: Seq<usize>,
    pub in_flight: Seq<usize>,
    pub rotation: usize,
    pub idle_since: Option<nat>,
    pub last_reap: Option<nat>,
    pub totals: JobTotals,
    pub peak_ms: u64,
    pub phase: Phase,
    pub ready: Seq<usize>,
    pub free: Seq<usize>,
    pub loads: Seq<Option<u32>>,
}

/// The mathematical value of an action.
#[verifier::ext_equal]
pub enum ActionView {
    Reap,
    Inspect,
    Probe,
    AwaitOne,
    ReadCounts,
    Lease(nat, nat),
    Dispatch(Seq<usize>),
    Pause,
    Finish(JobTotals),
    Fail(Seq<char>),
}

impl View for Action {
    type V = ActionView;

    open spec fn view(&self) -> ActionView {
        match self {
            Action::Reap => ActionView::Reap,
            Action::Inspect => ActionView::Inspect,
            Action::Probe => ActionView::Probe,
            Action::AwaitOne => ActionView::AwaitOne,
            Action::ReadCounts => ActionView::ReadCounts,
            Action::Lease { limit, lease_for } => ActionView::Lease(*limit as nat, lease_for@),
            Action::Dispatch { workers } => ActionView::Dispatch(workers@),
            Action::Pause => ActionView::Pause,
            Action::Finish(t) => ActionView::Finish(*t),
            Action::Fail(e) => ActionView::Fail(error_text(*e)),
        }
    }
}

/// The view of an optional instant.
pub open spec fn instant_view(t: Option<Duration>) -> Option<nat> {
    match t {
        Some(d) => Some(d@),
        None => None,
    }
}

/// The time that has passed since an instant.
pub open spec fn elapsed(since: nat, now: nat) -> nat {
    if now <= since {
        0
    } else {
        (now - since) as nat
    }
}

/// Every worker has no more in flight than it can take, and the window lists workers
/// of the fleet with their free slots.
pub open spec fn run_wf(s: RunView) -> bool {
    &&& s.in_flight.len() == s.caps.len()
    &&& s.caps.len() <= usize::MAX
    &&& forall|w: int| 0 <= w < s.caps.len() ==> (#[trigger] s.in_flight[w]) <= s.caps[w]
    &&& forall|w: int| 0 <= w < s.caps.len() ==> 1 <= #[trigger] s.caps[w]
    &&& s.phase matches Phase::Leasing(limit) ==> {
        &&& s.ready.len() >= 1
        &&& s.free.len() == s.ready.len()
        &&& s.loads.len() == s.ready.len()
        &&& is_window(s.ready, s.free, s.caps, s.in_flight)
        &&& limit <= total(s.free)
    }
    &&& (s.phase == Phase::Landing || s.phase == Phase::Awaiting) ==> total(s.in_flight) > 0
    &&& s.phase == Phase::IdleCounts || s.phase == Phase::DryCounts || s.phase == Phase::Closing
        || s.phase == Phase::Over ==> total(s.in_flight) == 0
}

/// `ready` lists workers in ascending order, with their free slots.
pub open spec fn is_window(
    ready: Seq<usize>,
    free: Seq<usize>,
    caps: Seq<usize>,
    in_flight: Seq<usize>,
) -> bool {
    &&& forall|k: int|
        0 <= k < ready.len() ==> (#[trigger] ready[k]) < caps.len() && free[k]
            == caps[ready[k] as int] - in_flight[ready[k] as int]
    &&& forall|j: int, k: int|
        0 <= j < k < ready.len() ==> (#[trigger] ready[j]) < (#[trigger] ready[k])
}

/// The positions of the ready workers.
pub open spec fn ready_list(ready: Seq<bool>) -> Seq<usize>
    decreases ready.len(),
{
    if ready.len() == 0 {
        seq![]
    } else if ready.last() {
        ready_list(ready.drop_last()).push((ready.len() - 1) as usize)
    } else {
        ready_list(ready.drop_last())
    }
}

/// The free slots of the workers at the positions `ready`.
pub open spec fn free_slots(
    ready: Seq<usize>,
    caps: Seq<usize>,
    in_flight: Seq<usize>,
) -> Seq<usize> {
    ready.map_values(|w: usize| (caps[w as int] - in_flight[w as int]) as usize)
}

/// The loads of the workers at the positions `ready`.
pub open spec fn picked_loads(ready: Seq<usize>, loads: Seq<Option<u32>>) -> Seq<Option<u32>> {
    ready.map_values(|w: usize| loads[w as int])
}

/// A look at the fleet is due once passed leases have been taken back within the poll
/// interval; with an empty window they are taken back each time.
pub open spec fn reap_due(s: RunView, now: nat) -> bool {
    ||| s.last_reap is None
    ||| (s.last_reap matches Some(t) && elapsed(t, now) >= s.cfg.poll_interval@)
    ||| total(s.in_flight) == 0
}

/// The top of the loop.
pub open spec fn at_top(s: RunView, now: nat) -> (RunView, ActionView) {
    if reap_due(s, now) {
        (RunView { phase: Phase::Reaping, ..s }, ActionView::Reap)
    } else {
        (RunView { phase: Phase::Inspecting, ..s }, ActionView::Inspect)
    }
}

/// Waits for one completion, or goes round again with nothing in flight.
pub open spec fn await_one(s: RunView, now: nat) -> (RunView, ActionView) {
    if total(s.in_flight) > 0 {
        (RunView { phase: Phase::Awaiting, ..s }, ActionView::AwaitOne)
    } else {
        at_top(s, now)
    }
}

/// How many items to lease: as many as there are free slots, within the batch.
pub open spec fn deficit(free: Seq<usize>, batch: usize) -> nat {
    min_nat(total(free), batch as nat)
}

/// Tops the window up from a fleet with a ready worker.
pub open spec fn top_up(
    s: RunView,
    ready: Seq<bool>,
    loads: Seq<Option<u32>>,
    now: nat,
) -> (RunView, ActionView) {
    let list = ready_list(ready);
    let free = free_slots(list, s.caps, s.in_flight);
    let t = RunView {
        idle_since: None,
        ready: list,
        free,
        loads: picked_loads(list, loads),
        ..s
    };
    let n = deficit(free, s.cfg.lease_batch);
    if n > 0 {
        (
            RunView { phase: Phase::Leasing(n as usize), ..t },
            ActionView::Lease(
                n,
                lease_nanos(s.cfg.lease_for@, s.cfg.lease_max@, s.peak_ms as nat),
            ),
        )
    } else {
        await_one(t, now)
    }
}

/// Some worker is ready.
pub open spec fn any_true(ready: Seq<bool>) -> bool {
    exists|w: int| 0 <= w < ready.len() && #[trigger] ready[w]
}

/// The in-flight counts once the picks `workers` have been started.
pub open spec fn with_started(in_flight: Seq<usize>, workers: Seq<usize>) -> Seq<usize> {
    Seq::new(
        in_flight.len(),
        |w: int| (in_flight[w] + share(workers, w as usize)) as usize,
    )
}

/// The picks of a batch of `n` items over the window.
pub open spec fn picks(s: RunView, n: nat) -> Seq<usize> {
    let assign = choose|a: Seq<usize>|
        is_assignment(a, s.loads, s.free, s.rotation as int, n, s.cfg.load_aware);
    assign.map_values(|k: usize| s.ready[k as int])
}

/// The rotation once `n` more items have been dispatched.
pub open spec fn rotated_by(rotation: usize, n: nat) -> usize {
    ((rotation + n) % (usize::MAX + 1)) as usize
}

/// The totals once an item has landed.
pub open spec fn landed(t: JobTotals, outcome: Dispatched) -> JobTotals {
    match outcome {
        Dispatched::Done(usage) => totals_with(t, usage),
        Dispatched::Dead => JobTotals { items_dead: (t.items_dead + 1) as u64, ..t },
    }
}

/// An item's outcome fits in the totals' counters.
pub open spec fn landing_fits(t: JobTotals, outcome: Dispatched) -> bool {
    match outcome {
        Dispatched::Done(usage) => totals_fit(t, usage),
        Dispatched::Dead => t.items_dead < u64::MAX,
    }
}

/// The final totals: the items are counted by the queue, which also knows those of
/// earlier runs, and the tokens are those of this run.
pub open spec fn final_totals(t: JobTotals, c: QueueCounts) -> JobTotals {
    JobTotals { items_total: c.sum() as u64, items_done: c.done, items_dead: c.dead, ..t }
}

/// The message with which a run is given up.
pub open spec fn unready_text(grace: nat) -> Seq<char> {
    "worker: "@ + ("no worker became ready within "@ + printed_span(grace)
        + "; check --workers / engine health"@)
}

/// The event answers what the loop is waiting for.
pub open spec fn answers(s: RunView, event: Event) -> bool {
    match event {
        Event::Begin => s.phase == Phase::Ready,
        Event::Reaped => s.phase == Phase::Reaping,
        Event::Fleet { ready, loads } => (s.phase == Phase::Inspecting || s.phase == Phase::Probing)
            && ready@.len() == s.caps.len() && loads@.len() == s.caps.len(),
        Event::Completed { worker, outcome } => (s.phase == Phase::Landing || s.phase
            == Phase::Awaiting) && worker < s.caps.len() && s.in_flight[worker as int] > 0
            && landing_fits(s.totals, outcome),
        Event::Counts(c) => s.phase == Phase::IdleCounts || s.phase == Phase::DryCounts || (s.phase
            == Phase::Closing && c.sum() <= u64::MAX),
        Event::Leased(n) => s.phase matches Phase::Leasing(limit) && n <= limit,
        Event::Started => s.phase == Phase::Dispatching,
        Event::Rested => s.phase == Phase::Sleeping,
    }
}

/// One step of the loop: the new state, and what to do next.
pub open spec fn step(s: RunView, event: Event, now: nat) -> (RunView, ActionView) {
    match event {
        Event::Begin => at_top(s, now),
        Event::Reaped => (
            RunView { last_reap: Some(now), phase: Phase::Inspecting, ..s },
            ActionView::Inspect,
        ),
        Event::Fleet { ready, loads } => if any_true(ready@) {
            top_up(s, ready@, loads@, now)
        } else if s.phase == Phase::Inspecting {
            (RunView { phase: Phase::Probing, ..s }, ActionView::Probe)
        } else if total(s.in_flight) > 0 {
            (RunView { phase: Phase::Landing, ..s }, ActionView::AwaitOne)
        } else {
            (RunView { phase: Phase::IdleCounts, ..s }, ActionView::ReadCounts)
        },
        Event::Completed { worker, outcome } => at_top(
            RunView {
                in_flight: s.in_flight.update(
                    worker as int,
                    (s.in_flight[worker as int] - 1) as usize,
                ),
                totals: landed(s.totals, outcome),
                ..s
            },
            now,
        ),
        Event::Counts(c) => if s.phase == Phase::Closing {
            (
                RunView { phase: Phase::Over, ..s },
                ActionView::Finish(final_totals(s.totals, c)),
            )
        } else if c.pending == 0 && c.leased == 0 {
            (RunView { phase: Phase::Closing, ..s }, ActionView::ReadCounts)
        } else if s.phase == Phase::IdleCounts {
            let since = match s.idle_since {
                Some(t) => t,
                None => now,
            };
            let t = RunView { idle_since: Some(since), ..s };
            if elapsed(since, now) >= s.cfg.ready_grace@ {
                (
                    RunView { phase: Phase::Over, ..t },
                    ActionView::Fail(unready_text(s.cfg.ready_grace@)),
                )
            } else {
                (RunView { phase: Phase::Sleeping, ..t }, ActionView::Pause)
            }
        } else {
            (RunView { phase: Phase::Sleeping, ..s }, ActionView::Pause)
        },
        Event::Leased(n) => if n == 0 && total(s.in_flight) == 0 {
            (RunView { phase: Phase::DryCounts, ..s }, ActionView::ReadCounts)
        } else {
            let workers = picks(s, n as nat);
            (
                RunView {
                    in_flight: with_started(s.in_flight, workers),
                    rotation: rotated_by(s.rotation, n as nat),
                    phase: Phase::Dispatching,
                    ..s
                },
                ActionView::Dispatch(workers),
            )
        },
        Event::Started => await_one(s, now),
        Event::Rested => at_top(s, now),
    }
}

/// The state of the loop over a fleet.
pub struct RunLoop {
    cfg: RunConfig,
    caps: Vec<usize>,
    in_flight: Vec<usize>,
    rotation: usize,
    idle_since: Option<Duration>,
    last_reap: Option<Duration>,
    totals: JobTotals,
    peak_ms: u64,
    phase: Phase,
    ready: Vec<usize>,
    free: Vec<usize>,
    loads: Vec<Option<u32>>,
}

impl View for RunLoop {
    type V = RunView;

    closed spec fn view(&self) -> RunView {
        RunView {
            cfg: self.cfg,
            caps: self.caps@,
            in_flight: self.in_flight@,
            rotation: self.rotation,
            idle_since: instant_view(self.idle_since),
            last_reap: instant_view(self.last_reap),
            totals: self.totals,
            peak_ms: self.peak_ms,
            phase: self.phase,
            ready: self.ready@,
            free: self.free@,
            loads: self.loads@,
        }
    }
}

proof fn lemma_total_zero_iff(s: Seq<usize>)
    ensures
        total(s) == 0 <==> forall|i: int| 0 <= i < s.len() ==> (#[trigger] s[i]) == 0,
    decreases s.len(),
{
    if s.len() > 0 {
        lemma_total_zero_iff(s.drop_last());
        if total(s) == 0 {
            assert forall|i: int| 0 <= i < s.len() implies (#[trigger] s[i]) == 0 by {
                if i < s.len() - 1 {
                    assert(s.drop_last()[i] == s[i]);
                }
            }
        } else if forall|i: int| 0 <= i < s.len() ==> (#[trigger] s[i]) == 0 {
            assert forall|i: int| 0 <= i < s.drop_last().len() implies (
            #[trigger] s.drop_last()[i]) == 0 by {
                assert(s[i] == 0);
            }
            assert(s[s.len() - 1] == 0);
        }
    }
}

fn none_in_flight(in_flight: &Vec<usize>) -> (r: bool)
    ensures
        r == (total(in_flight@) == 0),
{
    proof {
        lemma_total_zero_iff(in_flight@);
    }
    let mut i: usize = 0;
    while i < in_flight.len()
        invariant
            i <= in_flight@.len(),
            forall|j: int| 0 <= j < i ==> (#[trigger] in_flight@[j]) == 0,
        decreases in_flight@.len() - i,
    {
        if in_flight[i] > 0 {
            proof {
                lemma_total_zero_iff(in_flight@);
            }
            return false;
        }
        i = i + 1;
    }
    true
}

fn some_ready(ready: &Vec<bool>) -> (r: bool)
    ensures
        r == any_true(ready@),
{
    let mut i: usize = 0;
    while i < ready.len()
        invariant
            i <= ready@.len(),
            forall|j: int| 0 <= j < i ==> !(#[trigger] ready@[j]),
        decreases ready@.len() - i,
    {
        if ready[i] {
            return true;
        }
        i = i + 1;
    }
    false
}

/// The sum of the free slots, or `batch` where that is less.
fn slots_within(free: &Vec<usize>, batch: usize) -> (r: usize)
    ensures
        r == deficit(free@, batch),
{
    let mut sum: usize = 0;
    let mut i: usize = 0;
    assert(free@.take(0) == Seq::<usize>::empty());
    while i < free.len()
        invariant
            i <= free@.len(),
            sum == min_nat(total(free@.take(i as int)), batch as nat),
        decreases free@.len() - i,
    {
        assert(free@.take(i + 1).drop_last() == free@.take(i as int));
        let room: usize = batch - sum;
        if free[i] < room {
            sum = sum + free[i];
        } else {
            sum = batch;
        }
        i = i + 1;
    }
    assert(free@.take(free@.len() as int) == free@);
    sum
}

proof fn lemma_ready_list(ready: Seq<bool>)
    requires
        ready.len() <= usize::MAX,
    ensures
        forall|k: int|
            0 <= k < ready_list(ready).len() ==> (#[trigger] ready_list(ready)[k]) < ready.len(),
        forall|j: int, k: int|
            0 <= j < k < ready_list(ready).len() ==> (#[trigger] ready_list(ready)[j]) < (
            #[trigger] ready_list(ready)[k]),
        forall|k: int|
            0 <= k < ready_list(ready).len() ==> ready[#[trigger] ready_list(ready)[k] as int],
        any_true(ready) <==> ready_list(ready).len() > 0,
    decreases ready.len(),
{
    if ready.len() > 0 {
        let init = ready.drop_last();
        lemma_ready_list(init);
        let list = ready_list(ready);
        let prev = ready_list(init);
        if ready.last() {
            assert(ready[ready.len() - 1]);
            assert forall|k: int| 0 <= k < list.len() implies (#[trigger] list[k])
                < ready.len() && ready[list[k] as int] by {
                if k < prev.len() {
                    assert(list[k] == prev[k]);
                    assert(init[prev[k] as int]);
                }
            }
            assert forall|j: int, k: int| 0 <= j < k < list.len() implies (#[trigger] list[j]) < (
            #[trigger] list[k]) by {
                assert(list[j] == prev[j]);
                if k < prev.len() {
                    assert(list[k] == prev[k]);
                }
            }
        } else {
            assert forall|k: int| 0 <= k < list.len() implies ready[#[trigger] list[k] as int] by {
                assert(init[prev[k] as int]);
            }
            if any_true(ready) {
                let w = choose|w: int| 0 <= w < ready.len() && #[trigger] ready[w];
                assert(init[w]);
            }
            if any_true(init) {
                let w = choose|w: int| 0 <= w < init.len() && #[trigger] init[w];
                assert(ready[w]);
            }
        }
    }
}

fn list_ready(ready: &Vec<bool>) -> (list: Vec<usize>)
    ensures
        list@ == ready_list(ready@),
        forall|k: int| 0 <= k < list@.len() ==> (#[trigger] list@[k]) < ready@.len(),
{
    let mut list: Vec<usize> = Vec::new();
    let mut i: usize = 0;
    assert(ready@.take(0) == Seq::<bool>::empty());
    while i < ready.len()
        invariant
            i <= ready@.len(),
            list@ == ready_list(ready@.take(i as int)),
        decreases ready@.len() - i,
    {
        assert(ready@.take(i + 1).drop_last() == ready@.take(i as int));
        if ready[i] {
            list.push(i);
        }
        i = i + 1;
    }
    assert(ready@.take(ready@.len() as int) == ready@);
    proof {
        lemma_ready_list(ready@);
    }
    list
}

impl RunLoop {
    /// A loop over workers with the capacities `caps`, of which each counts as at
    /// least one. It waits to begin.
    pub fn new(cfg: RunConfig, caps: &[usize]) -> (s: Self)
        ensures
            run_wf(s@),
            s@.cfg == cfg,
            s@.caps.len() == caps@.len(),
            forall|w: int|
                0 <= w < caps@.len() ==> (#[trigger] s@.caps[w]) == if caps@[w] < 1 {
                    1
                } else {
                    caps@[w]
                },
            forall|w: int| 0 <= w < caps@.len() ==> (#[trigger] s@.in_flight[w]) == 0,
            s@.rotation == 0,
            s@.idle_since is None,
            s@.last_reap is None,
            s@.totals == zero_totals(),
            s@.peak_ms == 0,
            s@.phase == Phase::Ready,
    {
        let mut widths: Vec<usize> = Vec::new();
        let mut in_flight: Vec<usize> = Vec::new();
        let mut i: usize = 0;
        while i < caps.len()
            invariant
                i <= caps@.len(),
                widths@.len() == i,
                in_flight@.len() == i,
                forall|w: int|
                    0 <= w < i ==> (#[trigger] widths@[w]) == if caps@[w] < 1 {
                        1
                    } else {
                        caps@[w]
                    },
                forall|w: int| 0 <= w < i ==> (#[trigger] in_flight@[w]) == 0,
            decreases caps@.len() - i,
        {
            widths.push(
                if caps[i] < 1 {
                    1
                } else {
                    caps[i]
                },
            );
            in_flight.push(0);
            i = i + 1;
        }
        let n: usize = widths.len();
        proof {
            lemma_total_zero_iff(in_flight@);
        }
        RunLoop {
            cfg,
            caps: widths,
            in_flight,
            rotation: 0,
            idle_since: None,
            last_reap: None,
            totals: JobTotals::default(),
            peak_ms: 0,
            phase: Phase::Ready,
            ready: Vec::new(),
            free: Vec::new(),
            loads: Vec::new(),
        }
    }

    /// What the loop is waiting for.
    pub fn phase(&self) -> (p: Phase)
        ensures
            p == self@.phase,
    {
        self.phase
    }

    /// The totals so far.
    pub fn totals(&self) -> (t: JobTotals)
        ensures
            t == self@.totals,
    {
        self.totals
    }

    /// How many items worker `w` has in flight.
    pub fn in_flight(&self, w: usize) -> (n: usize)
        requires
            w < self@.in_flight.len(),
        ensures
            n == self@.in_flight[w as int],
    {
        self.in_flight[w]
    }

    /// Takes in how long an item's submission took, retries and backoff included,
    /// whether it succeeded or not.
    pub fn observe(&mut self, millis: u64)
        requires
            run_wf(old(self)@),
        ensures
            run_wf(final(self)@),
            final(self)@ == (RunView {
                peak_ms: if millis > old(self)@.peak_ms {
                    millis
                } else {
                    old(self)@.peak_ms
                },
                ..old(self)@
            }),
    {
        if millis > self.peak_ms {
            self.peak_ms = millis;
        }
    }

    fn go_top(&mut self, now: Duration) -> (a: Action)
        requires
            run_wf(old(self)@),
        ensures
            run_wf(final(self)@),
            (final(self)@, a@) == at_top(old(self)@, now@),
    {
        let due: bool = match self.last_reap {
            Some(t) => !now.saturating_sub(t).shorter_than(&self.cfg.poll_interval),
            None => true,
        };
        if due || none_in_flight(&self.in_flight) {
            self.phase = Phase::Reaping;
            Action::Reap
        } else {
            self.phase = Phase::Inspecting;
            Action::Inspect
        }
    }

    fn go_await(&mut self, now: Duration) -> (a: Action)
        requires
            run_wf(old(self)@),
        ensures
            run_wf(final(self)@),
            (final(self)@, a@) == await_one(old(self)@, now@),
    {
        if none_in_flight(&self.in_flight) {
            self.go_top(now)
        } else {
            self.phase = Phase::Awaiting;
            Action::AwaitOne
        }
    }

    fn go_top_up(
        &mut self,
        ready: &Vec<bool>,
        loads: &Vec<Option<u32>>,
        now: Duration,
    ) -> (a: Action)
        requires
            run_wf(old(self)@),
            any_true(ready@),
            ready@.len() == old(self)@.caps.len(),
            loads@.len() == old(self)@.caps.len(),
            old(self)@.phase == Phase::Inspecting || old(self)@.phase == Phase::Probing,
        ensures
            run_wf(final(self)@),
            (final(self)@, a@) == top_up(old(self)@, ready@, loads@, now@),
    {
        let ghost s = self@;
        let n: usize = ready.len();
        proof {
            lemma_ready_list(ready@);
        }
        let list: Vec<usize> = list_ready(ready);
        let mut free: Vec<usize> = Vec::new();
        let mut picked: Vec<Option<u32>> = Vec::new();
        let mut k: usize = 0;
        while k < list.len()
            invariant
                k <= list@.len(),
                self@ == s,
                run_wf(s),
                loads@.len() == s.caps.len(),
                forall|j: int| 0 <= j < list@.len() ==> (#[trigger] list@[j]) < s.caps.len(),
                free@ == free_slots(list@, s.caps, s.in_flight).take(k as int),
                picked@ == picked_loads(list@, loads@).take(k as int),
            decreases list@.len() - k,
        {
            let w: usize = list[k];
            assert(s.in_flight[w as int] <= s.caps[w as int]);
            free.push(self.caps[w] - self.in_flight[w]);
            picked.push(loads[w]);
            k = k + 1;
            assert(free@ == free_slots(list@, s.caps, s.in_flight).take(k as int));
            assert(picked@ == picked_loads(list@, loads@).take(k as int));
        }
        assert(free@ == free_slots(list@, s.caps, s.in_flight));
        assert(picked@ == picked_loads(list@, loads@));
        let want: usize = slots_within(&free, self.cfg.lease_batch);
        self.idle_since = None;
        self.ready = list;
        self.free = free;
        self.loads = picked;
        if want > 0 {
            self.phase = Phase::Leasing(want);
            proof {
                assert forall|j: int| 0 <= j < self.ready@.len() implies self.free@[j]
                    == s.caps[(#[trigger] self.ready@[j]) as int]
                    - s.in_flight[self.ready@[j] as int] by {
                    let w = self.ready@[j];
                    assert(s.in_flight[w as int] <= s.caps[w as int]);
                }
            }
            Action::Lease {
                limit: want,
                lease_for: adaptive_lease(self.cfg.lease_for, self.cfg.lease_max, self.peak_ms),
            }
        } else {
            self.go_await(now)
        }
    }
}

/// Where a pick over the window goes is where it goes over the fleet.
proof fn lemma_share_mapped(assign: Seq<usize>, ready: Seq<usize>, k: int)
    requires
        0 <= k < ready.len() <= usize::MAX,
        forall|i: int| 0 <= i < assign.len() ==> (#[trigger] assign[i]) < ready.len(),
        forall|i: int, j: int|
            0 <= i < j < ready.len() ==> (#[trigger] ready[i]) < (#[trigger] ready[j]),
    ensures
        share(assign.map_values(|x: usize| ready[x as int]), ready[k]) == share(assign, k as usize),
    decreases assign.len(),
{
    if assign.len() > 0 {
        let init = assign.drop_last();
        assert forall|i: int| 0 <= i < init.len() implies (#[trigger] init[i]) < ready.len() by {
            assert(assign[i] < ready.len());
        }
        lemma_share_mapped(init, ready, k);
        let mapped = assign.map_values(|x: usize| ready[x as int]);
        assert(mapped.drop_last() == init.map_values(|x: usize| ready[x as int]));
        let last = assign[assign.len() - 1] as int;
        assert(last < ready.len());
        assert(mapped.last() == ready[last]);
        if last < k {
            assert(ready[last] < ready[k]);
        } else if k < last {
            assert(ready[k] < ready[last]);
        }
    }
}

proof fn lemma_share_elsewhere(assign: Seq<usize>, ready: Seq<usize>, w: usize)
    requires
        forall|i: int| 0 <= i < assign.len() ==> (#[trigger] assign[i]) < ready.len(),
        !ready.contains(w),
    ensures
        share(assign.map_values(|x: usize| ready[x as int]), w) == 0,
    decreases assign.len(),
{
    if assign.len() > 0 {
        let init = assign.drop_last();
        assert forall|i: int| 0 <= i < init.len() implies (#[trigger] init[i]) < ready.len() by {
            assert(assign[i] < ready.len());
        }
        lemma_share_elsewhere(init, ready, w);
        let mapped = assign.map_values(|x: usize| ready[x as int]);
        assert(mapped.drop_last() == init.map_values(|x: usize| ready[x as int]));
        let last = assign[assign.len() - 1] as int;
        assert(last < ready.len());
        assert(ready.contains(ready[last]));
    }
}

proof fn lemma_share_prefix(s: Seq<usize>, i: int, w: usize)
    requires
        0 <= i <= s.len(),
    ensures
        share(s.take(i), w) <= share(s, w),
    decreases s.len() - i,
{
    if i < s.len() {
        lemma_share_prefix(s, i + 1, w);
        assert(s.take(i + 1).drop_last() == s.take(i));
    } else {
        assert(s.take(i) == s);
    }
}

/// The picks of a batch that the free slots can take keep every worker within its
/// capacity.
proof fn lemma_picks_within(
    s: RunView,
    assign: Seq<usize>,
    n: nat,
    w: int,
)
    requires
        run_wf(s),
        s.phase is Leasing,
        n <= total(s.free),
        is_assignment(assign, s.loads, s.free, s.rotation as int, n, s.cfg.load_aware),
        0 <= w < s.caps.len(),
    ensures
        s.in_flight[w] + share(assign.map_values(|x: usize| s.ready[x as int]), w as usize)
            <= s.caps[w],
{
    assert(s.in_flight[w] <= s.caps[w]);
    assert(s.ready.len() <= usize::MAX) by {
        lemma_ascending_len(s.ready, s.caps.len());
    }
    law_assignment_is_total(
        assign,
        s.loads,
        s.free,
        s.rotation as int,
        n,
        s.cfg.load_aware,
    );
    if s.ready.contains(w as usize) {
        let k = choose|k: int| 0 <= k < s.ready.len() && s.ready[k] == w as usize;
        lemma_share_mapped(assign, s.ready, k);
        law_never_oversubscribed(
            assign,
            s.loads,
            s.free,
            s.rotation as int,
            n,
            s.cfg.load_aware,
            k,
        );
        assert(s.free[k] == s.caps[s.ready[k] as int] - s.in_flight[s.ready[k] as int]);
    } else {
        lemma_share_elsewhere(assign, s.ready, w as usize);
    }
}

/// Ascending numbers below `n` are no more than `n`.
proof fn lemma_ascending_len(s: Seq<usize>, n: nat)
    requires
        forall|k: int| 0 <= k < s.len() ==> (#[trigger] s[k]) < n,
        forall|j: int, k: int| 0 <= j < k < s.len() ==> (#[trigger] s[j]) < (#[trigger] s[k]),
    ensures
        s.len() <= n,
{
    if s.len() > 0 {
        lemma_ascending_from(s, s.len() - 1);
        assert(s[s.len() - 1] < n);
    }
}

proof fn lemma_ascending_from(s: Seq<usize>, k: int)
    requires
        0 <= k < s.len(),
        forall|i: int, j: int| 0 <= i < j < s.len() ==> (#[trigger] s[i]) < (#[trigger] s[j]),
    ensures
        s[k] >= k,
    decreases k,
{
    if k > 0 {
        lemma_ascending_from(s, k - 1);
        assert(s[k - 1] < s[k]);
    }
}

impl RunLoop {
    fn go_dispatch(&mut self, n: usize) -> (a: Action)
        requires
            run_wf(old(self)@),
            old(self)@.phase matches Phase::Leasing(limit) && n <= limit,
        ensures
            run_wf(final(self)@),
            a@ == ActionView::Dispatch(picks(old(self)@, n as nat)),
            final(self)@ == (RunView {
                in_flight: with_started(old(self)@.in_flight, picks(old(self)@, n as nat)),
                rotation: rotated_by(old(self)@.rotation, n as nat),
                phase: Phase::Dispatching,
                ..old(self)@
            }),
    {
        let ghost s = self@;
        let fleet: usize = self.caps.len();
        let assign: Vec<usize> = dispatch_assignment(
            self.loads.as_slice(),
            self.free.as_slice(),
            self.rotation,
            n,
            self.cfg.load_aware,
        );
        let ghost all = assign@.map_values(|x: usize| s.ready[x as int]);
        proof {
            lemma_ascending_len(s.ready, s.caps.len());
            let chosen = choose|a: Seq<usize>|
                is_assignment(a, s.loads, s.free, s.rotation as int, n as nat, s.cfg.load_aware);
            law_assignment_is_unique(
                chosen,
                assign@,
                s.loads,
                s.free,
                s.rotation as int,
                n as nat,
                s.cfg.load_aware,
            );
            assert(picks(s, n as nat) == all);
        }
        let mut workers: Vec<usize> = Vec::new();
        let mut i: usize = 0;
        proof {
            assert(all.take(0) == Seq::<usize>::empty());
            assert(with_started(s.in_flight, all.take(0)) == s.in_flight);
        }
        while i < assign.len()
            invariant
                i <= assign@.len() == n,
                fleet == s.caps.len(),
                run_wf(s),
                s.phase is Leasing,
                n <= total(s.free),
                self@ == (RunView { in_flight: self.in_flight@, ..s }),
                all == assign@.map_values(|x: usize| s.ready[x as int]),
                is_assignment(
                    assign@,
                    s.loads,
                    s.free,
                    s.rotation as int,
                    n as nat,
                    s.cfg.load_aware,
                ),
                forall|j: int| 0 <= j < assign@.len() ==> (#[trigger] assign@[j]) < s.ready.len(),
                workers@ == all.take(i as int),
                self.in_flight@ == with_started(s.in_flight, all.take(i as int)),
            decreases n - i,
        {
            let k: usize = assign[i];
            let g: usize = self.ready[k];
            let ghost before = self.in_flight@;
            proof {
                assert(s.ready[k as int] < s.caps.len());
                assert(all[i as int] == g);
                assert(all.take(i + 1).drop_last() == all.take(i as int));
                assert(all.take(i + 1).last() == g);
                lemma_picks_within(s, assign@, n as nat, g as int);
                lemma_share_prefix(all, i + 1, g);
            }
            let up: usize = self.in_flight[g] + 1;
            self.in_flight.set(g, up);
            workers.push(g);
            proof {
                assert forall|w: int| 0 <= w < s.in_flight.len() implies self.in_flight@[w]
                    == with_started(s.in_flight, all.take(i + 1))[w] by {
                    lemma_picks_within(s, assign@, n as nat, w);
                    lemma_share_prefix(all, i + 1, w as usize);
                }
                assert(self.in_flight@ == with_started(s.in_flight, all.take(i + 1)));
                assert(workers@ == all.take(i + 1));
            }
            i = i + 1;
        }
        assert(all.take(n as int) == all);
        self.rotation = self.rotation.wrapping_add(n);
        self.phase = Phase::Dispatching;
        proof {
            assert forall|w: int| 0 <= w < s.caps.len() implies (#[trigger] self@.in_flight[w])
                <= s.caps[w] by {
                lemma_picks_within(s, assign@, n as nat, w);
            }
            let sum = s.rotation + n;
            if sum <= usize::MAX {
                vstd::arithmetic::div_mod::lemma_small_mod(sum as nat, (usize::MAX + 1) as nat);
            } else {
                vstd::arithmetic::div_mod::lemma_small_mod(
                    (sum - (usize::MAX + 1)) as nat,
                    (usize::MAX + 1) as nat,
                );
                vstd::arithmetic::div_mod::lemma_mod_add_multiples_vanish(
                    sum - (usize::MAX + 1),
                    usize::MAX + 1,
                );
            }
        }
        Action::Dispatch { workers }
    }

    fn give_up(&self) -> (e: ForgeError)
        ensures
            error_text(e) == unready_text(self@.cfg.ready_grace@),
    {
        let span: String = self.cfg.ready_grace.debug_text();
        ForgeError::Worker(
            concat3(
                "no worker became ready within ",
                span.as_str(),
                "; check --workers / engine health",
            ),
        )
    }

    /// One step of the loop: takes in what came of the last action at the instant
    /// `now` of a clock that never goes back, and says what to do next.
    pub fn next(&mut self, event: Event, now: Duration) -> (a: Action)
        requires
            run_wf(old(self)@),
            answers(old(self)@, event),
        ensures
            run_wf(final(self)@),
            (final(self)@, a@) == step(old(self)@, event, now@),
    {
        let ghost s = self@;
        match event {
            Event::Begin => self.go_top(now),
            Event::Reaped => {
                self.last_reap = Some(now);
                self.phase = Phase::Inspecting;
                Action::Inspect
            },
            Event::Fleet { ready, loads } => {
                if some_ready(&ready) {
                    self.go_top_up(&ready, &loads, now)
                } else if self.phase == Phase::Inspecting {
                    self.phase = Phase::Probing;
                    Action::Probe
                } else if none_in_flight(&self.in_flight) {
                    self.phase = Phase::IdleCounts;
                    Action::ReadCounts
                } else {
                    self.phase = Phase::Landing;
                    Action::AwaitOne
                }
            },
            Event::Completed { worker, outcome } => {
                let left: usize = self.in_flight[worker] - 1;
                assert(s.in_flight[worker as int] <= s.caps[worker as int]);
                self.in_flight.set(worker, left);
                match outcome {
                    Dispatched::Done(usage) => {
                        self.totals.record_done(&usage);
                    },
                    Dispatched::Dead => {
                        self.totals.items_dead = self.totals.items_dead + 1;
                    },
                }
                let ghost t = RunView {
                    in_flight: s.in_flight.update(
                        worker as int,
                        (s.in_flight[worker as int] - 1) as usize,
                    ),
                    totals: landed(s.totals, outcome),
                    ..s
                };
                assert(self@ == t);
                self.phase = Phase::Ready;
                proof {
                    assert forall|w: int| 0 <= w < t.caps.len() implies (
                    #[trigger] self@.in_flight[w]) <= t.caps[w] by {
                        assert(s.in_flight[w] <= s.caps[w]);
                    }
                }
                self.go_top(now)
            },
            Event::Counts(c) => {
                if self.phase == Phase::Closing {
                    self.phase = Phase::Over;
                    let mut t: JobTotals = self.totals;
                    t.items_total = c.total();
                    t.items_done = c.done;
                    t.items_dead = c.dead;
                    Action::Finish(t)
                } else if c.is_drained() {
                    self.phase = Phase::Closing;
                    Action::ReadCounts
                } else if self.phase == Phase::IdleCounts {
                    let since: Duration = match self.idle_since {
                        Some(t) => t,
                        None => now,
                    };
                    self.idle_since = Some(since);
                    if now.saturating_sub(since).shorter_than(&self.cfg.ready_grace) {
                        self.phase = Phase::Sleeping;
                        Action::Pause
                    } else {
                        self.phase = Phase::Over;
                        Action::Fail(self.give_up())
                    }
                } else {
                    self.phase = Phase::Sleeping;
                    Action::Pause
                }
            },
            Event::Leased(n) => {
                if n == 0 && none_in_flight(&self.in_flight) {
                    self.phase = Phase::DryCounts;
                    Action::ReadCounts
                } else {
                    self.go_dispatch(n)
                }
            },
            Event::Started => self.go_await(now),
            Event::Rested => self.go_top(now),
        }
    }
}

/// A run ends with its totals only once the queue has reported that nothing is
/// pending or leased, and with nothing in flight.
pub proof fn law_run_ends_only_when_drained(s: RunView, event: Event, now: nat)
    requires
        run_wf(s),
        answers(s, event),
    ensures
        step(s, event, now).1 is Finish ==> s.phase == Phase::Closing && total(s.in_flight) == 0,
        step(s, event, now).0.phase == Phase::Closing ==> (event matches Event::Counts(
            c,
        ) && c.pending == 0 && c.leased == 0),
{
}

/// A run is given up only once no worker has been ready for the whole grace period,
/// with nothing in flight and work left in the queue.
pub proof fn law_run_is_given_up_only_after_the_grace(s: RunView, event: Event, now: nat)
    requires
        run_wf(s),
        answers(s, event),
        step(s, event, now).1 is Fail,
    ensures
        s.phase == Phase::IdleCounts,
        total(s.in_flight) == 0,
        event matches Event::Counts(c) && (c.pending > 0 || c.leased > 0),
        elapsed(
            match s.idle_since {
                Some(t) => t,
                None => now,
            },
            now,
        ) >= s.cfg.ready_grace@,
{
}

/// A lease asks for no more items than can start right away, and no more than a
/// batch: no leased item sits idle behind a busy worker.
pub proof fn law_lease_only_what_can_start(
    s: RunView,
    ready: Seq<bool>,
    loads: Seq<Option<u32>>,
    now: nat,
)
    requires
        top_up(s, ready, loads, now).1 is Lease,
    ensures
        ({
            let limit = top_up(s, ready, loads, now).1->Lease_0;
            &&& 0 < limit <= s.cfg.lease_batch
            &&& limit <= total(free_slots(ready_list(ready), s.caps, s.in_flight))
        }),
{
}

/// Each of the items just leased is picked a worker of the window.
pub proof fn law_picks_are_ready(s: RunView, n: nat)
    requires
        run_wf(s),
        s.phase matches Phase::Leasing(limit) && n <= limit,
    ensures
        picks(s, n).len() == n,
        forall|i: int| 0 <= i < n ==> s.ready.contains(#[trigger] picks(s, n)[i]),
{
    let base = s.rotation as int;
    lemma_ascending_len(s.ready, s.caps.len());
    law_assignment_exists(s.loads, s.free, base, n, s.cfg.load_aware);
    let a = choose|a: Seq<usize>|
        is_assignment(a, s.loads, s.free, base, n, s.cfg.load_aware);
    law_assignment_is_total(a, s.loads, s.free, base, n, s.cfg.load_aware);
    assert forall|i: int| 0 <= i < n implies s.ready.contains(#[trigger] picks(s, n)[i]) by {
        assert(picks(s, n)[i] == s.ready[a[i] as int]);
    }
}

/// An item is dispatched only to a worker that was ready when it was leased: the workers of
/// a dispatch are among those that the look at the fleet before the lease found ready, one
/// for each item, and no more for a worker than it had slots free.
pub proof fn law_dispatch_goes_to_ready_workers(
    s: RunView,
    ready: Vec<bool>,
    loads: Vec<Option<u32>>,
    now: nat,
    n: usize,
    later: nat,
)
    requires
        run_wf(s),
        answers(s, (Event::Fleet { ready, loads })),
        step(s, (Event::Fleet { ready, loads }), now).1 is Lease,
        n <= step(s, (Event::Fleet { ready, loads }), now).1->Lease_0,
    ensures
        step(
            step(s, (Event::Fleet { ready, loads }), now).0,
            Event::Leased(n),
            later,
        ).1 matches ActionView::Dispatch(workers) ==> {
            &&& workers.len() == n
            &&& forall|i: int|
                0 <= i < n ==> (#[trigger] workers[i]) < ready@.len() && ready@[workers[i] as int]
            &&& forall|w: int|
                0 <= w < s.caps.len() ==> (#[trigger] s.in_flight[w]) + share(workers, w as usize)
                    <= s.caps[w]
        },
{
    let t = step(s, (Event::Fleet { ready, loads }), now).0;
    let list = ready_list(ready@);
    lemma_ready_list(ready@);
    assert(run_wf(t)) by {
        assert forall|k: int| 0 <= k < t.ready.len() implies (#[trigger] t.ready[k]) < t.caps.len()
            && t.free[k] == t.caps[t.ready[k] as int] - t.in_flight[t.ready[k] as int] by {
            assert(t.in_flight[t.ready[k] as int] <= t.caps[t.ready[k] as int]);
        }
    }
    law_picks_are_ready(t, n as nat);
    let workers = picks(t, n as nat);
    assert forall|i: int| 0 <= i < n implies (#[trigger] workers[i]) < ready@.len()
        && ready@[workers[i] as int] by {
        let k = choose|k: int| 0 <= k < list.len() && list[k] == workers[i];
        assert(ready@[list[k] as int]);
    }
    lemma_ascending_len(t.ready, t.caps.len());
    law_assignment_exists(t.loads, t.free, t.rotation as int, n as nat, t.cfg.load_aware);
    let a = choose|a: Seq<usize>|
        is_assignment(a, t.loads, t.free, t.rotation as int, n as nat, t.cfg.load_aware);
    assert forall|w: int| 0 <= w < s.caps.len() implies (#[trigger] s.in_flight[w]) + share(
        workers,
        w as usize,
    ) <= s.caps[w] by {
        lemma_picks_within(t, a, n as nat, w);
    }
}

/// With a ready worker the time spent without one is forgotten.
pub proof fn law_readiness_resets_the_grace(
    s: RunView,
    ready: Seq<bool>,
    loads: Seq<Option<u32>>,
    now: nat,
)
    ensures
        top_up(s, ready, loads, now).0.idle_since is None,
{
}

/// The lease is twice the longest that an item has taken, where that lies between the floor
/// and the cap; below the floor it is the floor, above the cap the cap.
pub proof fn law_leases_follow_the_latency(base: Duration, max: Duration, peak_ms: u64, d: Duration)
    requires
        call_ensures(adaptive_lease, (base, max, peak_ms), d),
        2 * peak_ms <= u64::MAX,
    ensures
        base@ <= 2_000_000 * peak_ms <= max@ ==> d@ == 2_000_000 * peak_ms,
        2_000_000 * peak_ms <= base@ ==> d@ == base@,
        2_000_000 * peak_ms >= max@ && max@ >= base@ ==> d@ == max@,
        d@ >= base@,
{
}

/// Where the loop begins, or a pause is over, leases that have passed are taken back first,
/// unless that was done within the poll interval while something is in flight; then the
/// fleet is looked at.
pub proof fn law_passed_leases_are_taken_back_in_time(
    before: RunLoop,
    after: RunLoop,
    event: Event,
    now: Duration,
    a: Action,
)
    requires
        run_wf(before@),
        answers(before@, event),
        exists|l: &mut RunLoop|
            *l == before && *final(l) == after && #[trigger] call_ensures(
                RunLoop::next,
                (l, event, now),
                a,
            ),
        event is Begin || event is Rested,
    ensures
        before@.last_reap is None ==> a is Reap,
        (forall|w: int| 0 <= w < before@.in_flight.len() ==> (#[trigger] before@.in_flight[w]) == 0)
            ==> a is Reap,
        before@.last_reap matches Some(t) ==> now@ >= t + before@.cfg.poll_interval@ ==> a is Reap,
        a is Reap || a is Inspect,
        a is Inspect ==> (before@.last_reap matches Some(t) && now@ < t
            + before@.cfg.poll_interval@),
{
    lemma_total_zero_iff(before@.in_flight);
}

/// A look at the fleet that finds no ready worker leads to a probe; one that finds none
/// after the probe waits for what is in flight, and asks for the counts where nothing is.
pub proof fn law_unready_fleets_are_probed_first(
    before: RunLoop,
    after: RunLoop,
    ready: Vec<bool>,
    loads: Vec<Option<u32>>,
    now: Duration,
    a: Action,
)
    requires
        run_wf(before@),
        answers(before@, Event::Fleet { ready, loads }),
        exists|l: &mut RunLoop|
            *l == before && *final(l) == after && #[trigger] call_ensures(
                RunLoop::next,
                (l, Event::Fleet { ready, loads }, now),
                a,
            ),
        forall|w: int| 0 <= w < ready@.len() ==> !(#[trigger] ready@[w]),
    ensures
        before@.phase == Phase::Inspecting ==> a is Probe,
        before@.phase == Phase::Probing && (exists|w: int|
            0 <= w < before@.in_flight.len() && (#[trigger] before@.in_flight[w]) > 0)
            ==> a is AwaitOne,
        before@.phase == Phase::Probing && (forall|w: int|
            0 <= w < before@.in_flight.len() ==> (#[trigger] before@.in_flight[w]) == 0)
            ==> a is ReadCounts,
{
    lemma_total_zero_iff(before@.in_flight);
}

proof fn lemma_total_at_least(s: Seq<usize>, i: int)
    requires
        0 <= i < s.len(),
    ensures
        s[i] <= total(s),
    decreases s.len(),
{
    if i < s.len() - 1 {
        assert(s.drop_last()[i] == s[i]);
        lemma_total_at_least(s.drop_last(), i);
    }
}

proof fn lemma_ready_list_has(ready: Seq<bool>, w: int)
    requires
        0 <= w < ready.len() <= usize::MAX,
        ready[w],
    ensures
        exists|k: int| 0 <= k < ready_list(ready).len() && (#[trigger] ready_list(ready)[k]) == w,
    decreases ready.len(),
{
    let init = ready.drop_last();
    let list = ready_list(ready);
    if w == ready.len() - 1 {
        assert(list[list.len() - 1] == w);
    } else {
        assert(init[w] == ready[w]);
        lemma_ready_list_has(init, w);
        let k = choose|k: int|
            0 <= k < ready_list(init).len() && (#[trigger] ready_list(init)[k]) == w;
        assert(list[k] == w);
    }
}

/// A ready worker with a free slot gets work: the loop leases for it, at least as many items
/// as it has slots free, up to the batch; for the time that the latency asks for.
pub proof fn law_free_slots_are_leased_for(
    before: RunLoop,
    after: RunLoop,
    ready: Vec<bool>,
    loads: Vec<Option<u32>>,
    now: Duration,
    a: Action,
    w: int,
)
    requires
        run_wf(before@),
        answers(before@, Event::Fleet { ready, loads }),
        exists|l: &mut RunLoop|
            *l == before && *final(l) == after && #[trigger] call_ensures(
                RunLoop::next,
                (l, Event::Fleet { ready, loads }, now),
                a,
            ),
        0 <= w < ready@.len(),
        ready@[w],
        before@.in_flight[w] < before@.caps[w],
        before@.cfg.lease_batch > 0,
    ensures
        a matches Action::Lease { limit, lease_for } && 1 <= limit <= before@.cfg.lease_batch && (
        limit < before@.cfg.lease_batch ==> limit >= before@.caps[w] - before@.in_flight[w])
            && lease_for@ >= before@.cfg.lease_for@ && (before@.peak_ms == 0 ==> lease_for@
            == before@.cfg.lease_for@),
        after@.idle_since is None,
{
    let s = before@;
    let list = ready_list(ready@);
    lemma_ready_list(ready@);
    lemma_ready_list_has(ready@, w);
    let k = choose|k: int| 0 <= k < list.len() && (#[trigger] list[k]) == w;
    let free = free_slots(list, s.caps, s.in_flight);
    assert(free[k] == (s.caps[w] - s.in_flight[w]) as usize);
    lemma_total_at_least(free, k);
    assert(any_true(ready@)) by {
        assert(ready@[w]);
    }
}

/// An item that lands frees the slot of its worker, and counts as what it is: done with its
/// tokens, or dead.
pub proof fn law_landed_items_are_counted(
    before: RunLoop,
    after: RunLoop,
    worker: usize,
    outcome: Dispatched,
    now: Duration,
    a: Action,
)
    requires
        run_wf(before@),
        answers(before@, Event::Completed { worker, outcome }),
        exists|l: &mut RunLoop|
            *l == before && *final(l) == after && #[trigger] call_ensures(
                RunLoop::next,
                (l, Event::Completed { worker, outcome }, now),
                a,
            ),
    ensures
        after@.in_flight[worker as int] == before@.in_flight[worker as int] - 1,
        forall|w: int|
            0 <= w < before@.in_flight.len() && w != worker ==> (#[trigger] after@.in_flight[w])
                == before@.in_flight[w],
        outcome matches Dispatched::Done(u) ==> after@.totals.items_done
            == before@.totals.items_done + 1 && after@.totals.items_dead
            == before@.totals.items_dead && after@.totals.tokens_prompt
            == before@.totals.tokens_prompt + u.prompt_tokens && after@.totals.tokens_completion
            == before@.totals.tokens_completion + u.completion_tokens,
        outcome is Dead ==> after@.totals.items_dead == before@.totals.items_dead + 1
            && after@.totals.items_done == before@.totals.items_done && after@.totals.tokens_prompt
            == before@.totals.tokens_prompt && after@.totals.tokens_completion
            == before@.totals.tokens_completion,
{
}

/// Counts end the run once nothing waits and nothing is in flight: it then finishes with
/// what the queue counts and the tokens of this run. Until then it pauses, or is given up
/// where no worker has been ready for the whole grace period.
pub proof fn law_counts_decide_the_end(
    before: RunLoop,
    after: RunLoop,
    c: QueueCounts,
    now: Duration,
    a: Action,
)
    requires
        run_wf(before@),
        answers(before@, Event::Counts(c)),
        exists|l: &mut RunLoop|
            *l == before && *final(l) == after && #[trigger] call_ensures(
                RunLoop::next,
                (l, Event::Counts(c), now),
                a,
            ),
    ensures
        before@.phase == Phase::Closing ==> (a matches Action::Finish(t) && t.items_total
            == c.pending + c.leased + c.done + c.dead && t.items_done == c.done && t.items_dead
            == c.dead && t.tokens_prompt == before@.totals.tokens_prompt && t.tokens_completion
            == before@.totals.tokens_completion),
        before@.phase != Phase::Closing && c.pending == 0 && c.leased == 0 ==> a is ReadCounts
            && after@.phase == Phase::Closing,
        before@.phase != Phase::Closing && (c.pending > 0 || c.leased > 0) ==> a is Pause || a is Fail,
        before@.phase == Phase::DryCounts ==> !(a is Fail),
        before@.phase == Phase::IdleCounts && (c.pending > 0 || c.leased > 0) ==> (a is Fail <==> ({
            let since = match before@.idle_since {
                Some(t) => t,
                None => now@,
            };
            now@ >= since + before@.cfg.ready_grace@ || before@.cfg.ready_grace@ == 0
        })),
        a is Fail ==> before@.phase == Phase::IdleCounts,
{
}

/// What was leased is started, one worker for each item; a lease that gave nothing with
/// nothing in flight leads to the counts.
pub proof fn law_leased_items_are_started(
    before: RunLoop,
    after: RunLoop,
    n: usize,
    now: Duration,
    a: Action,
)
    requires
        run_wf(before@),
        answers(before@, Event::Leased(n)),
        exists|l: &mut RunLoop|
            *l == before && *final(l) == after && #[trigger] call_ensures(
                RunLoop::next,
                (l, Event::Leased(n), now),
                a,
            ),
    ensures
        n > 0 ==> a is Dispatch,
        a matches Action::Dispatch { workers } ==> workers@.len() == n && forall|i: int|
            0 <= i < n ==> before@.ready.contains(#[trigger] workers@[i]),
        n == 0 && (forall|w: int|
            0 <= w < before@.in_flight.len() ==> (#[trigger] before@.in_flight[w]) == 0)
            ==> a is ReadCounts,
{
    lemma_total_zero_iff(before@.in_flight);
    law_picks_are_ready(before@, n as nat);
}

/// While anything is in flight the loop waits for it once its items are started.
pub proof fn law_started_items_are_awaited(
    before: RunLoop,
    after: RunLoop,
    now: Duration,
    a: Action,
    w: int,
)
    requires
        run_wf(before@),
        answers(before@, Event::Started),
        exists|l: &mut RunLoop|
            *l == before && *final(l) == after && #[trigger] call_ensures(
                RunLoop::next,
                (l, Event::Started, now),
                a,
            ),
        0 <= w < before@.in_flight.len(),
        before@.in_flight[w] > 0,
    ensures
        a is AwaitOne,
{
    lemma_total_at_least(before@.in_flight, w);
}

/// The longest that an item has taken is remembered.
pub proof fn law_the_longest_latency_is_kept(before: RunLoop, after: RunLoop, millis: u64)
    requires
        run_wf(before@),
        exists|l: &mut RunLoop|
            *l == before && *final(l) == after && #[trigger] call_ensures(
                RunLoop::observe,
                (l, millis),
                (),
            ),
    ensures
        after@.peak_ms >= millis,
        after@.peak_ms >= before@.peak_ms,
        after@.peak_ms == millis || after@.peak_ms == before@.peak_ms,
        after@.totals == before@.totals,
        after@.in_flight == before@.in_flight,
{
}

} // verus!

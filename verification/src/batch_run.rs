//! A run over a queue, a set of interchangeable workers and a result store, and the
//! order in which one item's outcome is written down.

use vstd::prelude::*;

use crate::error::{error_text, ForgeError};
use crate::run::{any_true, run_wf, Dispatched, Phase, RunConfig, RunLoop};
use crate::types::{is_failure_result, zero_totals, Item, ItemResult, TokenUsage, WorkerSpec};
use crate::worker::HttpWorker;

verus! {

/// One interchangeable engine endpoint, as far as dispatch looks at it: its declared
/// capability, and its cached readiness and queue depth.
pub trait Worker {
    /// The declared capability of this endpoint.
    spec fn declared(&self) -> WorkerSpec;

    /// Cached readiness.
    spec fn ready(&self) -> bool;

    /// Cached queue depth, if known.
    spec fn depth(&self) -> Option<u32>;

    /// The declared capability of this endpoint.
    fn spec(&self) -> (r: &WorkerSpec)
        ensures
            *r == self.declared(),
    ;

    /// Cached readiness, updated by a health probe.
    fn is_ready(&self) -> (r: bool)
        ensures
            r == self.ready(),
    ;

    /// Cached queue depth for load-aware dispatch: lower is less loaded.
    fn load(&self) -> (r: Option<u32>)
        ensures
            r == self.depth(),
    ;
}

impl Worker for HttpWorker {
    open spec fn declared(&self) -> WorkerSpec {
        self.spec_spec()
    }

    open spec fn ready(&self) -> bool {
        self.spec_ready()
    }

    open spec fn depth(&self) -> Option<u32> {
        self.spec_load()
    }

    fn spec(&self) -> (r: &WorkerSpec) {
        HttpWorker::spec(self)
    }

    fn is_ready(&self) -> (r: bool) {
        HttpWorker::is_ready(self)
    }

    fn load(&self) -> (r: Option<u32>) {
        HttpWorker::load(self)
    }
}

/// The readiness of each worker.
pub open spec fn readiness<W: Worker>(workers: Seq<W>) -> Seq<bool> {
    workers.map_values(|w: W| w.ready())
}

/// The known load of each worker.
pub open spec fn depths<W: Worker>(workers: Seq<W>) -> Seq<Option<u32>> {
    workers.map_values(|w: W| w.depth())
}

/// Drives a queue, a set of interchangeable workers, and a result store to completion.
pub struct BatchRun<Q, W, S> {
    queue: Q,
    workers: Vec<W>,
    store: S,
    cfg: RunConfig,
}

impl<Q, W, S> BatchRun<Q, W, S> {
    /// The queue.
    pub closed spec fn spec_queue(self) -> Q {
        self.queue
    }

    /// The workers.
    pub closed spec fn spec_workers(self) -> Seq<W> {
        self.workers@
    }

    /// The result store.
    pub closed spec fn spec_store(self) -> S {
        self.store
    }

    /// The configuration.
    pub closed spec fn spec_cfg(self) -> RunConfig {
        self.cfg
    }

    /// A run with the default configuration. Hydrate the queue first; the run drains
    /// whatever is enqueued.
    pub fn new(queue: Q, workers: Vec<W>, store: S) -> (r: Self)
        ensures
            r.spec_queue() == queue,
            r.spec_workers() == workers@,
            r.spec_store() == store,
            r.spec_cfg().lease_for@ == 300_000_000_000,
            r.spec_cfg().lease_max@ == 1_800_000_000_000,
            r.spec_cfg().lease_batch == 256,
            r.spec_cfg().poll_interval@ == 250_000_000,
            r.spec_cfg().ready_grace@ == 60_000_000_000,
            r.spec_cfg().retry.max_attempts == 5,
            r.spec_cfg().retry.base@ == 500_000_000,
            r.spec_cfg().retry.cap@ == 30_000_000_000,
            r.spec_cfg().load_aware,
    {
        BatchRun { queue, workers, store, cfg: RunConfig::default() }
    }

    /// Override the run configuration.
    pub fn with_config(self, cfg: RunConfig) -> (r: Self)
        ensures
            r.spec_cfg() == cfg,
            r.spec_queue() == self.spec_queue(),
            r.spec_workers() == self.spec_workers(),
            r.spec_store() == self.spec_store(),
    {
        BatchRun { cfg, ..self }
    }

    /// The queue.
    pub fn queue(&self) -> (r: &Q)
        ensures
            *r == self.spec_queue(),
    {
        &self.queue
    }

    /// The result store.
    pub fn store(&self) -> (r: &S)
        ensures
            *r == self.spec_store(),
    {
        &self.store
    }

    /// The workers.
    pub fn workers(&self) -> (r: &Vec<W>)
        ensures
            r@ == self.spec_workers(),
    {
        &self.workers
    }

    /// The configuration.
    pub fn config(&self) -> (r: RunConfig)
        ensures
            r == self.spec_cfg(),
    {
        self.cfg
    }
}

impl<Q, W: Worker, S> BatchRun<Q, W, S> {
    /// Whether any worker is currently marked ready.
    pub fn any_ready(&self) -> (r: bool)
        ensures
            r == any_true(readiness(self.spec_workers())),
    {
        let ghost all = readiness(self.workers@);
        let mut i: usize = 0;
        while i < self.workers.len()
            invariant
                i <= self.workers@.len(),
                all == readiness(self.workers@),
                forall|w: int| 0 <= w < i ==> !(#[trigger] all[w]),
            decreases self.workers@.len() - i,
        {
            if self.workers[i].is_ready() {
                assert(all[i as int]);
                return true;
            }
            i = i + 1;
        }
        false
    }

    /// The readiness and the known load of each worker.
    pub fn fleet(&self) -> (r: (Vec<bool>, Vec<Option<u32>>))
        ensures
            r.0@ == readiness(self.spec_workers()),
            r.1@ == depths(self.spec_workers()),
    {
        let mut ready: Vec<bool> = Vec::new();
        let mut loads: Vec<Option<u32>> = Vec::new();
        let mut i: usize = 0;
        while i < self.workers.len()
            invariant
                i <= self.workers@.len(),
                ready@ == readiness(self.workers@).take(i as int),
                loads@ == depths(self.workers@).take(i as int),
            decreases self.workers@.len() - i,
        {
            ready.push(self.workers[i].is_ready());
            loads.push(self.workers[i].load());
            i = i + 1;
            assert(ready@ == readiness(self.workers@).take(i as int));
            assert(loads@ == depths(self.workers@).take(i as int));
        }
        assert(ready@ == readiness(self.workers@));
        assert(loads@ == depths(self.workers@));
        (ready, loads)
    }

    /// The loop of this run, at its start. Refused without workers.
    pub fn start(&self) -> (r: Result<RunLoop, ForgeError>)
        ensures
            match r {
                Ok(l) => {
                    &&& self.spec_workers().len() > 0
                    &&& run_wf(l@)
                    &&& l@.phase == Phase::Ready
                    &&& l@.cfg == self.spec_cfg()
                    &&& l@.caps.len() == self.spec_workers().len()
                    &&& forall|w: int|
                        0 <= w < l@.caps.len() ==> (#[trigger] l@.caps[w])
                            == if self.spec_workers()[w].declared().concurrency_limit < 1 {
                            1
                        } else {
                            self.spec_workers()[w].declared().concurrency_limit
                        }
                    &&& l@.in_flight.len() == self.spec_workers().len()
                    &&& forall|w: int|
                        0 <= w < l@.in_flight.len() ==> (#[trigger] l@.in_flight[w]) == 0
                    &&& l@.rotation == 0
                    &&& l@.idle_since is None
                    &&& l@.last_reap is None
                    &&& l@.totals == zero_totals()
                    &&& l@.peak_ms == 0
                },
                Err(e) => self.spec_workers().len() == 0 && error_text(e)
                    == "config: "@ + "no workers configured"@,
            },
    {
        if self.workers.len() == 0 {
            return Err(ForgeError::Config("no workers configured".to_owned()));
        }
        let mut caps: Vec<usize> = Vec::new();
        let mut i: usize = 0;
        while i < self.workers.len()
            invariant
                i <= self.workers@.len(),
                caps@.len() == i,
                forall|w: int|
                    0 <= w < i ==> (#[trigger] caps@[w])
                        == self.workers@[w].declared().concurrency_limit,
            decreases self.workers@.len() - i,
        {
            caps.push(self.workers[i].spec().concurrency_limit);
            i = i + 1;
        }
        Ok(RunLoop::new(self.cfg, caps.as_slice()))
    }
}

/// The write to the result store that comes first.
pub enum StoreWrite {
    /// A successful result.
    Put(ItemResult),
    /// A terminal failure.
    DeadLetter(ItemResult),
}

/// The write to the queue that comes after it.
pub enum QueueWrite {
    Ack { custom_id: String, attempt: u32 },
    DeadLetter { custom_id: String, attempt: u32, error: String },
}

/// An item's outcome that is still to be stored: what to write to the store, and what
/// is owed to the queue afterwards.
pub struct Unstored {
    write: StoreWrite,
    owed: QueueWrite,
    outcome: Dispatched,
}

/// The write to the store that an outcome asks for.
pub open spec fn is_store_write(
    write: StoreWrite,
    item: Item,
    worker_id: Seq<char>,
    outcome: Result<ItemResult, ForgeError>,
    completed_at: i64,
) -> bool {
    match outcome {
        Ok(result) => write == StoreWrite::Put(result),
        Err(e) => write matches StoreWrite::DeadLetter(r) && is_failure_result(
            r,
            item.custom_id@,
            item.attempts,
            worker_id,
            error_text(e),
        ) && r.completed_at == completed_at,
    }
}

/// The write to the queue that an outcome asks for.
pub open spec fn is_queue_write(
    write: QueueWrite,
    item: Item,
    outcome: Result<ItemResult, ForgeError>,
) -> bool {
    match outcome {
        Ok(_) => write matches QueueWrite::Ack { custom_id, attempt } && custom_id@
            == item.custom_id@ && attempt == item.attempts,
        Err(e) => write matches QueueWrite::DeadLetter { custom_id, attempt, error } && custom_id@
            == item.custom_id@ && attempt == item.attempts && error@ == error_text(e),
    }
}

/// What an outcome counts as.
pub open spec fn dispatched_as(outcome: Result<ItemResult, ForgeError>) -> Dispatched {
    match outcome {
        Ok(result) => Dispatched::Done(result.usage),
        Err(_) => Dispatched::Dead,
    }
}

impl Unstored {
    /// The write to the store.
    pub closed spec fn spec_write(self) -> StoreWrite {
        self.write
    }

    /// The write to the queue.
    pub closed spec fn spec_owed(self) -> QueueWrite {
        self.owed
    }

    /// What the outcome counts as.
    pub closed spec fn spec_outcome(self) -> Dispatched {
        self.outcome
    }

    /// Takes in what a worker made of an item. A worker's error means that its retries
    /// are exhausted: the item is quarantined.
    pub fn submitted(
        item: &Item,
        worker_id: &str,
        outcome: Result<ItemResult, ForgeError>,
        completed_at: i64,
    ) -> (u: Self)
        ensures
            is_store_write(u.spec_write(), *item, worker_id@, outcome, completed_at),
            is_queue_write(u.spec_owed(), *item, outcome),
            u.spec_outcome() == dispatched_as(outcome),
    {
        match outcome {
            Ok(result) => {
                let usage: TokenUsage = result.usage;
                Unstored {
                    write: StoreWrite::Put(result),
                    owed: QueueWrite::Ack {
                        custom_id: item.custom_id.clone(),
                        attempt: item.attempts,
                    },
                    outcome: Dispatched::Done(usage),
                }
            },
            Err(e) => {
                let dead: ItemResult = ItemResult::failed_at(item, worker_id, &e, completed_at);
                Unstored {
                    write: StoreWrite::DeadLetter(dead),
                    owed: QueueWrite::DeadLetter {
                        custom_id: item.custom_id.clone(),
                        attempt: item.attempts,
                        error: e.to_string(),
                    },
                    outcome: Dispatched::Dead,
                }
            },
        }
    }

    /// What is to be written to the store.
    pub fn write(&self) -> (w: &StoreWrite)
        ensures
            *w == self.spec_write(),
    {
        &self.write
    }

    /// Once the store write is durable: what is owed to the queue, and what the item
    /// counts as. There is no other way to the queue write, so no item is acked before
    /// its result is stored.
    pub fn stored(self) -> (r: (QueueWrite, Dispatched))
        ensures
            r.0 == self.spec_owed(),
            r.1 == self.spec_outcome(),
    {
        (self.owed, self.outcome)
    }
}

/// The store and the queue hear of the same item: what is acked is what was put, and
/// what is quarantined in the queue is what was quarantined in the store, at the
/// attempt that the lease handed out.
pub proof fn law_store_and_queue_agree(
    write: StoreWrite,
    owed: QueueWrite,
    item: Item,
    worker_id: Seq<char>,
    outcome: Result<ItemResult, ForgeError>,
    completed_at: i64,
)
    requires
        is_store_write(write, item, worker_id, outcome, completed_at),
        is_queue_write(owed, item, outcome),
        outcome matches Ok(r) ==> r.custom_id@ == item.custom_id@,
    ensures
        write is Put <==> owed is Ack,
        match write {
            StoreWrite::Put(r) => r.custom_id@ == item.custom_id@,
            StoreWrite::DeadLetter(r) => r.custom_id@ == item.custom_id@ && r.attempt
                == item.attempts,
        },
        match owed {
            QueueWrite::Ack { custom_id, attempt } => custom_id@ == item.custom_id@ && attempt
                == item.attempts,
            QueueWrite::DeadLetter { custom_id, attempt, error } => custom_id@ == item.custom_id@
                && attempt == item.attempts,
        },
{
}

/// What a worker made of an item is written down for that item. A success is put as it is,
/// acked at the attempt of the lease, and counted with its tokens; an error becomes a dead
/// letter that says why, in the store and in the queue, and counts as dead.
pub proof fn law_outcomes_are_written_down(
    item: &Item,
    worker_id: &str,
    outcome: Result<ItemResult, ForgeError>,
    completed_at: i64,
    u: Unstored,
    owed: (QueueWrite, Dispatched),
)
    requires
        call_ensures(Unstored::submitted, (item, worker_id, outcome, completed_at), u),
        call_ensures(Unstored::stored, (u,), owed),
    ensures
        outcome matches Ok(r) ==> u.spec_write() == StoreWrite::Put(r) && (
        owed.0 matches QueueWrite::Ack { custom_id, attempt } && custom_id@ == item.custom_id@
            && attempt == item.attempts) && owed.1 == Dispatched::Done(r.usage),
        outcome matches Err(e) ==> (u.spec_write() matches StoreWrite::DeadLetter(r) && r.custom_id@
            == item.custom_id@ && r.response is None && (r.error matches Some(x) && x.message@
            == error_text(e) && x.code@ == "worker_error"@) && r.attempt == item.attempts
            && r.worker_id@ == worker_id@ && r.completed_at == completed_at) && (
        owed.0 matches QueueWrite::DeadLetter { custom_id, attempt, error } && custom_id@
            == item.custom_id@ && attempt == item.attempts && error@ == error_text(e)) && owed.1
            == Dispatched::Dead,
{
}

/// A run starts with every worker idle, each with room for as many requests as it declares
/// and at least one; without workers it does not start.
pub proof fn law_runs_start_idle<Q, W: Worker, S>(
    run: &BatchRun<Q, W, S>,
    r: Result<RunLoop, ForgeError>,
    w: int,
)
    requires
        call_ensures(BatchRun::<Q, W, S>::start, (run,), r),
    ensures
        r is Ok <==> run.spec_workers().len() > 0,
        r matches Ok(l) ==> l@.totals.items_done == 0 && l@.totals.items_dead == 0,
        r matches Ok(l) ==> 0 <= w < run.spec_workers().len() ==> l@.in_flight[w] == 0 && l@.caps[w]
            >= 1 && (run.spec_workers()[w].declared().concurrency_limit >= 1 ==> l@.caps[w]
            == run.spec_workers()[w].declared().concurrency_limit),
{
}

} // verus!

//! The fleet that a batch runs against.

use vstd::prelude::*;

use crate::batch_run::Worker;
use crate::error::ForgeError;
use crate::retry::RetryPolicy;
use crate::types::WorkerSpec;
use crate::validate::ResponseCheck;
use crate::worker::HttpWorker;

verus! {

/// A source of fleets: a fresh one for each batch, so that batches do not share their
/// workers' limits.
pub trait WorkerFleet {
    type W: Worker;

    /// The fleet of one batch, or why there is none.
    fn build(&self) -> Result<Vec<Self::W>, ForgeError>;
}

/// A fleet of HTTP workers with the same retry and validation policy.
pub struct HttpFleet {
    specs: Vec<WorkerSpec>,
    retry: RetryPolicy,
    validation: ResponseCheck,
}

/// The specs say the same.
pub open spec fn same_spec(a: WorkerSpec, b: WorkerSpec) -> bool {
    &&& a.worker_id@ == b.worker_id@
    &&& a.base_url@ == b.base_url@
    &&& a.endpoint_kind == b.endpoint_kind
    &&& a.concurrency_limit == b.concurrency_limit
    &&& a.engine_hint == b.engine_hint
    &&& a.health_path@ == b.health_path@
    &&& a.ready == b.ready
    &&& a.rate_limit_per_second == b.rate_limit_per_second
}

impl WorkerSpec {
    /// A spec that says the same.
    pub fn duplicate(&self) -> (r: WorkerSpec)
        ensures
            same_spec(r, *self),
    {
        WorkerSpec {
            worker_id: self.worker_id.as_str().to_owned(),
            base_url: self.base_url.as_str().to_owned(),
            endpoint_kind: self.endpoint_kind,
            concurrency_limit: self.concurrency_limit,
            engine_hint: self.engine_hint,
            health_path: self.health_path.as_str().to_owned(),
            ready: self.ready,
            rate_limit_per_second: self.rate_limit_per_second,
        }
    }
}

impl HttpFleet {
    /// The specs of the workers.
    pub closed spec fn spec_specs(self) -> Seq<WorkerSpec> {
        self.specs@
    }

    /// The retry policy of every worker.
    pub closed spec fn spec_retry(self) -> RetryPolicy {
        self.retry
    }

    /// The check that every worker applies.
    pub closed spec fn spec_validation(self) -> ResponseCheck {
        self.validation
    }

    /// `ws` has one fresh worker per spec, each under the fleet's policy.
    pub open spec fn is_fleet(self, ws: Seq<HttpWorker>) -> bool {
        &&& ws.len() == self.spec_specs().len()
        &&& forall|i: int|
            0 <= i < ws.len() ==> {
                &&& (#[trigger] ws[i]).wf()
                &&& same_spec(ws[i].spec_spec(), self.spec_specs()[i])
                &&& ws[i].spec_retry() == self.spec_retry()
                &&& ws[i].spec_check() == self.spec_validation()
                &&& ws[i].is_fresh()
            }
    }

    /// A fleet of these workers.
    pub fn new(specs: Vec<WorkerSpec>, retry: RetryPolicy, validation: ResponseCheck) -> (f: Self)
        ensures
            f.spec_specs() == specs@,
            f.spec_retry() == retry,
            f.spec_validation() == validation,
    {
        HttpFleet { specs, retry, validation }
    }

    /// The workers of one batch, one for each spec.
    pub fn workers(&self) -> (r: Vec<HttpWorker>)
        ensures
            self.is_fleet(r@),
    {
        let mut out: Vec<HttpWorker> = Vec::new();
        let mut i: usize = 0;
        while i < self.specs.len()
            invariant
                i <= self.specs@.len(),
                out@.len() == i,
                forall|k: int|
                    0 <= k < i ==> {
                        &&& (#[trigger] out@[k]).wf()
                        &&& same_spec(out@[k].spec_spec(), self.specs@[k])
                        &&& out@[k].spec_retry() == self.retry
                        &&& out@[k].spec_check() == self.validation
                        &&& out@[k].is_fresh()
                    },
            decreases self.specs@.len() - i,
        {
            let w: HttpWorker = HttpWorker::new(self.specs[i].duplicate());
            out.push(w.with_retry(self.retry).with_validation(self.validation));
            i = i + 1;
        }
        out
    }
}

impl WorkerFleet for HttpFleet {
    type W = HttpWorker;

    fn build(&self) -> (r: Result<Vec<HttpWorker>, ForgeError>)
        ensures
            r matches Ok(ws) && self.is_fleet(ws@),
    {
        Ok(self.workers())
    }
}

/// A fleet has a worker for each spec, in order, bound to its endpoint, ready, with the
/// fleet's retries and check.
pub proof fn law_fleets_follow_their_specs(
    specs: Vec<WorkerSpec>,
    retry: RetryPolicy,
    validation: ResponseCheck,
    f: HttpFleet,
    ws: Vec<HttpWorker>,
    i: int,
)
    requires
        call_ensures(HttpFleet::new, (specs, retry, validation), f),
        call_ensures(HttpFleet::workers, (&f,), ws),
        0 <= i < specs@.len(),
    ensures
        ws@.len() == specs@.len(),
        ws@[i].spec_spec().base_url@ == specs@[i].base_url@,
        ws@[i].spec_spec().worker_id@ == specs@[i].worker_id@,
        ws@[i].spec_spec().endpoint_kind == specs@[i].endpoint_kind,
        ws@[i].spec_spec().concurrency_limit == specs@[i].concurrency_limit,
        ws@[i].spec_spec().engine_hint == specs@[i].engine_hint,
        ws@[i].spec_spec().health_path@ == specs@[i].health_path@,
        ws@[i].spec_spec().rate_limit_per_second == specs@[i].rate_limit_per_second,
        ws@[i].spec_retry() == retry,
        ws@[i].spec_check() == validation,
        ws@[i].spec_ready(),
        ws@[i].spec_load() is None,
{
    assert(ws@[i].wf());
}

} // verus!

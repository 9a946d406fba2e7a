//! The coordinator's side of the wire.
//!
//! An agent only proposes results. The coordinator writes them, in one order: the durable
//! result first, then the lease-fenced transition of the queue. A stale post is a
//! harmless no-op.

use std::collections::VecDeque;

use vstd::prelude::*;

use crate::agent::{from_wire_usage, usage_from_wire};
use crate::batch_run::{QueueWrite, StoreWrite};
use crate::duration::Duration;
use crate::error::{error_text, ForgeError};
use crate::json::{
    canonical, json_parse, json_text, parse_json, parse_view, render_json, Json, JsonView,
};
use crate::queue::{lease_current, rows_after_close};
use crate::sqlite::SqliteQueue;
use crate::state::ItemState;
use crate::text::{concat2, concat3, str_eq, trim_end_char, trim_end_matches_char, views};
use crate::types::{no_usage, Item, ItemError, ItemResponse, ItemResult, ItemView, TokenUsage};
use crate::wire::{
    ack_json, grant_json, notice_of, post_of, pull_of, wire_views, AckReply, InterruptionNotice,
    InterruptionNoticeView, LeaseGrant, LeasePull, ResultPost, ResultPostView, WireItem,
    WireItemView, WireOutcome, WireOutcomeView,
};

verus! {

/// A failure of the transport.
pub fn transport(why: &str) -> (e: ForgeError)
    ensures
        error_text(e) == "worker: "@ + ("transport: "@ + why@),
{
    ForgeError::Worker(concat2("transport: ", why))
}

/// The URL of a route below a base; slashes at the end of the base do not count.
pub fn route_url(base: &str, path: &str) -> (r: String)
    ensures
        r@ == trim_end_char(base@, '/') + path@,
{
    concat2(trim_end_matches_char(base, '/').as_str(), path)
}

/// How often a request is sent again, at most.
pub const MAX_RESENDS: u32 = 4;

/// For how long after the first attempt a request is sent again, in seconds.
pub const RESEND_BUDGET_SECS: u64 = 150;

/// Whether a request that could not be sent is sent again after `resends` times, and how
/// long to wait before: every route is safe to send again, so any failure counts, but
/// the number of attempts and the time for them are bounded.
pub fn resend_after(resends: u32, elapsed: Duration) -> (r: Option<Duration>)
    ensures
        match r {
            Some(wait) => resends < MAX_RESENDS && elapsed@ < RESEND_BUDGET_SECS * 1_000_000_000
                && wait@ == 50 * (resends + 1) * 1_000_000,
            None => resends >= MAX_RESENDS || elapsed@ >= RESEND_BUDGET_SECS * 1_000_000_000,
        },
{
    if resends < MAX_RESENDS && elapsed.shorter_than(&Duration::from_secs(RESEND_BUDGET_SECS)) {
        Some(Duration::from_millis(50 * (resends as u64 + 1)))
    } else {
        None
    }
}

/// What the status of a reply means: anything but success is a failure of the transport.
pub fn check_reply(path: &str, status: u16, status_text: &str) -> (r: Result<(), ForgeError>)
    ensures
        match r {
            Ok(_) => 200 <= status <= 299,
            Err(e) => !(200 <= status <= 299) && error_text(e) == "worker: "@ + ("transport: "@ + (
            path@ + " → HTTP "@ + status_text@)),
        },
{
    if status >= 200 && status <= 299 {
        Ok(())
    } else {
        Err(transport(concat3(path, " → HTTP ", status_text).as_str()))
    }
}

/// A request that the coordinator serves.
pub enum Request {
    /// Lease up to `max` items for a span.
    Lease { max: usize, lease_for: Duration },
    /// Apply a result.
    Result(ResultPost),
    /// Take note of an interruption.
    Interruption(InterruptionNotice),
}

/// The view of a request.
#[verifier::ext_equal]
pub enum RequestView {
    Lease { max: nat, nanos: nat },
    Result(ResultPostView),
    Interruption(InterruptionNoticeView),
}

impl View for Request {
    type V = RequestView;

    open spec fn view(&self) -> RequestView {
        match self {
            Request::Lease { max, lease_for } => RequestView::Lease {
                max: *max as nat,
                nanos: lease_for@,
            },
            Request::Result(p) => RequestView::Result(p@),
            Request::Interruption(n) => RequestView::Interruption(n@),
        }
    }
}

/// The span of a lease: what the pull asks for, or the default where it asks for none.
pub open spec fn lease_span(lease_secs: u64, default_nanos: nat) -> nat {
    if lease_secs == 0 {
        default_nanos
    } else {
        lease_secs as nat * 1_000_000_000
    }
}

/// The message for a body that is not what the route takes.
pub open spec fn bad_body(why: Seq<char>) -> Seq<char> {
    "bad request body: "@ + why
}

/// What a request asks for, or the status and message of the refusal. `parsed` is the
/// body read as JSON.
pub open spec fn routed(
    method: Seq<char>,
    path: Seq<char>,
    parsed: Result<JsonView, Seq<char>>,
    default_nanos: nat,
) -> Result<RequestView, (u16, Seq<char>)> {
    if method != "POST"@ {
        Err((405u16, method + " not allowed (POST only)"@))
    } else if path == "/v1/lease"@ {
        match parsed {
            Ok(j) => match pull_of(j) {
                Some(p) => Ok(
                    RequestView::Lease {
                        max: p.max as nat,
                        nanos: lease_span(p.lease_secs, default_nanos),
                    },
                ),
                None => Err((400u16, bad_body("not a lease pull"@))),
            },
            Err(e) => Err((400u16, bad_body(e))),
        }
    } else if path == "/v1/result"@ {
        match parsed {
            Ok(j) => match post_of(j) {
                Some(p) => Ok(RequestView::Result(p)),
                None => Err((400u16, bad_body("not a result post"@))),
            },
            Err(e) => Err((400u16, bad_body(e))),
        }
    } else if path == "/v1/interruption"@ {
        match parsed {
            Ok(j) => match notice_of(j) {
                Some(n) => Ok(RequestView::Interruption(n)),
                None => Err((400u16, bad_body("not an interruption notice"@))),
            },
            Err(e) => Err((400u16, bad_body(e))),
        }
    } else {
        Err((404u16, "no route for "@ + path))
    }
}

/// The view of a routed request.
pub open spec fn routed_view(r: Result<Request, (u16, String)>) -> Result<
    RequestView,
    (u16, Seq<char>),
> {
    match r {
        Ok(x) => Ok(x@),
        Err((code, msg)) => Err((code, msg@)),
    }
}

fn refuse_body(why: &str) -> (r: (u16, String))
    ensures
        r.0 == 400 && r.1@ == bad_body(why@),
{
    (400, concat2("bad request body: ", why))
}

/// What a request asks for, or the status and message of the refusal; `parsed` is its
/// body read as JSON.
pub fn route_parsed(
    method: &str,
    path: &str,
    parsed: Result<Json, String>,
    default_lease: Duration,
) -> (r: Result<Request, (u16, String)>)
    ensures
        routed_view(r) == routed(method@, path@, parse_view(parsed), default_lease@),
{
    if !str_eq(method, "POST") {
        return Err((405, concat2(method, " not allowed (POST only)")));
    }
    let lease: bool = str_eq(path, "/v1/lease");
    let result: bool = str_eq(path, "/v1/result");
    let interruption: bool = str_eq(path, "/v1/interruption");
    if !(lease || result || interruption) {
        return Err((404, concat2("no route for ", path)));
    }
    let j: Json = match parsed {
        Ok(j) => j,
        Err(e) => {
            return Err(refuse_body(e.as_str()));
        },
    };
    if lease {
        match LeasePull::from_json(&j) {
            Some(p) => {
                let lease_for: Duration = if p.lease_secs == 0 {
                    default_lease
                } else {
                    Duration::from_secs(p.lease_secs)
                };
                Ok(Request::Lease { max: p.max as usize, lease_for })
            },
            None => Err(refuse_body("not a lease pull")),
        }
    } else if result {
        match ResultPost::from_json(&j) {
            Some(p) => Ok(Request::Result(p)),
            None => Err(refuse_body("not a result post")),
        }
    } else {
        match InterruptionNotice::from_json(&j) {
            Some(n) => Ok(Request::Interruption(n)),
            None => Err(refuse_body("not an interruption notice")),
        }
    }
}

/// What a request asks for, or the status and message of the refusal.
pub fn route(method: &str, path: &str, body: &str, default_lease: Duration) -> (r: Result<
    Request,
    (u16, String),
>)
    ensures
        routed_view(r) == routed(method@, path@, json_parse(body@), default_lease@),
{
    route_parsed(method, path, parse_json(body), default_lease)
}

/// The status and message for an error inside the coordinator.
pub fn internal(e: &ForgeError) -> (r: (u16, String))
    ensures
        r.0 == 500,
        r.1@ == error_text(*e),
{
    (500, e.to_string())
}

/// The attempts that were spent on an item before its lease, which counted one more.
pub open spec fn spent_before(attempts: u32) -> u32 {
    if attempts == 0 {
        0
    } else {
        (attempts - 1) as u32
    }
}

/// A leased item on the wire: the attempts that the queue counted on lease are the
/// generation that fences the result.
pub open spec fn wire_item(i: ItemView) -> WireItemView {
    WireItemView {
        custom_id: i.custom_id,
        method: i.method,
        url: i.url,
        body: i.body,
        lease_generation: i.attempts as u64,
        attempts: spent_before(i.attempts),
    }
}

/// A leased item on the wire.
pub fn item_to_wire(it: &Item) -> (w: WireItem)
    ensures
        w@ == wire_item(it@),
{
    WireItem {
        custom_id: it.custom_id.as_str().to_owned(),
        method: it.method.as_str().to_owned(),
        url: it.url.as_str().to_owned(),
        body: it.body.duplicate(),
        lease_generation: it.attempts as u64,
        attempts: it.attempts.saturating_sub(1),
    }
}

/// Leased items on the wire.
pub open spec fn wire_items(items: Seq<ItemView>) -> Seq<WireItemView> {
    items.map_values(|i: ItemView| wire_item(i))
}

/// The grant of leased items.
pub fn grant_of_items(items: &[Item]) -> (g: LeaseGrant)
    ensures
        g@ == wire_items(crate::types::item_views(items@)),
{
    let ghost all = crate::types::item_views(items@);
    let mut out: Vec<WireItem> = Vec::new();
    let mut i: usize = 0;
    assert(wire_views(out@) == wire_items(all.take(0)));
    while i < items.len()
        invariant
            i <= items@.len(),
            all == crate::types::item_views(items@),
            wire_views(out@) == wire_items(all.take(i as int)),
        decreases items@.len() - i,
    {
        let ghost before = out@;
        out.push(item_to_wire(&items[i]));
        proof {
            assert(wire_views(out@) == wire_views(before).push(wire_item(all[i as int])));
            assert(wire_items(all.take(i + 1)) == wire_items(all.take(i as int)).push(
                wire_item(all[i as int]),
            ));
        }
        i = i + 1;
    }
    assert(all.take(all.len() as int) == all);
    LeaseGrant { items: out }
}

/// The reply to a lease: the grant in JSON.
pub fn lease_reply(items: &[Item]) -> (text: String)
    requires
        forall|i: int| 0 <= i < items@.len() ==> canonical((#[trigger] items@[i]).body@),
    ensures
        text@ == json_text(grant_json(wire_items(crate::types::item_views(items@)))),
{
    let grant: LeaseGrant = grant_of_items(items);
    proof {
        assert forall|i: int| 0 <= i < grant@.len() implies canonical(
            (#[trigger] grant@[i]).body,
        ) by {
            assert(canonical(items@[i].body@));
        }
        crate::wire::law_grant_round_trip(grant@);
    }
    render_json(&grant.to_json())
}

/// The reply to a result: whether its transition applied.
pub fn result_reply(acked: bool) -> (text: String)
    ensures
        text@ == json_text(ack_json(AckReply { acked })),
{
    let ack: AckReply = AckReply { acked };
    proof {
        crate::wire::law_ack_round_trip(ack);
    }
    render_json(&ack.to_json())
}

/// The reply to an interruption notice.
pub fn interruption_reply() -> (text: String)
    ensures
        text@ == "{\"ok\":true}"@,
{
    "{\"ok\":true}".to_owned()
}

/// The attempt that a generation fences: its own number. A generation beyond every
/// attempt was never issued, and matches no lease.
pub open spec fn fence_of(lease_generation: u64) -> Option<u32> {
    if lease_generation <= u32::MAX {
        Some(lease_generation as u32)
    } else {
        None
    }
}

fn fence(lease_generation: u64) -> (r: Option<u32>)
    ensures
        r == fence_of(lease_generation),
{
    if lease_generation <= 0xffff_ffff {
        Some(lease_generation as u32)
    } else {
        None
    }
}

/// The attempt that a result is recorded under: that of its generation, or the greatest.
pub open spec fn recorded_attempt(lease_generation: u64) -> u32 {
    match fence_of(lease_generation) {
        Some(a) => a,
        None => u32::MAX,
    }
}

/// The result that a post makes, completed at a time.
pub open spec fn stored_result(p: ResultPostView, completed_at: i64) -> crate::result::ResultView {
    match p.outcome {
        WireOutcomeView::Done { status_code, response, usage, latency_ms } => crate::result::ResultView {
            custom_id: p.custom_id,
            response: Some(
                crate::result::ResponseView { status_code, request_id: None, body: response },
            ),
            error: None,
            usage: usage_from_wire(usage),
            worker_id: p.worker_id,
            latency_ms,
            attempt: recorded_attempt(p.lease_generation),
            completed_at,
        },
        WireOutcomeView::DeadLetter { error } => crate::result::ResultView {
            custom_id: p.custom_id,
            response: None,
            error: Some(("worker_error"@, error)),
            usage: no_usage(),
            worker_id: p.worker_id,
            latency_ms: 0,
            attempt: recorded_attempt(p.lease_generation),
            completed_at,
        },
    }
}

/// A post that is still to be stored: what to write to the store, and what is owed to
/// the queue afterwards.
pub struct Unapplied {
    write: StoreWrite,
    owed: Option<QueueWrite>,
}

/// The write to the store that a post asks for.
pub open spec fn post_store_write(write: StoreWrite, p: ResultPostView, completed_at: i64) -> bool {
    match write {
        StoreWrite::Put(r) => p.outcome is Done && r@ == stored_result(p, completed_at),
        StoreWrite::DeadLetter(r) => p.outcome is DeadLetter && r@ == stored_result(
            p,
            completed_at,
        ),
    }
}

/// The write to the queue that a post asks for, fenced by its generation; none where no
/// lease has that generation.
pub open spec fn post_queue_write(owed: Option<QueueWrite>, p: ResultPostView) -> bool {
    match owed {
        Some(QueueWrite::Ack { custom_id, attempt }) => p.outcome is Done && custom_id@
            == p.custom_id && fence_of(p.lease_generation) == Some(attempt),
        Some(QueueWrite::DeadLetter { custom_id, attempt, error }) => custom_id@ == p.custom_id
            && fence_of(p.lease_generation) == Some(attempt) && p.outcome
            == (WireOutcomeView::DeadLetter { error: error@ }),
        None => fence_of(p.lease_generation) is None,
    }
}

impl Unapplied {
    /// The write to the store.
    pub closed spec fn spec_write(self) -> StoreWrite {
        self.write
    }

    /// The write to the queue.
    pub closed spec fn spec_owed(self) -> Option<QueueWrite> {
        self.owed
    }

    /// Takes in a post.
    pub fn apply_result(post: &ResultPost, completed_at: i64) -> (u: Self)
        ensures
            post_store_write(u.spec_write(), post@, completed_at),
            post_queue_write(u.spec_owed(), post@),
    {
        let fenced: Option<u32> = fence(post.lease_generation);
        let attempt: u32 = match fenced {
            Some(a) => a,
            None => 0xffff_ffff,
        };
        match &post.outcome {
            WireOutcome::Done { status_code, response, usage, latency_ms } => {
                let result: ItemResult = ItemResult {
                    custom_id: post.custom_id.as_str().to_owned(),
                    response: Some(
                        ItemResponse {
                            status_code: *status_code,
                            request_id: None,
                            body: response.duplicate(),
                        },
                    ),
                    error: None,
                    usage: from_wire_usage(usage),
                    worker_id: post.worker_id.as_str().to_owned(),
                    latency_ms: *latency_ms,
                    attempt,
                    completed_at,
                };
                Unapplied {
                    write: StoreWrite::Put(result),
                    owed: match fenced {
                        Some(a) => Some(
                            QueueWrite::Ack {
                                custom_id: post.custom_id.as_str().to_owned(),
                                attempt: a,
                            },
                        ),
                        None => None,
                    },
                }
            },
            WireOutcome::DeadLetter { error } => {
                let result: ItemResult = ItemResult {
                    custom_id: post.custom_id.as_str().to_owned(),
                    response: None,
                    error: Some(
                        ItemError {
                            code: "worker_error".to_owned(),
                            message: error.as_str().to_owned(),
                        },
                    ),
                    usage: TokenUsage::default(),
                    worker_id: post.worker_id.as_str().to_owned(),
                    latency_ms: 0,
                    attempt,
                    completed_at,
                };
                Unapplied {
                    write: StoreWrite::DeadLetter(result),
                    owed: match fenced {
                        Some(a) => Some(
                            QueueWrite::DeadLetter {
                                custom_id: post.custom_id.as_str().to_owned(),
                                attempt: a,
                                error: error.as_str().to_owned(),
                            },
                        ),
                        None => None,
                    },
                }
            },
        }
    }

    /// What is to be written to the store.
    pub fn write(&self) -> (w: &StoreWrite)
        ensures
            *w == self.spec_write(),
    {
        &self.write
    }

    /// Once the store write is durable: what is owed to the queue. There is no other way
    /// to the queue write.
    pub fn stored(self) -> (r: Option<QueueWrite>)
        ensures
            r == self.spec_owed(),
    {
        self.owed
    }
}

/// The rows of a queue after what is owed to it, and whether a lease was closed.
pub open spec fn settled_rows(rows: Seq<ItemView>, owed: Option<QueueWrite>) -> (Seq<ItemView>, bool) {
    match owed {
        Some(QueueWrite::Ack { custom_id, attempt }) => (
            rows_after_close(rows, custom_id@, attempt, ItemState::Done, None),
            lease_current(rows, custom_id@, attempt),
        ),
        Some(QueueWrite::DeadLetter { custom_id, attempt, error }) => (
            rows_after_close(rows, custom_id@, attempt, ItemState::DeadLetter, Some(error@)),
            lease_current(rows, custom_id@, attempt),
        ),
        None => (rows, false),
    }
}

/// Applies what is owed to the queue. Returns whether a current lease was closed.
pub fn settle_queue(queue: &mut SqliteQueue, owed: &Option<QueueWrite>) -> (acked: bool)
    requires
        old(queue).wf(),
    ensures
        final(queue).wf(),
        final(queue).same_but_rows(*old(queue)),
        (final(queue).spec_rows(), acked) == settled_rows(old(queue).spec_rows(), *owed),
{
    match owed {
        Some(QueueWrite::Ack { custom_id, attempt }) => queue.ack(custom_id.as_str(), *attempt),
        Some(QueueWrite::DeadLetter { custom_id, attempt, error }) => queue.dead_letter(
            custom_id.as_str(),
            *attempt,
            error.as_str(),
        ),
        None => false,
    }
}

/// Two generations never share a fence, and one that is beyond every attempt changes no
/// row and is not acked.
pub proof fn law_generations_are_fenced_apart(
    a: u64,
    b: u64,
    rows: Seq<ItemView>,
    owed: Option<QueueWrite>,
    p: ResultPostView,
)
    requires
        a != b,
        post_queue_write(owed, p),
        p.lease_generation == a,
    ensures
        fence_of(a) is Some ==> fence_of(a) != fence_of(b),
        a > u32::MAX ==> settled_rows(rows, owed) == (rows, false),
{
}

/// What an agent posts for an item it was granted is stored and acked under the id and
/// the generation with which the queue leased it.
pub proof fn law_generation_survives_the_hop(i: ItemView, p: ResultPostView, completed_at: i64)
    requires
        p.custom_id == i.custom_id,
        p.lease_generation == wire_item(i).lease_generation,
    ensures
        fence_of(p.lease_generation) == Some(i.attempts),
        stored_result(p, completed_at).attempt == i.attempts,
        stored_result(p, completed_at).custom_id == i.custom_id,
{
}

/// A coordinator in memory: it hands out queued items in order, and collects posts and
/// notices.
pub struct InProcessCoordinator {
    pending: VecDeque<WireItem>,
    posts: Vec<ResultPost>,
    notices: Vec<InterruptionNotice>,
    drain_armed: bool,
    pulls: usize,
}

/// The state of a coordinator in memory.
pub struct InProcessView {
    pub pending: Seq<WireItemView>,
    pub posts: Seq<ResultPostView>,
    pub notices: Seq<InterruptionNoticeView>,
    pub drain_armed: bool,
}

impl View for InProcessCoordinator {
    type V = InProcessView;

    closed spec fn view(&self) -> InProcessView {
        InProcessView {
            pending: wire_views(self.pending@),
            posts: self.posts@.map_values(|p: ResultPost| p@),
            notices: self.notices@.map_values(|n: InterruptionNotice| n@),
            drain_armed: self.drain_armed,
        }
    }
}

/// The smaller of two counts.
pub open spec fn fewer(a: nat, b: nat) -> nat {
    if a <= b {
        a
    } else {
        b
    }
}

impl InProcessCoordinator {
    /// A coordinator with nothing queued.
    pub fn new() -> (c: Self)
        ensures
            c@.pending == Seq::<WireItemView>::empty(),
            c@.posts == Seq::<ResultPostView>::empty(),
            c@.notices == Seq::<InterruptionNoticeView>::empty(),
            !c@.drain_armed,
    {
        let c: InProcessCoordinator = InProcessCoordinator {
            pending: VecDeque::new(),
            posts: Vec::new(),
            notices: Vec::new(),
            drain_armed: false,
            pulls: 0,
        };
        assert(c@.pending == Seq::<WireItemView>::empty());
        assert(c@.posts == Seq::<ResultPostView>::empty());
        assert(c@.notices == Seq::<InterruptionNoticeView>::empty());
        c
    }

    /// A coordinator with items queued.
    pub fn with_items(items: Vec<WireItem>) -> (c: Self)
        ensures
            c@.pending == wire_views(items@),
            c@.posts == Seq::<ResultPostView>::empty(),
            c@.notices == Seq::<InterruptionNoticeView>::empty(),
            !c@.drain_armed,
    {
        let mut c: InProcessCoordinator = InProcessCoordinator::new();
        let ghost all = items@;
        for item in it: items
            invariant
                it.seq() == all,
                c@.pending == wire_views(all.take(it.index())),
                c@.posts == Seq::<ResultPostView>::empty(),
                c@.notices == Seq::<InterruptionNoticeView>::empty(),
                !c@.drain_armed,
        {
            let ghost i = it.index();
            let ghost before = c.pending@;
            c.pending.push_back(item);
            proof {
                assert(c.pending@ == before.push(item));
                assert(all.take(i + 1) == all.take(i).push(all[i]));
                assert(wire_views(all.take(i + 1)) == wire_views(all.take(i)).push(all[i]@));
                assert(wire_views(c.pending@) == wire_views(before).push(item@));
            }
        }
        assert(all.take(all.len() as int) == all);
        c
    }

    /// Arranges for the latch to be set right after the next pull that is not empty.
    pub fn drain_after_first_pull(&mut self)
        ensures
            final(self)@ == (InProcessView { drain_armed: true, ..old(self)@ }),
    {
        self.drain_armed = true;
    }

    /// Hands out up to `req.max` items in order. Says whether the latch is to be set.
    pub fn pull(&mut self, req: &LeasePull) -> (r: (Vec<WireItem>, bool))
        ensures
            ({
                let n = fewer(req.max as nat, old(self)@.pending.len()) as int;
                &&& wire_views(r.0@) == old(self)@.pending.take(n)
                &&& final(self)@.pending == old(self)@.pending.skip(n)
                &&& r.1 == (n > 0 && old(self)@.drain_armed)
                &&& final(self)@.drain_armed == (old(self)@.drain_armed && !r.1)
            }),
            final(self)@.posts == old(self)@.posts,
            final(self)@.notices == old(self)@.notices,
    {
        let ghost all = self.pending@;
        let len: usize = self.pending.len();
        let take: usize = if (req.max as usize) < len {
            req.max as usize
        } else {
            len
        };
        let mut batch: Vec<WireItem> = Vec::new();
        let mut i: usize = 0;
        assert(all.skip(0) == all);
        assert(all.take(0) == batch@);
        while i < take
            invariant
                i <= take <= all.len(),
                self.pending@ == all.skip(i as int),
                batch@ == all.take(i as int),
                self.posts == old(self).posts,
                self.notices == old(self).notices,
                self.drain_armed == old(self).drain_armed,
            decreases take - i,
        {
            let ghost rest = self.pending@;
            match self.pending.pop_front() {
                Some(w) => {
                    batch.push(w);
                    proof {
                        assert(rest[0] == all[i as int]);
                        assert(rest.skip(1) == all.skip(i + 1));
                        assert(all.take(i + 1) == all.take(i as int).push(all[i as int]));
                    }
                },
                None => {},
            }
            i = i + 1;
        }
        self.pulls = self.pulls.saturating_add(1);
        proof {
            assert(wire_views(all.take(take as int)) == wire_views(all).take(take as int));
            assert(wire_views(all.skip(take as int)) == wire_views(all).skip(take as int));
        }
        let signal: bool = take > 0 && self.drain_armed;
        if signal {
            self.drain_armed = false;
        }
        (batch, signal)
    }

    /// Takes a post.
    pub fn post(&mut self, result: &ResultPost)
        ensures
            final(self)@.posts == old(self)@.posts.push(result@),
            final(self)@.pending == old(self)@.pending,
            final(self)@.notices == old(self)@.notices,
            final(self)@.drain_armed == old(self)@.drain_armed,
    {
        let ghost before = *self;
        self.posts.push(result.duplicate());
        assert(self@.posts == before@.posts.push(result@));
    }

    /// Takes a notice.
    pub fn notify(&mut self, notice: InterruptionNotice)
        ensures
            final(self)@.notices == old(self)@.notices.push(notice@),
            final(self)@.pending == old(self)@.pending,
            final(self)@.posts == old(self)@.posts,
            final(self)@.drain_armed == old(self)@.drain_armed,
    {
        let ghost before = *self;
        self.notices.push(notice);
        assert(self@.notices == before@.notices.push(notice@));
    }

    /// The posts so far.
    pub fn posts(&self) -> (r: &Vec<ResultPost>)
        ensures
            r@.map_values(|p: ResultPost| p@) == self@.posts,
    {
        &self.posts
    }

    /// The notices so far.
    pub fn notices(&self) -> (r: &Vec<InterruptionNotice>)
        ensures
            r@.map_values(|n: InterruptionNotice| n@) == self@.notices,
    {
        &self.notices
    }

    /// The ids of the items that were never leased, in order.
    pub fn remaining_ids(&self) -> (r: Vec<String>)
        ensures
            views(r@) == self@.pending.map_values(|w: WireItemView| w.custom_id),
    {
        let mut out: Vec<String> = Vec::new();
        let mut i: usize = 0;
        while i < self.pending.len()
            invariant
                i <= self.pending@.len(),
                views(out@) == self@.pending.take(i as int).map_values(
                    |w: WireItemView| w.custom_id,
                ),
            decreases self.pending@.len() - i,
        {
            let ghost before = out@;
            out.push(self.pending[i].custom_id.as_str().to_owned());
            proof {
                assert(views(out@) == views(before).push(self@.pending[i as int].custom_id));
                assert(self@.pending.take(i + 1) == self@.pending.take(i as int).push(
                    self@.pending[i as int],
                ));
                assert(self@.pending.take(i + 1).map_values(|w: WireItemView| w.custom_id)
                    == self@.pending.take(i as int).map_values(
                    |w: WireItemView| w.custom_id,
                ).push(self@.pending[i as int].custom_id));
            }
            i = i + 1;
        }
        assert(self@.pending.take(self@.pending.len() as int) == self@.pending);
        out
    }
}

/// A success that an agent posts is stored as it was posted: the engine's answer, its
/// status, the tokens and the latency, under the id, the worker and the generation of the
/// post; and the lease of just that generation is acked afterwards.
pub proof fn law_posted_success_is_stored_whole(post: &ResultPost, completed_at: i64, u: Unapplied)
    requires
        call_ensures(Unapplied::apply_result, (post, completed_at), u),
        post.outcome is Done,
    ensures
        post.outcome matches WireOutcome::Done { status_code, response, usage, latency_ms } && (
        u.spec_write() matches StoreWrite::Put(r) && r.custom_id@ == post.custom_id@ && r.worker_id@
            == post.worker_id@ && r.error is None && r.latency_ms == latency_ms && r.completed_at
            == completed_at && r.usage.prompt_tokens == usage.prompt_tokens
            && r.usage.completion_tokens == usage.completion_tokens && r.usage.total_tokens
            == usage.total_tokens && r.usage.cached_tokens == 0 && r.usage.reasoning_tokens == 0 && (
        r.response matches Some(resp) && resp.body@ == response@ && resp.status_code == status_code
            && resp.request_id is None) && (post.lease_generation <= u32::MAX ==> r.attempt
            == post.lease_generation)),
        post.lease_generation <= u32::MAX ==> (u.spec_owed() matches Some(
            QueueWrite::Ack { custom_id, attempt },
        ) && custom_id@ == post.custom_id@ && attempt == post.lease_generation),
        post.lease_generation > u32::MAX ==> u.spec_owed() is None,
{
}

/// A failure that an agent posts is stored as a dead letter with its message, and the
/// lease of just that generation is closed with the same message.
pub proof fn law_posted_failure_is_stored_as_dead(post: &ResultPost, completed_at: i64, u: Unapplied)
    requires
        call_ensures(Unapplied::apply_result, (post, completed_at), u),
        post.outcome is DeadLetter,
    ensures
        post.outcome matches WireOutcome::DeadLetter { error } && (
        u.spec_write() matches StoreWrite::DeadLetter(r) && r.custom_id@ == post.custom_id@
            && r.worker_id@ == post.worker_id@ && r.response is None && r.completed_at
            == completed_at && (r.error matches Some(e) && e.message@ == error@ && e.code@
            == "worker_error"@) && r.usage.total_tokens == 0 && r.usage.prompt_tokens == 0
            && r.usage.completion_tokens == 0 && (post.lease_generation <= u32::MAX ==> r.attempt
            == post.lease_generation)),
        post.lease_generation <= u32::MAX ==> (post.outcome matches WireOutcome::DeadLetter {
            error,
        } && u.spec_owed() matches Some(QueueWrite::DeadLetter { custom_id, attempt, error: why })
            && custom_id@ == post.custom_id@ && attempt == post.lease_generation && why@ == error@),
        post.lease_generation > u32::MAX ==> u.spec_owed() is None,
{
}

/// Over the whole hop, from the agent's result through its post to the store: a success
/// keeps its id, body, status, headline tokens and latency; anything else is stored as a
/// dead letter.
pub proof fn law_results_survive_the_hop(
    worker_id: &str,
    lease_generation: u64,
    r: &ItemResult,
    post: ResultPost,
    completed_at: i64,
    u: Unapplied,
)
    requires
        call_ensures(crate::agent::result_to_post, (worker_id, lease_generation, r), post),
        call_ensures(Unapplied::apply_result, (&post, completed_at), u),
    ensures
        r.error is None && r.response is Some ==> (u.spec_write() matches StoreWrite::Put(t)
            && t.custom_id@ == r.custom_id@ && t.worker_id@ == worker_id@ && t.error is None
            && t.response is Some && t.response->0.body@ == r.response->0.body@
            && t.response->0.status_code == r.response->0.status_code && t.usage.prompt_tokens
            == r.usage.prompt_tokens && t.usage.completion_tokens == r.usage.completion_tokens
            && t.usage.total_tokens == r.usage.total_tokens && t.latency_ms == r.latency_ms
            && t.completed_at == completed_at),
        r.error is Some || r.response is None ==> (u.spec_write() matches StoreWrite::DeadLetter(t)
            && t.custom_id@ == r.custom_id@ && t.worker_id@ == worker_id@ && t.response is None
            && t.error is Some && (r.error matches Some(e) ==> t.error->0.message@ == e.code@ + ": "@
            + e.message@)),
        lease_generation <= u32::MAX ==> u.spec_owed() is Some,
{
}

/// A leased item reaches the engine as the queue holds it: the same id, method, path and
/// payload. Its lease generation is the attempt that the lease counted, and the attempts
/// spent before do not count that one.
pub proof fn law_items_survive_the_hop(it: &Item, w: WireItem, run: Item)
    requires
        call_ensures(item_to_wire, (it,), w),
        call_ensures(crate::agent::wire_to_item, (&w,), run),
    ensures
        run.custom_id@ == it.custom_id@,
        run.method@ == it.method@,
        run.url@ == it.url@,
        run.body@ == it.body@,
        run.status == ItemState::Leased,
        w.lease_generation == it.attempts,
        it.attempts > 0 ==> run.attempts + 1 == it.attempts,
        it.attempts == 0 ==> run.attempts == 0,
{
}

/// A grant carries every leased item, in order, each with its request and the attempt that
/// fences it; and the reply to a lease is that grant.
pub proof fn law_grants_carry_every_item(items: &[Item], g: LeaseGrant, j: Json, text: String)
    requires
        call_ensures(grant_of_items, (items,), g),
        call_ensures(LeaseGrant::to_json, (&g,), j),
        call_ensures(lease_reply, (items,), text),
    ensures
        g.items@.len() == items@.len(),
        forall|i: int|
            0 <= i < items@.len() ==> (#[trigger] g.items@[i]).custom_id@ == items@[i].custom_id@
                && g.items@[i].method@ == items@[i].method@ && g.items@[i].url@ == items@[i].url@
                && g.items@[i].body@ == items@[i].body@ && g.items@[i].lease_generation
                == items@[i].attempts,
        text@ == json_text(j@),
{
    let all = wire_items(crate::types::item_views(items@));
    assert(g@ == all);
    assert forall|i: int| 0 <= i < items@.len() implies (#[trigger] g.items@[i]).custom_id@
        == items@[i].custom_id@ && g.items@[i].method@ == items@[i].method@ && g.items@[i].url@
        == items@[i].url@ && g.items@[i].body@ == items@[i].body@ && g.items@[i].lease_generation
        == items@[i].attempts by {
        assert(g@[i] == g.items@[i]@);
        assert(all[i] == wire_item(items@[i]@));
    }
}

/// What an agent sends is what the coordinator takes it for: a pull asks for a lease of
/// that many items, for the span that it names or the default where it names none; a post
/// and a notice arrive as they were sent.
pub proof fn law_requests_arrive_as_sent(
    pull: &LeasePull,
    pull_json: Json,
    post: &ResultPost,
    post_json: Json,
    notice: &InterruptionNotice,
    notice_json: Json,
    default_lease: Duration,
    r1: Result<Request, (u16, String)>,
    r2: Result<Request, (u16, String)>,
    r3: Result<Request, (u16, String)>,
    path1: &str,
    path2: &str,
    path3: &str,
    verb: &str,
)
    requires
        verb@ == "POST"@,
        path1@ == "/v1/lease"@,
        path2@ == "/v1/result"@,
        path3@ == "/v1/interruption"@,
        call_ensures(LeasePull::to_json, (pull,), pull_json),
        call_ensures(ResultPost::to_json, (post,), post_json),
        call_ensures(InterruptionNotice::to_json, (notice,), notice_json),
        call_ensures(route_parsed, (verb, path1, Ok(pull_json), default_lease), r1),
        call_ensures(route_parsed, (verb, path2, Ok(post_json), default_lease), r2),
        call_ensures(route_parsed, (verb, path3, Ok(notice_json), default_lease), r3),
    ensures
        r1 matches Ok(Request::Lease { max, lease_for }) && max == pull.max && lease_for@
            == if pull.lease_secs == 0 {
            default_lease@
        } else {
            pull.lease_secs as nat * 1_000_000_000
        },
        r2 matches Ok(Request::Result(p)) && p@ == post@,
        r3 matches Ok(Request::Interruption(n)) && n@ == notice@,
{
    reveal_strlit("/v1/lease");
    reveal_strlit("/v1/result");
    reveal_strlit("/v1/interruption");
    assert("/v1/lease"@.len() == 9 && "/v1/result"@.len() == 10 && "/v1/interruption"@.len() == 16);
    crate::wire::law_pull_round_trip(pull@);
    crate::wire::law_post_round_trip(post@);
    crate::wire::law_notice_round_trip(notice@);
}

/// Whatever it is asked, the coordinator serves nothing but a POST to one of its three
/// routes with a body that can be read; each refusal has its status.
pub proof fn law_other_requests_are_refused(
    method: &str,
    path: &str,
    parsed: Result<Json, String>,
    default_lease: Duration,
    r: Result<Request, (u16, String)>,
)
    requires
        call_ensures(route_parsed, (method, path, parsed, default_lease), r),
    ensures
        method@ != "POST"@ ==> r matches Err((405, _)),
        method@ == "POST"@ && path@ != "/v1/lease"@ && path@ != "/v1/result"@ && path@
            != "/v1/interruption"@ ==> r matches Err((404, _)),
        method@ == "POST"@ && (path@ == "/v1/lease"@ || path@ == "/v1/result"@ || path@
            == "/v1/interruption"@) && parsed is Err ==> r matches Err((400, _)),
        r is Ok ==> method@ == "POST"@ && parsed is Ok,
        r matches Ok(Request::Lease { .. }) ==> path@ == "/v1/lease"@,
        r matches Ok(Request::Result(_)) ==> path@ == "/v1/result"@,
        r matches Ok(Request::Interruption(_)) ==> path@ == "/v1/interruption"@,
{
}

/// A request that could not be sent is sent again up to four times within two and a half
/// minutes, after waits that grow by 50 ms each.
pub proof fn law_resends_are_bounded(resends: u32, elapsed: Duration, r: Option<Duration>)
    requires
        call_ensures(resend_after, (resends, elapsed), r),
    ensures
        r is Some <==> resends < 4 && elapsed@ < 150_000_000_000,
        r matches Some(wait) ==> wait@ == 50_000_000 * (resends + 1),
{
}

/// A post is acked just where its item is leased at the generation of the post. The row of
/// that item is then closed by the post's outcome, and every other row is as it was.
pub proof fn law_a_post_closes_its_own_lease(
    post: &ResultPost,
    completed_at: i64,
    u: Unapplied,
    before: SqliteQueue,
    after: SqliteQueue,
    acked: bool,
)
    requires
        before.wf(),
        call_ensures(Unapplied::apply_result, (post, completed_at), u),
        exists|q: &mut SqliteQueue|
            *q == before && *final(q) == after && #[trigger] call_ensures(
                settle_queue,
                (q, &u.spec_owed()),
                acked,
            ),
    ensures
        acked == exists|i: int|
            0 <= i < before.spec_rows().len() && (#[trigger] before.spec_rows()[i]).custom_id
                == post.custom_id@ && before.spec_rows()[i].status == ItemState::Leased
                && before.spec_rows()[i].attempts == post.lease_generation,
        after.spec_rows().len() == before.spec_rows().len(),
        forall|i: int|
            0 <= i < before.spec_rows().len() ==> {
                let old = #[trigger] before.spec_rows()[i];
                let new = after.spec_rows()[i];
                if old.custom_id == post.custom_id@ && old.status == ItemState::Leased
                    && old.attempts == post.lease_generation {
                    &&& new.status == if post.outcome is Done {
                        ItemState::Done
                    } else {
                        ItemState::DeadLetter
                    }
                    &&& new.custom_id == old.custom_id
                    &&& new.attempts == old.attempts
                    &&& new.leased_by is None
                    &&& new.leased_until is None
                    &&& post.outcome is Done ==> new.last_error == old.last_error
                    &&& post.outcome matches WireOutcome::DeadLetter { error } ==> new.last_error
                        == Some(error@)
                } else {
                    new == old
                }
            },
{
    let rows = before.spec_rows();
    let g = post.lease_generation;
    if acked {
        let i = choose|i: int|
            0 <= i < rows.len() && crate::queue::holds_lease(
                #[trigger] rows[i],
                post.custom_id@,
                g as u32,
            );
        assert(rows[i].custom_id == post.custom_id@);
    }
    if exists|i: int|
        0 <= i < rows.len() && (#[trigger] rows[i]).custom_id == post.custom_id@ && rows[i].status
            == ItemState::Leased && rows[i].attempts == g {
        let i = choose|i: int|
            0 <= i < rows.len() && (#[trigger] rows[i]).custom_id == post.custom_id@
                && rows[i].status == ItemState::Leased && rows[i].attempts == g;
        assert(crate::queue::holds_lease(rows[i], post.custom_id@, g as u32));
    }
}

/// A reply counts as one just where its status is a success; any other is told as a
/// failure of the transport, with the path and the status.
pub proof fn law_only_successes_are_replies(
    path: &str,
    status: u16,
    status_text: &str,
    r: Result<(), ForgeError>,
)
    requires
        call_ensures(check_reply, (path, status, status_text), r),
    ensures
        r is Ok <==> 200 <= status < 300,
        r is Err ==> error_text(r->Err_0) == "worker: transport: "@ + path@ + " → HTTP "@
            + status_text@,
{
    reveal_strlit("worker: ");
    reveal_strlit("transport: ");
    reveal_strlit("worker: transport: ");
    assert("worker: "@ + "transport: "@ == "worker: transport: "@);
    if r is Err {
        assert(error_text(r->Err_0) == "worker: transport: "@ + path@ + " → HTTP "@ + status_text@);
    }
}

/// The URL of a route is the base, without the slashes at its end, and the path.
pub proof fn law_routes_stand_below_the_base(base: &str, path: &str, r: String, n: nat)
    requires
        call_ensures(route_url, (base, path), r),
        n <= base@.len(),
        forall|i: int| n <= i < base@.len() ==> base@[i] == '/',
        n > 0 ==> base@[n - 1] != '/',
    ensures
        r@ == base@.take(n as int) + path@,
{
    lemma_slashes_go(base@, n);
}

proof fn lemma_slashes_go(s: Seq<char>, n: nat)
    requires
        n <= s.len(),
        forall|i: int| n <= i < s.len() ==> s[i] == '/',
        n > 0 ==> s[n - 1] != '/',
    ensures
        trim_end_char(s, '/') == s.take(n as int),
    decreases s.len(),
{
    if s.len() > n {
        lemma_slashes_go(s.drop_last(), n);
        assert(s.drop_last().take(n as int) == s.take(n as int));
    } else {
        assert(s.take(n as int) == s);
    }
}

/// An error inside the coordinator is answered as one, with what it says.
pub proof fn law_inner_errors_are_told(e: &ForgeError, r: (u16, String))
    requires
        call_ensures(internal, (e,), r),
    ensures
        r.0 == 500,
        *e matches ForgeError::Queue(m) ==> r.1@ == "queue: "@ + m@,
        *e matches ForgeError::Store(m) ==> r.1@ == "store: "@ + m@,
        *e matches ForgeError::Json(m) ==> r.1@ == "json: "@ + m@,
{
}

/// Whether a result was taken is what the agent reads in the reply.
pub proof fn law_acks_are_read_back(acked: bool, text: String, ack: AckReply, j: Json)
    requires
        call_ensures(result_reply, (acked,), text),
        ack.acked == acked,
        call_ensures(AckReply::to_json, (&ack,), j),
    ensures
        text@ == json_text(j@),
        j@.get("acked"@) == Some(JsonView::Bool(acked)),
{
    assert(ack == AckReply { acked });
    let m = j@->Object_0;
    assert(m[0].0 == "acked"@);
}

/// Items that are queued in one process come out in order, each once: a pull takes as
/// many as it asks for or as there are from the front, and leaves the rest; the latch is
/// set once, at the first pull that brings something.
pub proof fn law_queued_items_are_pulled_once(
    before: InProcessCoordinator,
    after: InProcessCoordinator,
    req: &LeasePull,
    r: (Vec<WireItem>, bool),
)
    requires
        exists|m: &mut InProcessCoordinator|
            *m == before && *final(m) == after && #[trigger] call_ensures(
                InProcessCoordinator::pull,
                (m, req),
                r,
            ),
    ensures
        wire_views(r.0@) + after@.pending == before@.pending,
        r.0@.len() <= req.max,
        r.0@.len() < req.max ==> after@.pending.len() == 0,
        r.1 <==> before@.drain_armed && r.0@.len() > 0,
        r.1 ==> !after@.drain_armed,
        !r.1 ==> after@.drain_armed == before@.drain_armed,
        after@.posts == before@.posts && after@.notices == before@.notices,
{
    let n = wire_views(r.0@).len() as int;
    assert(wire_views(r.0@).len() == r.0@.len());
    assert(before@.pending.take(n) + before@.pending.skip(n) == before@.pending);
}


/// What is posted and told in one process is kept in order, and queues nothing.
pub proof fn law_posts_and_notices_are_kept(
    before: InProcessCoordinator,
    posted: InProcessCoordinator,
    told: InProcessCoordinator,
    result: &ResultPost,
    notice: InterruptionNotice,
)
    requires
        exists|m: &mut InProcessCoordinator|
            *m == before && *final(m) == posted && #[trigger] call_ensures(
                InProcessCoordinator::post,
                (m, result),
                (),
            ),
        exists|m: &mut InProcessCoordinator|
            *m == before && *final(m) == told && #[trigger] call_ensures(
                InProcessCoordinator::notify,
                (m, notice),
                (),
            ),
    ensures
        posted@.posts.len() == before@.posts.len() + 1 && posted@.posts.last() == result@,
        posted@.posts.drop_last() == before@.posts,
        told@.notices.len() == before@.notices.len() + 1 && told@.notices.last() == notice@,
        posted@.pending == before@.pending && told@.pending == before@.pending,
{
    assert(posted@.posts.drop_last() == before@.posts);
}

/// A text that is sent to the coordinator is read as JSON, and served as the JSON is.
pub proof fn law_requests_are_read_as_json(
    method: &str,
    path: &str,
    body: &str,
    default_lease: Duration,
    parsed: Result<Json, String>,
    r: Result<Request, (u16, String)>,
    read: Result<Request, (u16, String)>,
)
    requires
        call_ensures(route, (method, path, body, default_lease), r),
        call_ensures(parse_json, (body,), parsed),
        call_ensures(route_parsed, (method, path, parsed, default_lease), read),
    ensures
        routed_view(r) == routed_view(read),
        r is Ok <==> read is Ok,
{
}


} // verus!

//! The co-located drain agent.
//!
//! An agent fronts one engine on a spot box. It pulls a batch from the coordinator only
//! while the engine is ready, runs it, posts every result, and stops pulling the moment
//! an interruption notice latches. What it has not pulled is re-queued by lease expiry.

use vstd::prelude::*;

use crate::duration::Duration;
use crate::spot::{AwsSpot, AzureSpot, Cloud, GcpSpot, InterruptionSource, Notice, NoticeKind};
use crate::state::ItemState;
use crate::text::{
    ascii_lower, ascii_lower_chars, concat3, opt_view, quote, quoted, str_eq, string_from, trim,
    trim_str,
};
use crate::types::{duplicate_opt, EndpointKind, Item, ItemResult, ItemView, TokenUsage};
use crate::wire::{
    InterruptionNotice, InterruptionNoticeView, LeasePull, LeasePullView, ResultPost, WireItem,
    WireItemView, WireOutcome, WireOutcomeView, WireUsage,
};

verus! {

/// A one-way latch from running to draining. There is no way back: the VM goes away.
///
/// The latch is one place, which its holders share by reference: it cannot be copied, so
/// that no holder is left with a latch that misses the signal.
#[derive(Debug, PartialEq, Eq, Structural)]
pub struct Drain {
    draining: bool,
}

impl Default for Drain {
    fn default() -> (d: Self)
        ensures
            !d.spec_draining(),
    {
        Drain { draining: false }
    }
}

impl Drain {
    /// The latch is set.
    pub closed spec fn spec_draining(self) -> bool {
        self.draining
    }

    /// A latch that is not set.
    pub fn new() -> (d: Self)
        ensures
            !d.spec_draining(),
    {
        Drain { draining: false }
    }

    /// Whether a notice has fired.
    pub fn is_draining(&self) -> (r: bool)
        ensures
            r == self.spec_draining(),
    {
        self.draining
    }

    /// Sets the latch; does nothing the second time.
    pub fn signal(&mut self)
        ensures
            final(self).spec_draining(),
    {
        self.draining = true;
    }
}

/// How the agent paces itself.
#[derive(Debug, Clone)]
pub struct AgentConfig {
    /// The engine that the agent fronts.
    pub worker_id: String,
    /// Most items of a pull.
    pub max_lease: u32,
    /// The visibility timeout to ask for, in seconds.
    pub lease_secs: u64,
    /// The wait between polls when nothing is ready or the engine is unhealthy.
    pub poll_idle: Duration,
    /// Exit after this many empty grants in a row; zero means never.
    pub max_idle_polls: u32,
}

impl Default for AgentConfig {
    fn default() -> (c: Self)
        ensures
            c.worker_id@ == "agent"@,
            c.max_lease == 64,
            c.lease_secs == 120,
            c.poll_idle@ == 500 * 1_000_000,
            c.max_idle_polls == 0,
    {
        AgentConfig {
            worker_id: "agent".to_owned(),
            max_lease: 64,
            lease_secs: 120,
            poll_idle: Duration::from_millis(500),
            max_idle_polls: 0,
        }
    }
}

/// What the run loop did. The counts stop at their largest value.
#[derive(Debug, Clone, Copy, PartialEq, Eq, Structural)]
pub struct AgentStats {
    /// Items run and posted.
    pub processed: usize,
    /// Of those, terminal failures.
    pub dead_lettered: usize,
    /// Empty pulls.
    pub idle_polls: usize,
    /// The loop exited because the latch was set.
    pub drained: bool,
}

impl Default for AgentStats {
    fn default() -> (s: Self)
        ensures
            s == no_stats(),
    {
        AgentStats { processed: 0, dead_lettered: 0, idle_polls: 0, drained: false }
    }
}

/// Nothing done.
pub open spec fn no_stats() -> AgentStats {
    AgentStats { processed: 0, dead_lettered: 0, idle_polls: 0, drained: false }
}

/// The item that a worker runs for a leased one: its request fields and attempts carry
/// over.
pub open spec fn leased_item(w: WireItemView) -> ItemView {
    ItemView {
        custom_id: w.custom_id,
        method: w.method,
        url: w.url,
        body: w.body,
        status: ItemState::Leased,
        attempts: w.attempts,
        leased_until: None,
        leased_by: None,
        last_error: None,
    }
}

/// The item that a worker runs for a leased one.
pub fn wire_to_item(w: &WireItem) -> (i: Item)
    ensures
        i@ == leased_item(w@),
{
    Item {
        custom_id: w.custom_id.as_str().to_owned(),
        method: w.method.as_str().to_owned(),
        url: w.url.as_str().to_owned(),
        body: w.body.duplicate(),
        status: ItemState::Leased,
        attempts: w.attempts,
        leased_until: None,
        leased_by: None,
        last_error: None,
    }
}

/// The counts on the wire: the three headline counts.
pub open spec fn wire_usage(u: TokenUsage) -> WireUsage {
    WireUsage {
        prompt_tokens: u.prompt_tokens,
        completion_tokens: u.completion_tokens,
        total_tokens: u.total_tokens,
    }
}

/// The counts from the wire; the detail that the wire does not carry is zero.
pub open spec fn usage_from_wire(u: WireUsage) -> TokenUsage {
    TokenUsage {
        prompt_tokens: u.prompt_tokens,
        completion_tokens: u.completion_tokens,
        total_tokens: u.total_tokens,
        cached_tokens: 0,
        reasoning_tokens: 0,
    }
}

/// The counts on the wire.
pub fn to_wire_usage(u: &TokenUsage) -> (r: WireUsage)
    ensures
        r == wire_usage(*u),
{
    WireUsage {
        prompt_tokens: u.prompt_tokens,
        completion_tokens: u.completion_tokens,
        total_tokens: u.total_tokens,
    }
}

/// The counts from the wire.
pub fn from_wire_usage(u: &WireUsage) -> (r: TokenUsage)
    ensures
        r == usage_from_wire(*u),
{
    TokenUsage {
        prompt_tokens: u.prompt_tokens,
        completion_tokens: u.completion_tokens,
        total_tokens: u.total_tokens,
        cached_tokens: 0,
        reasoning_tokens: 0,
    }
}

/// The headline counts survive the wire.
pub proof fn law_usage_survives_the_wire(u: TokenUsage)
    ensures
        usage_from_wire(wire_usage(u)).prompt_tokens == u.prompt_tokens,
        usage_from_wire(wire_usage(u)).completion_tokens == u.completion_tokens,
        usage_from_wire(wire_usage(u)).total_tokens == u.total_tokens,
        wire_usage(usage_from_wire(wire_usage(u))) == wire_usage(u),
{
}

/// The outcome of a result: a response without an error is a success, anything else a
/// terminal failure.
pub open spec fn posted_outcome(r: crate::result::ResultView) -> WireOutcomeView {
    match (r.response, r.error) {
        (Some(resp), None) => WireOutcomeView::Done {
            status_code: resp.status_code,
            response: resp.body,
            usage: wire_usage(r.usage),
            latency_ms: r.latency_ms,
        },
        (_, Some(e)) => WireOutcomeView::DeadLetter { error: e.0 + ": "@ + e.1 },
        (None, None) => WireOutcomeView::DeadLetter { error: "terminal failure"@ },
    }
}

/// The post of a finished item, fenced by the generation of its lease.
pub fn result_to_post(worker_id: &str, lease_generation: u64, r: &ItemResult) -> (p: ResultPost)
    ensures
        p.custom_id@ == r.custom_id@,
        p.lease_generation == lease_generation,
        p.worker_id@ == worker_id@,
        p.outcome@ == posted_outcome(r@),
{
    let outcome: WireOutcome = match &r.error {
        Some(e) => WireOutcome::DeadLetter {
            error: concat3(e.code.as_str(), ": ", e.message.as_str()),
        },
        None => match &r.response {
            Some(resp) => WireOutcome::Done {
                status_code: resp.status_code,
                response: resp.body.duplicate(),
                usage: to_wire_usage(&r.usage),
                latency_ms: r.latency_ms,
            },
            None => WireOutcome::DeadLetter { error: "terminal failure".to_owned() },
        },
    };
    ResultPost {
        custom_id: r.custom_id.as_str().to_owned(),
        lease_generation,
        worker_id: worker_id.to_owned(),
        outcome,
    }
}

impl AgentConfig {
    /// The request for the next batch.
    pub fn pull(&self) -> (p: LeasePull)
        ensures
            p@ == (LeasePullView {
                worker_id: self.worker_id@,
                max: self.max_lease,
                lease_secs: self.lease_secs,
            }),
    {
        LeasePull {
            worker_id: self.worker_id.as_str().to_owned(),
            max: self.max_lease,
            lease_secs: self.lease_secs,
        }
    }

    /// How many items of a batch run at once.
    pub fn width(&self) -> (n: u32)
        ensures
            n == if self.max_lease < 1 {
                1
            } else {
                self.max_lease
            },
    {
        if self.max_lease < 1 {
            1
        } else {
            self.max_lease
        }
    }

    /// The post of a leased item that a worker has run, and whether it is a dead letter.
    /// An error of the worker becomes a terminal failure, so that no item is dropped.
    pub fn finished(
        &self,
        w: &WireItem,
        outcome: Result<ItemResult, crate::error::ForgeError>,
        now: i64,
    ) -> (r: (ResultPost, bool))
        ensures
            r.0.lease_generation == w.lease_generation,
            r.0.worker_id@ == self.worker_id@,
            r.1 == (r.0.outcome@ is DeadLetter),
            match outcome {
                Ok(result) => r.0.custom_id@ == result.custom_id@ && r.0.outcome@
                    == posted_outcome(result@),
                Err(e) => r.0.custom_id@ == w.custom_id@ && r.0.outcome@
                    == (WireOutcomeView::DeadLetter {
                    error: "worker_error"@ + ": "@ + crate::error::error_text(e),
                }),
            },
    {
        let result: ItemResult = match outcome {
            Ok(r) => r,
            Err(e) => ItemResult::failed_at(&wire_to_item(w), self.worker_id.as_str(), &e, now),
        };
        let post: ResultPost = result_to_post(
            self.worker_id.as_str(),
            w.lease_generation,
            &result,
        );
        let dead: bool = matches!(post.outcome, WireOutcome::DeadLetter { .. });
        (post, dead)
    }
}

/// Where the run loop stands.
#[derive(Debug, Clone, Copy, PartialEq, Eq, Structural)]
pub enum AgentPhase {
    /// Before the next pull.
    Top,
    /// The engine is being probed.
    Probing,
    /// A pull is on its way.
    Pulling,
    /// A batch is running.
    Running,
    /// The loop has ended.
    Over,
}

/// What the run loop does next.
#[derive(Debug, Clone, Copy, PartialEq, Eq, Structural)]
pub enum AgentStep {
    /// Probe the engine.
    Probe,
    /// Ask the coordinator for a batch.
    Pull,
    /// Run the batch and post its results.
    Run,
    /// Wait for the idle time, then go on.
    Wait,
    /// Return the stats.
    Exit,
}

/// The state of the run loop.
pub struct AgentView {
    pub phase: AgentPhase,
    pub stats: AgentStats,
    /// Empty grants in a row.
    pub idle: u32,
}

/// At the top: a latch that is set ends the loop, and an engine that is not ready is
/// probed before anything is pulled.
pub open spec fn at_top(a: AgentView, draining: bool, ready: bool) -> (AgentView, AgentStep) {
    if draining {
        (
            AgentView {
                phase: AgentPhase::Over,
                stats: AgentStats { drained: true, ..a.stats },
                ..a
            },
            AgentStep::Exit,
        )
    } else if !ready {
        (AgentView { phase: AgentPhase::Probing, ..a }, AgentStep::Probe)
    } else {
        (AgentView { phase: AgentPhase::Pulling, ..a }, AgentStep::Pull)
    }
}

/// After a probe: an engine that is still not ready is waited for, and that does not
/// count as an idle poll.
pub open spec fn after_probe(a: AgentView, ready: bool) -> (AgentView, AgentStep) {
    if ready {
        (AgentView { phase: AgentPhase::Pulling, ..a }, AgentStep::Pull)
    } else {
        (AgentView { phase: AgentPhase::Top, ..a }, AgentStep::Wait)
    }
}

/// One more, up to the largest value.
pub open spec fn bumped(n: usize) -> usize {
    if n < usize::MAX {
        (n + 1) as usize
    } else {
        n
    }
}

/// After a grant: enough empty ones in a row end the loop, if the config asks for it.
pub open spec fn after_grant(a: AgentView, max_idle_polls: u32, items: nat) -> (
    AgentView,
    AgentStep,
) {
    if items == 0 {
        let idle = if a.idle < u32::MAX {
            (a.idle + 1) as u32
        } else {
            a.idle
        };
        let stats = AgentStats { idle_polls: bumped(a.stats.idle_polls), ..a.stats };
        if max_idle_polls != 0 && idle >= max_idle_polls {
            (AgentView { phase: AgentPhase::Over, stats, idle }, AgentStep::Exit)
        } else {
            (AgentView { phase: AgentPhase::Top, stats, idle }, AgentStep::Wait)
        }
    } else {
        (AgentView { phase: AgentPhase::Running, idle: 0, ..a }, AgentStep::Run)
    }
}

/// The stats with one posted item.
pub open spec fn with_post(s: AgentStats, dead: bool) -> AgentStats {
    AgentStats {
        processed: bumped(s.processed),
        dead_lettered: if dead {
            bumped(s.dead_lettered)
        } else {
            s.dead_lettered
        },
        ..s
    }
}

/// The stats with the posts of a batch, up to the first that failed.
pub open spec fn with_posts(
    s: AgentStats,
    posts: Seq<Result<bool, crate::error::ForgeError>>,
) -> AgentStats
    decreases posts.len(),
{
    if posts.len() == 0 {
        s
    } else {
        match posts[0] {
            Ok(dead) => with_posts(with_post(s, dead), posts.skip(1)),
            Err(_) => s,
        }
    }
}

/// The first post that failed.
pub open spec fn first_failure(posts: Seq<Result<bool, crate::error::ForgeError>>) -> Option<
    crate::error::ForgeError,
>
    decreases posts.len(),
{
    if posts.len() == 0 {
        None
    } else {
        match posts[0] {
            Ok(_) => first_failure(posts.skip(1)),
            Err(e) => Some(e),
        }
    }
}

/// The agent's run loop: it says what to do next, and hears what came of it.
pub struct AgentLoop {
    phase: AgentPhase,
    stats: AgentStats,
    idle: u32,
}

impl View for AgentLoop {
    type V = AgentView;

    closed spec fn view(&self) -> AgentView {
        AgentView { phase: self.phase, stats: self.stats, idle: self.idle }
    }
}

fn bump(n: usize) -> (r: usize)
    ensures
        r == bumped(n),
{
    n.saturating_add(1)
}

impl AgentLoop {
    /// A loop at its start.
    pub fn start() -> (a: Self)
        ensures
            a@ == (AgentView { phase: AgentPhase::Top, stats: no_stats(), idle: 0 }),
    {
        AgentLoop { phase: AgentPhase::Top, stats: AgentStats::default(), idle: 0 }
    }

    /// Where the loop stands.
    pub fn phase(&self) -> (p: AgentPhase)
        ensures
            p == self@.phase,
    {
        self.phase
    }

    /// What the loop did so far.
    pub fn stats(&self) -> (s: AgentStats)
        ensures
            s == self@.stats,
    {
        self.stats
    }

    /// Goes on from the top.
    pub fn check(&mut self, draining: bool, ready: bool) -> (step: AgentStep)
        requires
            old(self)@.phase == AgentPhase::Top,
        ensures
            (final(self)@, step) == at_top(old(self)@, draining, ready),
    {
        if draining {
            self.stats.drained = true;
            self.phase = AgentPhase::Over;
            return AgentStep::Exit;
        }
        if !ready {
            self.phase = AgentPhase::Probing;
            return AgentStep::Probe;
        }
        self.phase = AgentPhase::Pulling;
        AgentStep::Pull
    }

    /// Goes on after a probe.
    pub fn probed(&mut self, ready: bool) -> (step: AgentStep)
        requires
            old(self)@.phase == AgentPhase::Probing,
        ensures
            (final(self)@, step) == after_probe(old(self)@, ready),
    {
        if ready {
            self.phase = AgentPhase::Pulling;
            AgentStep::Pull
        } else {
            self.phase = AgentPhase::Top;
            AgentStep::Wait
        }
    }

    /// Goes on after a grant of `items` items.
    pub fn granted(&mut self, cfg: &AgentConfig, items: usize) -> (step: AgentStep)
        requires
            old(self)@.phase == AgentPhase::Pulling,
        ensures
            (final(self)@, step) == after_grant(old(self)@, cfg.max_idle_polls, items as nat),
    {
        if items == 0 {
            self.stats.idle_polls = bump(self.stats.idle_polls);
            self.idle = self.idle.saturating_add(1);
            if cfg.max_idle_polls != 0 && self.idle >= cfg.max_idle_polls {
                self.phase = AgentPhase::Over;
                return AgentStep::Exit;
            }
            self.phase = AgentPhase::Top;
            return AgentStep::Wait;
        }
        self.idle = 0;
        self.phase = AgentPhase::Running;
        AgentStep::Run
    }

    /// Goes on after a batch: for each item, whether its post was a dead letter, or why
    /// it could not be posted. The first failure ends the loop; its items stay leased
    /// and are re-queued by expiry.
    pub fn ran(&mut self, posts: Vec<Result<bool, crate::error::ForgeError>>) -> (r: Result<
        (),
        crate::error::ForgeError,
    >)
        requires
            old(self)@.phase == AgentPhase::Running,
        ensures
            final(self)@.idle == old(self)@.idle,
            final(self)@.stats == with_posts(old(self)@.stats, posts@),
            match r {
                Ok(_) => first_failure(posts@) is None && final(self)@.phase == AgentPhase::Top,
                Err(e) => first_failure(posts@) == Some(e) && final(self)@.phase
                    == AgentPhase::Over,
            },
    {
        let ghost all = posts@;
        let ghost s0 = self.stats;
        let ghost idle = self.idle;
        assert(all.skip(0) == all);
        for post in it: posts
            invariant
                it.seq() == all,
                all == posts@,
                s0 == old(self)@.stats,
                idle == old(self)@.idle,
                self.idle == idle,
                with_posts(s0, all) == with_posts(self.stats, all.skip(it.index())),
                first_failure(all) == first_failure(all.skip(it.index())),
        {
            let ghost i = it.index();
            proof {
                assert(all.skip(i)[0] == all[i]);
                assert(all.skip(i).skip(1) == all.skip(i + 1));
            }
            match post {
                Ok(dead) => {
                    self.stats.processed = bump(self.stats.processed);
                    if dead {
                        self.stats.dead_lettered = bump(self.stats.dead_lettered);
                    }
                },
                Err(e) => {
                    self.phase = AgentPhase::Over;
                    return Err(e);
                },
            }
        }
        assert(all.skip(all.len() as int) == Seq::<Result<bool, crate::error::ForgeError>>::empty());
        self.phase = AgentPhase::Top;
        Ok(())
    }
}

/// Once the latch is set, nothing is pulled again: whatever the engine says, the next
/// step from the top ends the loop and reports that it drained.
pub proof fn law_draining_stops_pulls(a: AgentView, ready: bool)
    ensures
        at_top(a, true, ready).1 == AgentStep::Exit,
        at_top(a, true, ready).0.stats.drained,
        at_top(a, true, ready).0.phase == AgentPhase::Over,
{
}

/// Nothing is pulled into an engine that is not ready, and waiting for it never counts
/// towards an idle exit.
pub proof fn law_unready_engine_is_not_pulled_into(a: AgentView, draining: bool)
    ensures
        at_top(a, draining, false).1 != AgentStep::Pull,
        after_probe(a, false).1 == AgentStep::Wait,
        after_probe(a, false).0.idle == a.idle,
        after_probe(a, false).0.stats == a.stats,
{
}

/// Without a bound on idle polls, no grant ends the loop.
pub proof fn law_daemon_never_idles_out(a: AgentView, items: nat)
    ensures
        after_grant(a, 0, items).1 != AgentStep::Exit,
{
}

/// Where no post failed, every item of the batch is counted, as long as the counts have
/// room.
pub proof fn law_no_item_is_uncounted(
    s: AgentStats,
    posts: Seq<Result<bool, crate::error::ForgeError>>,
)
    requires
        first_failure(posts) is None,
        s.processed + posts.len() <= usize::MAX,
    ensures
        with_posts(s, posts).processed == s.processed + posts.len(),
    decreases posts.len(),
{
    if posts.len() > 0 {
        law_no_item_is_uncounted(with_post(s, posts[0]->Ok_0), posts.skip(1));
    }
}

/// The name of a cloud on the wire.
pub open spec fn cloud_name(c: Cloud) -> Seq<char> {
    match c {
        Cloud::Aws => "aws"@,
        Cloud::Gcp => "gcp"@,
        Cloud::Azure => "azure"@,
    }
}

/// The name of a notice's kind on the wire.
pub open spec fn kind_name(k: NoticeKind) -> Seq<char> {
    match k {
        NoticeKind::Terminate => "terminate"@,
        NoticeKind::Rebalance => "rebalance"@,
    }
}

/// The name of a cloud on the wire.
pub fn cloud_str(c: Cloud) -> (r: &'static str)
    ensures
        r@ == cloud_name(c),
{
    match c {
        Cloud::Aws => "aws",
        Cloud::Gcp => "gcp",
        Cloud::Azure => "azure",
    }
}

/// The name of a notice's kind on the wire.
pub fn kind_str(k: NoticeKind) -> (r: &'static str)
    ensures
        r@ == kind_name(k),
{
    match k {
        NoticeKind::Terminate => "terminate",
        NoticeKind::Rebalance => "rebalance",
    }
}

/// Handles a notice: sets the latch, and gives the heads-up to forward. The latch comes
/// first; forwarding may fail.
pub fn spot_drain(notice: &Notice, drain: &mut Drain, worker_id: &str) -> (wire: InterruptionNotice)
    ensures
        final(drain).spec_draining(),
        wire@ == (InterruptionNoticeView {
            worker_id: worker_id@,
            cloud: cloud_name(notice.cloud),
            kind: kind_name(notice.kind),
            deadline: opt_view(notice.deadline),
        }),
{
    drain.signal();
    InterruptionNotice {
        worker_id: worker_id.to_owned(),
        cloud: cloud_str(notice.cloud).to_owned(),
        kind: kind_str(notice.kind).to_owned(),
        deadline: duplicate_opt(&notice.deadline),
    }
}

/// The source of interruption notices for a cloud.
pub enum CloudSource {
    Aws(AwsSpot),
    Gcp(GcpSpot),
    Azure(AzureSpot),
}

/// What a selector says: a cloud, none, or nothing that is known.
pub open spec fn selected_cloud(s: Seq<char>) -> Option<Option<Cloud>> {
    let name = ascii_lower(trim(s));
    if name == "none"@ || name.len() == 0 {
        Some(None)
    } else if name == "aws"@ {
        Some(Some(Cloud::Aws))
    } else if name == "gcp"@ {
        Some(Some(Cloud::Gcp))
    } else if name == "azure"@ {
        Some(Some(Cloud::Azure))
    } else {
        None
    }
}

/// A text without the white space around it, in lower case.
pub fn tidy(s: &str) -> (r: String)
    ensures
        r@ == ascii_lower(trim(s@)),
{
    let lower: Vec<char> = ascii_lower_chars(trim_str(s).as_str());
    assert(lower@.subrange(0, lower@.len() as int) == lower@);
    string_from(lower.as_slice(), 0, lower.len())
}

/// Where a cloud's metadata service is.
pub open spec fn metadata_base(c: Cloud) -> Seq<char> {
    match c {
        Cloud::Gcp => "http://metadata.google.internal"@,
        _ => "http://169.254.169.254"@,
    }
}

impl CloudSource {
    /// The cloud of this source.
    pub open spec fn spec_cloud(self) -> Cloud {
        match self {
            CloudSource::Aws(_) => Cloud::Aws,
            CloudSource::Gcp(_) => Cloud::Gcp,
            CloudSource::Azure(_) => Cloud::Azure,
        }
    }

    /// Where its metadata service is.
    pub open spec fn spec_base(self) -> Seq<char> {
        match self {
            CloudSource::Aws(s) => s.spec_base(),
            CloudSource::Gcp(s) => s.spec_base(),
            CloudSource::Azure(s) => s.spec_base(),
        }
    }

    /// The source that a selector names, at its cloud's metadata service; none for `none` or nothing.
    pub fn parse(s: &str) -> (r: Result<Option<CloudSource>, String>)
        ensures
            match r {
                Ok(None) => selected_cloud(s@) == Some(None::<Cloud>),
                Ok(Some(c)) => selected_cloud(s@) == Some(Some(c.spec_cloud())) && c.spec_base()
                    == metadata_base(c.spec_cloud()),
                Err(e) => selected_cloud(s@) is None && e@ == "unknown cloud "@ + quoted(
                    ascii_lower(trim(s@)),
                ) + " (expected aws|gcp|azure|none)"@,
            },
    {
        let name: String = tidy(s);
        proof {
            reveal_strlit("none");
            reveal_strlit("aws");
            reveal_strlit("gcp");
            reveal_strlit("azure");
        }
        if name.as_str().is_empty() || str_eq(name.as_str(), "none") {
            return Ok(None);
        }
        if str_eq(name.as_str(), "aws") {
            return Ok(Some(CloudSource::Aws(AwsSpot::new())));
        }
        if str_eq(name.as_str(), "gcp") {
            return Ok(Some(CloudSource::Gcp(GcpSpot::new())));
        }
        if str_eq(name.as_str(), "azure") {
            return Ok(Some(CloudSource::Azure(AzureSpot::new())));
        }
        Err(
            concat3(
                "unknown cloud ",
                quote(name.as_str()).as_str(),
                " (expected aws|gcp|azure|none)",
            ),
        )
    }

    /// The cloud of this source.
    pub fn cloud(&self) -> (c: Cloud)
        ensures
            c == self.spec_cloud(),
    {
        match self {
            CloudSource::Aws(_) => Cloud::Aws,
            CloudSource::Gcp(_) => Cloud::Gcp,
            CloudSource::Azure(_) => Cloud::Azure,
        }
    }
}

/// The endpoint kind that a name says.
pub open spec fn named_endpoint(s: Seq<char>) -> Option<EndpointKind> {
    let name = ascii_lower(trim(s));
    if name == "chat"@ {
        Some(EndpointKind::Chat)
    } else if name == "completions"@ {
        Some(EndpointKind::Completions)
    } else if name == "embeddings"@ {
        Some(EndpointKind::Embeddings)
    } else {
        None
    }
}

/// The endpoint kind that a name says, or a message.
pub fn endpoint_kind(s: &str) -> (r: Result<EndpointKind, String>)
    ensures
        match r {
            Ok(k) => named_endpoint(s@) == Some(k),
            Err(e) => named_endpoint(s@) is None && e@ == "unknown endpoint "@ + quoted(
                ascii_lower(trim(s@)),
            ) + " (chat|completions|embeddings)"@,
        },
{
    let name: String = tidy(s);
    proof {
        reveal_strlit("chat");
        reveal_strlit("completions");
        reveal_strlit("embeddings");
    }
    if str_eq(name.as_str(), "chat") {
        return Ok(EndpointKind::Chat);
    }
    if str_eq(name.as_str(), "completions") {
        return Ok(EndpointKind::Completions);
    }
    if str_eq(name.as_str(), "embeddings") {
        return Ok(EndpointKind::Embeddings);
    }
    Err(
        concat3(
            "unknown endpoint ",
            quote(name.as_str()).as_str(),
            " (chat|completions|embeddings)",
        ),
    )
}

/// What a worker made of a leased item is posted under the generation of its lease: a
/// success with the engine's answer, its status, headline tokens and latency; an error of
/// the worker as a dead letter of that item, with the error's message.
pub proof fn law_every_outcome_is_posted(
    cfg: &AgentConfig,
    w: &WireItem,
    outcome: Result<ItemResult, crate::error::ForgeError>,
    now: i64,
    r: (ResultPost, bool),
)
    requires
        call_ensures(AgentConfig::finished, (cfg, w, outcome, now), r),
    ensures
        r.0.lease_generation == w.lease_generation,
        r.0.worker_id@ == cfg.worker_id@,
        r.1 == (r.0.outcome is DeadLetter),
        outcome matches Ok(x) ==> r.0.custom_id@ == x.custom_id@ && r.1 == !(x.error is None
            && x.response is Some),
        outcome matches Ok(x) ==> x.error is None && x.response is Some ==> (
        r.0.outcome matches WireOutcome::Done { status_code, response, usage, latency_ms }
            && status_code == x.response->0.status_code && response@ == x.response->0.body@
            && usage.prompt_tokens == x.usage.prompt_tokens && usage.completion_tokens
            == x.usage.completion_tokens && usage.total_tokens == x.usage.total_tokens
            && latency_ms == x.latency_ms),
        outcome matches Err(e) ==> r.1 && r.0.custom_id@ == w.custom_id@ && (
        r.0.outcome matches WireOutcome::DeadLetter { error } && error@ == "worker_error: "@
            + crate::error::error_text(e)),
{
    reveal_strlit("worker_error");
    reveal_strlit(": ");
    reveal_strlit("worker_error: ");
    assert("worker_error: "@ =~= "worker_error"@ + ": "@);
}

/// A config asks for what it says: its worker, its batch and its lease time.
pub proof fn law_pulls_ask_for_the_configured_batch(cfg: &AgentConfig, p: LeasePull, n: u32)
    requires
        call_ensures(AgentConfig::pull, (cfg,), p),
        call_ensures(AgentConfig::width, (cfg,), n),
    ensures
        p.worker_id@ == cfg.worker_id@,
        p.max == cfg.max_lease,
        p.lease_secs == cfg.lease_secs,
        n >= 1,
        n >= cfg.max_lease,
        cfg.max_lease >= 1 ==> n == cfg.max_lease,
{
}

/// From the top, a loop that is not draining pulls as soon as its engine is ready, probes
/// it first where it is not, and pulls after a probe that found it ready.
pub proof fn law_ready_engines_are_pulled_into(a: AgentView)
    ensures
        at_top(a, false, true).1 == AgentStep::Pull,
        at_top(a, false, true).0.phase == AgentPhase::Pulling,
        at_top(a, false, false).1 == AgentStep::Probe,
        at_top(a, false, false).0.phase == AgentPhase::Probing,
        after_probe(a, true).1 == AgentStep::Pull,
        after_probe(a, true).0.phase == AgentPhase::Pulling,
        after_probe(a, false).0.phase == AgentPhase::Top,
        at_top(a, false, true).0.stats == a.stats,
        after_probe(a, true).0.stats == a.stats,
{
}

/// A grant that holds anything is run, and starts the count of empty grants anew; an empty
/// one is counted, and the loop ends at the first that makes the allowed number in a row.
pub proof fn law_grants_run_or_count(a: AgentView, max_idle_polls: u32, items: nat)
    requires
        a.idle < u32::MAX,
        a.stats.idle_polls < usize::MAX,
    ensures
        items > 0 ==> after_grant(a, max_idle_polls, items).1 == AgentStep::Run && after_grant(
            a,
            max_idle_polls,
            items,
        ).0.idle == 0 && after_grant(a, max_idle_polls, items).0.stats == a.stats && after_grant(
            a,
            max_idle_polls,
            items,
        ).0.phase == AgentPhase::Running,
        items == 0 ==> ({
            let (b, step) = after_grant(a, max_idle_polls, items);
            &&& b.idle == a.idle + 1
            &&& b.stats.idle_polls == a.stats.idle_polls + 1
            &&& b.stats.processed == a.stats.processed
            &&& b.stats.drained == a.stats.drained
            &&& step == AgentStep::Exit <==> max_idle_polls > 0 && a.idle + 1 >= max_idle_polls
            &&& step != AgentStep::Exit ==> step == AgentStep::Wait && b.phase == AgentPhase::Top
            &&& step == AgentStep::Exit ==> b.phase == AgentPhase::Over
        }),
{
}

/// The stats count one more dead letter for each post that is one.
pub proof fn law_dead_letters_are_counted(
    s: AgentStats,
    posts: Seq<Result<bool, crate::error::ForgeError>>,
    more: bool,
)
    requires
        forall|i: int| 0 <= i < posts.len() ==> (#[trigger] posts[i]) is Ok,
        s.processed + posts.len() < usize::MAX,
        s.dead_lettered + posts.len() < usize::MAX,
    ensures
        with_posts(s, posts).dead_lettered <= s.dead_lettered + posts.len(),
        with_posts(s, posts.push(Ok(more))).processed == with_posts(s, posts).processed + 1,
        with_posts(s, posts.push(Ok(more))).dead_lettered == with_posts(s, posts).dead_lettered
            + if more {
            1int
        } else {
            0int
        },
        with_posts(s, posts).idle_polls == s.idle_polls,
        with_posts(s, posts).drained == s.drained,
    decreases posts.len(),
{
    let all = posts.push(Ok(more));
    if posts.len() == 0 {
        assert(all.skip(1) =~= posts);
        assert(all[0] == Ok::<bool, crate::error::ForgeError>(more));
        reveal_with_fuel(with_posts, 2);
    } else {
        let dead = posts[0]->Ok_0;
        assert(posts[0] is Ok);
        assert(all[0] == posts[0]);
        assert(all.skip(1) =~= posts.skip(1).push(Ok(more)));
        assert forall|i: int| 0 <= i < posts.skip(1).len() implies (#[trigger] posts.skip(1)[i]) is Ok by {
            assert(posts[i + 1] is Ok);
        }
        law_dead_letters_are_counted(with_post(s, dead), posts.skip(1), more);
    }
}

/// A notice sets the latch and is forwarded under the worker's name, with the cloud that
/// gave it, its kind and its deadline.
pub proof fn law_notices_drain_and_are_forwarded(
    notice: &Notice,
    after: Drain,
    worker_id: &str,
    wire: InterruptionNotice,
)
    requires
        exists|d: &mut Drain|
            *final(d) == after && #[trigger] call_ensures(spot_drain, (notice, d, worker_id), wire),
    ensures
        after.spec_draining(),
        wire.worker_id@ == worker_id@,
        opt_view(wire.deadline) == opt_view(notice.deadline),
        wire.cloud@ == match notice.cloud {
            Cloud::Aws => "aws"@,
            Cloud::Gcp => "gcp"@,
            Cloud::Azure => "azure"@,
        },
        wire.kind@ == match notice.kind {
            NoticeKind::Terminate => "terminate"@,
            NoticeKind::Rebalance => "rebalance"@,
        },
{
}

/// A selector names a cloud in any case and with white space around it; `none` and nothing
/// name none, and all else is refused.
pub proof fn law_selectors_name_clouds(s: &str, r: Result<Option<CloudSource>, String>)
    requires
        call_ensures(CloudSource::parse, (s,), r),
    ensures
        ({
            let name = ascii_lower(trim(s@));
            &&& name == "aws"@ <==> (r matches Ok(Some(c)) && c.spec_cloud() == Cloud::Aws)
            &&& name == "gcp"@ <==> (r matches Ok(Some(c)) && c.spec_cloud() == Cloud::Gcp)
            &&& name == "azure"@ <==> (r matches Ok(Some(c)) && c.spec_cloud() == Cloud::Azure)
            &&& name == "none"@ || name.len() == 0 <==> (r matches Ok(None))
        }),
        r matches Ok(Some(c)) ==> c.spec_base() == if c.spec_cloud() == Cloud::Gcp {
            "http://metadata.google.internal"@
        } else {
            "http://169.254.169.254"@
        },
{
    reveal_strlit("none");
    reveal_strlit("aws");
    reveal_strlit("gcp");
    reveal_strlit("azure");
    assert("aws"@[0] == 'a' && "aws"@[1] == 'w' && "gcp"@[0] == 'g' && "azure"@[1] == 'z'
        && "none"@[0] == 'n' && "azure"@[0] == 'a');
}

/// A loop starts at its top with nothing counted. From there it ends once it drains, pulls
/// where its engine is ready, and probes it where it is not.
pub proof fn law_loops_start_at_the_top(
    a: AgentLoop,
    drained: AgentLoop,
    pulling: AgentLoop,
    probing: AgentLoop,
    ready: bool,
    exit: AgentStep,
    pull: AgentStep,
    probe: AgentStep,
)
    requires
        call_ensures(AgentLoop::start, (), a),
        exists|m: &mut AgentLoop|
            *m == a && *final(m) == drained && #[trigger] call_ensures(
                AgentLoop::check,
                (m, true, ready),
                exit,
            ),
        exists|m: &mut AgentLoop|
            *m == a && *final(m) == pulling && #[trigger] call_ensures(
                AgentLoop::check,
                (m, false, true),
                pull,
            ),
        exists|m: &mut AgentLoop|
            *m == a && *final(m) == probing && #[trigger] call_ensures(
                AgentLoop::check,
                (m, false, false),
                probe,
            ),
    ensures
        a@.stats.processed == 0 && a@.stats.dead_lettered == 0 && a@.stats.idle_polls == 0,
        !a@.stats.drained,
        exit == AgentStep::Exit && drained@.stats.drained,
        pull == AgentStep::Pull && !pulling@.stats.drained,
        probe == AgentStep::Probe && !probing@.stats.drained,
{
}

/// What was granted is run, and each post of the batch is counted; a batch whose posts all
/// arrive goes back to the top, and the first that fails ends the loop with its error.
pub proof fn law_batches_are_run_and_counted(
    before: AgentLoop,
    after: AgentLoop,
    posts: Vec<Result<bool, crate::error::ForgeError>>,
    r: Result<(), crate::error::ForgeError>,
)
    requires
        exists|m: &mut AgentLoop|
            *m == before && *final(m) == after && #[trigger] call_ensures(
                AgentLoop::ran,
                (m, posts),
                r,
            ),
        before@.stats.processed + posts@.len() <= usize::MAX,
    ensures
        (forall|i: int| 0 <= i < posts@.len() ==> (#[trigger] posts@[i]) is Ok) ==> r is Ok
            && after@.phase == AgentPhase::Top && after@.stats.processed
            == before@.stats.processed + posts@.len(),
        posts@.len() > 0 && posts@[0] is Err ==> r is Err && r->Err_0 == posts@[0]->Err_0
            && after@.phase == AgentPhase::Over,
        (exists|i: int| 0 <= i < posts@.len() && (#[trigger] posts@[i]) is Err) ==> r is Err,
{
    lemma_first_failure(posts@);
    if forall|i: int| 0 <= i < posts@.len() ==> (#[trigger] posts@[i]) is Ok {
        law_no_item_is_uncounted(before@.stats, posts@);
    }
}

proof fn lemma_first_failure(posts: Seq<Result<bool, crate::error::ForgeError>>)
    ensures
        first_failure(posts) is None <==> forall|i: int|
            0 <= i < posts.len() ==> (#[trigger] posts[i]) is Ok,
    decreases posts.len(),
{
    if posts.len() > 0 {
        let rest = posts.skip(1);
        lemma_first_failure(rest);
        if first_failure(posts) is None {
            assert forall|i: int| 0 <= i < posts.len() implies (#[trigger] posts[i]) is Ok by {
                if i > 0 {
                    assert(rest[i - 1] is Ok);
                }
            }
        }
        if forall|i: int| 0 <= i < posts.len() ==> (#[trigger] posts[i]) is Ok {
            assert(posts[0] is Ok);
            assert forall|i: int| 0 <= i < rest.len() implies (#[trigger] rest[i]) is Ok by {
                assert(posts[i + 1] is Ok);
            }
        }
    }
}

/// Usage keeps its counts on the way to the coordinator and back.
pub proof fn law_usage_is_sent_count_by_count(u: &TokenUsage, w: WireUsage, back: TokenUsage)
    requires
        call_ensures(to_wire_usage, (u,), w),
        call_ensures(from_wire_usage, (&w,), back),
    ensures
        w.prompt_tokens == u.prompt_tokens,
        w.completion_tokens == u.completion_tokens,
        w.total_tokens == u.total_tokens,
        back.prompt_tokens == u.prompt_tokens,
        back.completion_tokens == u.completion_tokens,
        back.total_tokens == u.total_tokens,
{
}

/// Clouds and kinds of notices have names of their own on the wire, and endpoints are
/// known by theirs, in either case and with white space around.
pub proof fn law_names_are_told_apart(
    c: Cloud,
    k: NoticeKind,
    cloud: &'static str,
    kind: &'static str,
    s: &str,
    e: Result<EndpointKind, String>,
)
    requires
        call_ensures(cloud_str, (c,), cloud),
        call_ensures(kind_str, (k,), kind),
        call_ensures(endpoint_kind, (s,), e),
    ensures
        c == Cloud::Aws <==> cloud@ == "aws"@,
        c == Cloud::Gcp <==> cloud@ == "gcp"@,
        c == Cloud::Azure <==> cloud@ == "azure"@,
        k == NoticeKind::Terminate <==> kind@ == "terminate"@,
        k == NoticeKind::Rebalance <==> kind@ == "rebalance"@,
        ascii_lower(trim(s@)) == "chat"@ <==> e == Ok::<EndpointKind, String>(EndpointKind::Chat),
        ascii_lower(trim(s@)) == "completions"@ <==> e == Ok::<EndpointKind, String>(
            EndpointKind::Completions,
        ),
        ascii_lower(trim(s@)) == "embeddings"@ <==> e == Ok::<EndpointKind, String>(
            EndpointKind::Embeddings,
        ),
{
    reveal_strlit("aws");
    reveal_strlit("gcp");
    reveal_strlit("azure");
    reveal_strlit("terminate");
    reveal_strlit("rebalance");
    reveal_strlit("chat");
    reveal_strlit("completions");
    reveal_strlit("embeddings");
    assert("aws"@[0] == 'a' && "gcp"@[0] == 'g');
    assert("aws"@.len() == 3 && "azure"@.len() == 5);
    assert("terminate"@[0] == 't' && "rebalance"@[0] == 'r');
    assert("chat"@.len() == 4 && "completions"@.len() == 11 && "embeddings"@.len() == 10);
}


} // verus!

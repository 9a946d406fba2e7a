//! Poll-only detection of spot interruptions.
//!
//! Each cloud has a link-local metadata endpoint that arms shortly before a spot VM is
//! reclaimed. A poll asks it and yields a notice when an interruption is imminent. A
//! missed notice changes nothing, so a poll that cannot reach the service, or cannot read
//! its answer, yields none and is no error.

use vstd::prelude::*;

use crate::json::{json_parse, parse_json, Json, JsonView};
use crate::text::{
    ascii_lower, ascii_lower_chars, concat2, opt_view, str_eq, string_from, trim, trim_str,
};

verus! {

/// Which cloud a notice is from.
#[derive(Debug, Clone, Copy, PartialEq, Eq, Structural)]
pub enum Cloud {
    Aws,
    Gcp,
    Azure,
}

/// What kind of interruption signal fired.
#[derive(Debug, Clone, Copy, PartialEq, Eq, Structural)]
pub enum NoticeKind {
    /// The VM is being reclaimed imminently.
    Terminate,
    /// The earlier, softer heads-up that the instance is at risk.
    Rebalance,
}

/// A pending interruption.
#[derive(Debug, Clone, PartialEq, Eq)]
pub struct Notice {
    pub cloud: Cloud,
    pub kind: NoticeKind,
    /// The cloud's own deadline, when it gives one. Advisory only.
    pub deadline: Option<String>,
}

/// The view of a notice.
#[verifier::ext_equal]
pub struct NoticeView {
    pub cloud: Cloud,
    pub kind: NoticeKind,
    pub deadline: Option<Seq<char>>,
}

impl View for Notice {
    type V = NoticeView;

    open spec fn view(&self) -> NoticeView {
        NoticeView { cloud: self.cloud, kind: self.kind, deadline: opt_view(self.deadline) }
    }
}

/// The view of a notice that may be missing.
pub open spec fn notice_view(n: Option<Notice>) -> Option<NoticeView> {
    match n {
        Some(x) => Some(x@),
        None => None,
    }
}

/// One question of a poll.
#[derive(Debug, Clone, PartialEq, Eq)]
pub enum Probe {
    /// AWS: a session token, which every read needs.
    AwsToken,
    /// AWS: the action that is armed, with the token.
    AwsAction(String),
    /// AWS: the rebalance recommendation, with the token.
    AwsRebalance(String),
    /// GCP: whether the instance is being preempted.
    GcpPreempted,
    /// Azure: the scheduled events.
    AzureEvents,
}

/// The view of a question.
pub enum ProbeView {
    AwsToken,
    AwsAction(Seq<char>),
    AwsRebalance(Seq<char>),
    GcpPreempted,
    AzureEvents,
}

impl View for Probe {
    type V = ProbeView;

    open spec fn view(&self) -> ProbeView {
        match self {
            Probe::AwsToken => ProbeView::AwsToken,
            Probe::AwsAction(t) => ProbeView::AwsAction(t@),
            Probe::AwsRebalance(t) => ProbeView::AwsRebalance(t@),
            Probe::GcpPreempted => ProbeView::GcpPreempted,
            Probe::AzureEvents => ProbeView::AzureEvents,
        }
    }
}

/// The HTTP request of a question.
pub struct Fetch {
    /// A `PUT` rather than a `GET`.
    pub put: bool,
    pub url: String,
    pub header: String,
    pub value: String,
}

/// The path of a question.
pub open spec fn probe_path(p: ProbeView) -> Seq<char> {
    match p {
        ProbeView::AwsToken => "/latest/api/token"@,
        ProbeView::AwsAction(_) => "/latest/meta-data/spot/instance-action"@,
        ProbeView::AwsRebalance(_) => "/latest/meta-data/events/recommendations/rebalance"@,
        ProbeView::GcpPreempted => "/computeMetadata/v1/instance/preempted"@,
        ProbeView::AzureEvents => "/metadata/scheduledevents?api-version=2020-07-01"@,
    }
}

/// The header that a question carries.
pub open spec fn probe_header(p: ProbeView) -> (Seq<char>, Seq<char>) {
    match p {
        ProbeView::AwsToken => ("X-aws-ec2-metadata-token-ttl-seconds"@, "21600"@),
        ProbeView::AwsAction(t) => ("X-aws-ec2-metadata-token"@, t),
        ProbeView::AwsRebalance(t) => ("X-aws-ec2-metadata-token"@, t),
        ProbeView::GcpPreempted => ("Metadata-Flavor"@, "Google"@),
        ProbeView::AzureEvents => ("Metadata"@, "true"@),
    }
}

impl Probe {
    /// The request of this question to the service at `base`.
    pub fn fetch(&self, base: &str) -> (f: Fetch)
        ensures
            f.put == (self@ is AwsToken),
            f.url@ == base@ + probe_path(self@),
            (f.header@, f.value@) == probe_header(self@),
    {
        match self {
            Probe::AwsToken => Fetch {
                put: true,
                url: concat2(base, "/latest/api/token"),
                header: "X-aws-ec2-metadata-token-ttl-seconds".to_owned(),
                value: "21600".to_owned(),
            },
            Probe::AwsAction(t) => Fetch {
                put: false,
                url: concat2(base, "/latest/meta-data/spot/instance-action"),
                header: "X-aws-ec2-metadata-token".to_owned(),
                value: t.as_str().to_owned(),
            },
            Probe::AwsRebalance(t) => Fetch {
                put: false,
                url: concat2(base, "/latest/meta-data/events/recommendations/rebalance"),
                header: "X-aws-ec2-metadata-token".to_owned(),
                value: t.as_str().to_owned(),
            },
            Probe::GcpPreempted => Fetch {
                put: false,
                url: concat2(base, "/computeMetadata/v1/instance/preempted"),
                header: "Metadata-Flavor".to_owned(),
                value: "Google".to_owned(),
            },
            Probe::AzureEvents => Fetch {
                put: false,
                url: concat2(base, "/metadata/scheduledevents?api-version=2020-07-01"),
                header: "Metadata".to_owned(),
                value: "true".to_owned(),
            },
        }
    }
}

/// What came back for a question.
pub enum Answer {
    /// The service could not be reached.
    Unreachable,
    /// A response; its body, if it could be read.
    Response { status: u16, body: Option<String> },
}

/// What a poll does next.
pub enum Polled {
    /// It asks another question.
    Ask(Probe),
    /// It is done, with the notice it found.
    Settled(Option<Notice>),
}

/// The view of what a poll does next.
#[verifier::ext_equal]
pub enum PolledView {
    Ask(ProbeView),
    Settled(Option<NoticeView>),
}

impl View for Polled {
    type V = PolledView;

    open spec fn view(&self) -> PolledView {
        match self {
            Polled::Ask(p) => PolledView::Ask(p@),
            Polled::Settled(n) => PolledView::Settled(notice_view(*n)),
        }
    }
}

/// A status of success.
pub open spec fn is_success(status: u16) -> bool {
    200 <= status <= 299
}

/// A notice with the deadline under a name, if it is a text.
pub open spec fn dated(v: JsonView, cloud: Cloud, kind: NoticeKind, name: Seq<char>) -> NoticeView {
    NoticeView { cloud, kind, deadline: v.str_at(name) }
}

/// The first event that is a preemption.
pub open spec fn first_preempt(events: Seq<JsonView>) -> Option<JsonView>
    decreases events.len(),
{
    if events.len() == 0 {
        None
    } else if events[0].str_at("EventType"@) == Some("Preempt"@) {
        Some(events[0])
    } else {
        first_preempt(events.skip(1))
    }
}

/// What a poll makes of a body. `parsed` is the body read as JSON.
pub open spec fn settled(p: ProbeView, body: Seq<char>, parsed: Option<JsonView>) -> PolledView {
    match p {
        ProbeView::AwsToken => if body.len() > 0 {
            PolledView::Ask(ProbeView::AwsAction(body))
        } else {
            PolledView::Settled(None)
        },
        ProbeView::AwsAction(_) => PolledView::Settled(
            match parsed {
                Some(v) => Some(dated(v, Cloud::Aws, NoticeKind::Terminate, "time"@)),
                None => None,
            },
        ),
        ProbeView::AwsRebalance(_) => PolledView::Settled(
            match parsed {
                Some(v) => Some(dated(v, Cloud::Aws, NoticeKind::Rebalance, "noticeTime"@)),
                None => None,
            },
        ),
        ProbeView::GcpPreempted => PolledView::Settled(
            if ascii_lower(trim(body)) == "true"@ {
                Some(
                    NoticeView { cloud: Cloud::Gcp, kind: NoticeKind::Terminate, deadline: None },
                )
            } else {
                None
            },
        ),
        ProbeView::AzureEvents => PolledView::Settled(
            match parsed {
                Some(v) => match v.array_at("Events"@) {
                    Some(events) => match first_preempt(events) {
                        Some(ev) => Some(
                            dated(ev, Cloud::Azure, NoticeKind::Terminate, "NotBefore"@),
                        ),
                        None => None,
                    },
                    None => None,
                },
                None => None,
            },
        ),
    }
}

/// What a poll makes of an answer. `parsed` is the body read as JSON.
pub open spec fn observed(p: ProbeView, answer: Answer, parsed: Option<JsonView>) -> PolledView {
    match answer {
        Answer::Unreachable => PolledView::Settled(None),
        Answer::Response { status, body } => if status == 404 && p is AwsAction {
            PolledView::Ask(ProbeView::AwsRebalance(p->AwsAction_0))
        } else if !is_success(status) {
            PolledView::Settled(None)
        } else {
            match body {
                Some(t) => settled(p, t@, parsed),
                None => PolledView::Settled(None),
            }
        },
    }
}

/// The body of an answer read as JSON.
pub open spec fn answer_json(answer: Answer) -> Option<JsonView> {
    match answer {
        Answer::Response { status, body: Some(t) } => json_parse(t@).ok(),
        _ => None,
    }
}

fn deadline(v: &Json, name: &str) -> (r: Option<String>)
    ensures
        opt_view(r) == v@.str_at(name@),
{
    match v.str_at(name) {
        Some(t) => Some(t.to_owned()),
        None => None,
    }
}

fn find_preempt(events: &Vec<Json>) -> (r: Option<&Json>)
    ensures
        match r {
            Some(ev) => first_preempt(crate::json::list_view(events@)) == Some(ev@),
            None => first_preempt(crate::json::list_view(events@)) is None,
        },
{
    let ghost all = crate::json::list_view(events@);
    let mut i: usize = 0;
    assert(all.skip(0) == all);
    while i < events.len()
        invariant
            i <= events@.len(),
            all == crate::json::list_view(events@),
            first_preempt(all) == first_preempt(all.skip(i as int)),
        decreases events@.len() - i,
    {
        proof {
            assert(all.skip(i as int)[0] == events@[i as int]@);
            assert(all.skip(i as int).skip(1) == all.skip(i + 1));
        }
        if let Some(t) = events[i].str_at("EventType") {
            if str_eq(t, "Preempt") {
                return Some(&events[i]);
            }
        }
        i = i + 1;
    }
    None
}

/// Whether the body of the preempted flag says so.
fn says_true(body: &str) -> (r: bool)
    ensures
        r == (ascii_lower(trim(body@)) == "true"@),
{
    let lower: Vec<char> = ascii_lower_chars(trim_str(body).as_str());
    let text: String = string_from(lower.as_slice(), 0, lower.len());
    assert(lower@.subrange(0, lower@.len() as int) == lower@);
    str_eq(text.as_str(), "true")
}

/// What a poll makes of a body that came with success.
fn settle(probe: &Probe, body: &str, parsed: &Option<Json>) -> (r: Polled)
    ensures
        r@ == settled(
            probe@,
            body@,
            match parsed {
                Some(j) => Some(j@),
                None => None,
            },
        ),
{
    match probe {
        Probe::AwsToken => {
            if body.is_empty() {
                Polled::Settled(None)
            } else {
                Polled::Ask(Probe::AwsAction(body.to_owned()))
            }
        },
        Probe::AwsAction(_) => match parsed {
            Some(v) => Polled::Settled(
                Some(
                    Notice {
                        cloud: Cloud::Aws,
                        kind: NoticeKind::Terminate,
                        deadline: deadline(v, "time"),
                    },
                ),
            ),
            None => Polled::Settled(None),
        },
        Probe::AwsRebalance(_) => match parsed {
            Some(v) => Polled::Settled(
                Some(
                    Notice {
                        cloud: Cloud::Aws,
                        kind: NoticeKind::Rebalance,
                        deadline: deadline(v, "noticeTime"),
                    },
                ),
            ),
            None => Polled::Settled(None),
        },
        Probe::GcpPreempted => {
            if says_true(body) {
                Polled::Settled(
                    Some(
                        Notice { cloud: Cloud::Gcp, kind: NoticeKind::Terminate, deadline: None },
                    ),
                )
            } else {
                Polled::Settled(None)
            }
        },
        Probe::AzureEvents => {
            let events: Option<&Vec<Json>> = match parsed {
                Some(v) => match v.get("Events") {
                    Some(e) => e.as_array(),
                    None => None,
                },
                None => None,
            };
            match events {
                Some(list) => match find_preempt(list) {
                    Some(ev) => Polled::Settled(
                        Some(
                            Notice {
                                cloud: Cloud::Azure,
                                kind: NoticeKind::Terminate,
                                deadline: deadline(ev, "NotBefore"),
                            },
                        ),
                    ),
                    None => Polled::Settled(None),
                },
                None => Polled::Settled(None),
            }
        },
    }
}

/// What a poll makes of an answer whose body was read as `parsed`.
pub fn observe_parsed(probe: &Probe, answer: &Answer, parsed: &Option<Json>) -> (r: Polled)
    ensures
        r@ == observed(
            probe@,
            *answer,
            match parsed {
                Some(j) => Some(j@),
                None => None,
            },
        ),
{
    match answer {
        Answer::Unreachable => Polled::Settled(None),
        Answer::Response { status, body } => {
            if *status == 404 {
                if let Probe::AwsAction(t) = probe {
                    return Polled::Ask(Probe::AwsRebalance(t.as_str().to_owned()));
                }
            }
            if *status < 200 || *status > 299 {
                return Polled::Settled(None);
            }
            match body {
                Some(t) => settle(probe, t.as_str(), parsed),
                None => Polled::Settled(None),
            }
        },
    }
}

/// What a poll makes of an answer.
pub fn observe(probe: &Probe, answer: &Answer) -> (r: Polled)
    ensures
        r@ == observed(probe@, *answer, answer_json(*answer)),
{
    let parsed: Option<Json> = match answer {
        Answer::Response { status, body: Some(t) } => match parse_json(t.as_str()) {
            Ok(j) => Some(j),
            Err(_) => None,
        },
        _ => None,
    };
    observe_parsed(probe, answer, &parsed)
}

/// The first question of a poll for a cloud.
pub open spec fn first_probe(c: Cloud) -> ProbeView {
    match c {
        Cloud::Aws => ProbeView::AwsToken,
        Cloud::Gcp => ProbeView::GcpPreempted,
        Cloud::Azure => ProbeView::AzureEvents,
    }
}

/// One cloud's poll-only source of interruption notices. A poll starts with
/// [`first`](InterruptionSource::first), and [`observe`] says what follows each answer.
pub trait InterruptionSource {
    /// Which cloud this source talks to.
    spec fn spec_cloud(&self) -> Cloud;

    /// Where its metadata service is.
    spec fn spec_base(&self) -> Seq<char>;

    /// Which cloud this source talks to.
    fn cloud(&self) -> (c: Cloud)
        ensures
            c == self.spec_cloud(),
    ;

    /// Where its metadata service is.
    fn base(&self) -> (b: &str)
        ensures
            b@ == self.spec_base(),
    ;

    /// The first question of a poll.
    fn first(&self) -> (p: Probe)
        ensures
            p@ == first_probe(self.spec_cloud()),
    ;
}

/// AWS EC2 Spot: a session token, the instance action, and the rebalance recommendation
/// as the earlier heads-up.
pub struct AwsSpot {
    base: String,
}

impl Default for AwsSpot {
    fn default() -> (s: Self)
        ensures
            s.spec_base() == "http://169.254.169.254"@,
    {
        Self::new()
    }
}

impl AwsSpot {
    /// The real metadata service.
    pub fn new() -> (s: Self)
        ensures
            s.spec_base() == "http://169.254.169.254"@,
    {
        Self::with_base("http://169.254.169.254")
    }

    /// A metadata service elsewhere.
    pub fn with_base(base: &str) -> (s: Self)
        ensures
            s.spec_base() == base@,
    {
        AwsSpot { base: base.to_owned() }
    }
}

impl InterruptionSource for AwsSpot {
    open spec fn spec_cloud(&self) -> Cloud {
        Cloud::Aws
    }

    closed spec fn spec_base(&self) -> Seq<char> {
        self.base@
    }

    fn cloud(&self) -> (c: Cloud) {
        Cloud::Aws
    }

    fn base(&self) -> (b: &str) {
        self.base.as_str()
    }

    fn first(&self) -> (p: Probe) {
        Probe::AwsToken
    }
}

/// GCP Spot: the preempted flag of the instance.
pub struct GcpSpot {
    base: String,
}

impl Default for GcpSpot {
    fn default() -> (s: Self)
        ensures
            s.spec_base() == "http://metadata.google.internal"@,
    {
        Self::new()
    }
}

impl GcpSpot {
    /// The real metadata service.
    pub fn new() -> (s: Self)
        ensures
            s.spec_base() == "http://metadata.google.internal"@,
    {
        Self::with_base("http://metadata.google.internal")
    }

    /// A metadata service elsewhere.
    pub fn with_base(base: &str) -> (s: Self)
        ensures
            s.spec_base() == base@,
    {
        GcpSpot { base: base.to_owned() }
    }
}

impl InterruptionSource for GcpSpot {
    open spec fn spec_cloud(&self) -> Cloud {
        Cloud::Gcp
    }

    closed spec fn spec_base(&self) -> Seq<char> {
        self.base@
    }

    fn cloud(&self) -> (c: Cloud) {
        Cloud::Gcp
    }

    fn base(&self) -> (b: &str) {
        self.base.as_str()
    }

    fn first(&self) -> (p: Probe) {
        Probe::GcpPreempted
    }
}

/// Azure Spot: the scheduled events, among which a preemption arms.
pub struct AzureSpot {
    base: String,
}

impl Default for AzureSpot {
    fn default() -> (s: Self)
        ensures
            s.spec_base() == "http://169.254.169.254"@,
    {
        Self::new()
    }
}

impl AzureSpot {
    /// The real metadata service.
    pub fn new() -> (s: Self)
        ensures
            s.spec_base() == "http://169.254.169.254"@,
    {
        Self::with_base("http://169.254.169.254")
    }

    /// A metadata service elsewhere.
    pub fn with_base(base: &str) -> (s: Self)
        ensures
            s.spec_base() == base@,
    {
        AzureSpot { base: base.to_owned() }
    }
}

impl InterruptionSource for AzureSpot {
    open spec fn spec_cloud(&self) -> Cloud {
        Cloud::Azure
    }

    closed spec fn spec_base(&self) -> Seq<char> {
        self.base@
    }

    fn cloud(&self) -> (c: Cloud) {
        Cloud::Azure
    }

    fn base(&self) -> (b: &str) {
        self.base.as_str()
    }

    fn first(&self) -> (p: Probe) {
        Probe::AzureEvents
    }
}

/// How many questions a poll may still ask after this one.
pub open spec fn questions_left(p: ProbeView) -> nat {
    match p {
        ProbeView::AwsToken => 2,
        ProbeView::AwsAction(_) => 1,
        _ => 0,
    }
}

/// The cloud that a question is for.
pub open spec fn probe_cloud(p: ProbeView) -> Cloud {
    match p {
        ProbeView::GcpPreempted => Cloud::Gcp,
        ProbeView::AzureEvents => Cloud::Azure,
        _ => Cloud::Aws,
    }
}

/// A service that cannot be reached, or that answers without success, never makes a
/// notice.
pub proof fn law_no_notice_without_success(p: ProbeView, answer: Answer, parsed: Option<JsonView>)
    requires
        answer matches Answer::Response { status, body } ==> !is_success(status) || body is None,
    ensures
        match observed(p, answer, parsed) {
            PolledView::Settled(n) => n is None,
            PolledView::Ask(_) => true,
        },
{
}

/// A poll ends: each further question has fewer behind it. Every question and every
/// notice is of the cloud that the poll is for.
pub proof fn law_polls_end(p: ProbeView, answer: Answer, parsed: Option<JsonView>)
    ensures
        match observed(p, answer, parsed) {
            PolledView::Ask(next) => questions_left(next) < questions_left(p) && probe_cloud(next)
                == probe_cloud(p),
            PolledView::Settled(n) => match n {
                Some(x) => x.cloud == probe_cloud(p),
                None => true,
            },
        },
{
}

/// A poll finds what the cloud says. AWS arms an action, which terminates, or else makes a
/// recommendation; GCP says that it preempts; Azure schedules a preemption. Each comes with
/// the deadline that the cloud gives.
pub proof fn law_polls_find_what_is_armed(
    probe: &Probe,
    status: u16,
    body: String,
    parsed: &Option<Json>,
    r: Polled,
)
    requires
        call_ensures(
            observe_parsed,
            (probe, &Answer::Response { status, body: Some(body) }, parsed),
            r,
        ),
        200 <= status <= 299,
    ensures
        probe is AwsToken && body@.len() > 0 ==> (r matches Polled::Ask(Probe::AwsAction(t)) && t@
            == body@),
        probe is AwsToken && body@.len() == 0 ==> r matches Polled::Settled(None),
        probe is AwsAction && parsed is Some ==> (r matches Polled::Settled(Some(n)) && n.cloud
            == Cloud::Aws && n.kind == NoticeKind::Terminate && opt_view(n.deadline)
            == parsed->0@.str_at("time"@)),
        probe is AwsRebalance && parsed is Some ==> (r matches Polled::Settled(Some(n)) && n.cloud
            == Cloud::Aws && n.kind == NoticeKind::Rebalance && opt_view(n.deadline)
            == parsed->0@.str_at("noticeTime"@)),
        (probe is AwsAction || probe is AwsRebalance || probe is AzureEvents) && parsed is None
            ==> r matches Polled::Settled(None),
        probe is GcpPreempted && ascii_lower(trim(body@)) == "true"@ ==> (r matches Polled::Settled(
            Some(n),
        ) && n.cloud == Cloud::Gcp && n.kind == NoticeKind::Terminate && n.deadline is None),
        probe is GcpPreempted && ascii_lower(trim(body@)) != "true"@
            ==> r matches Polled::Settled(None),
        probe is AzureEvents && parsed is Some ==> ({
            let events = parsed->0@.array_at("Events"@);
            &&& (r matches Polled::Settled(Some(_))) <==> events is Some && exists|i: int|
                0 <= i < events->0.len() && (#[trigger] events->0[i]).str_at("EventType"@) == Some(
                    "Preempt"@,
                )
            &&& forall|i: int|
                0 <= i < events->0.len() && events is Some && (#[trigger] events->0[i]).str_at(
                    "EventType"@,
                ) == Some("Preempt"@) && (forall|k: int|
                    0 <= k < i ==> (#[trigger] events->0[k]).str_at("EventType"@) != Some(
                        "Preempt"@,
                    )) ==> (r matches Polled::Settled(Some(n)) && n.cloud == Cloud::Azure && n.kind
                    == NoticeKind::Terminate && opt_view(n.deadline) == events->0[i].str_at(
                    "NotBefore"@,
                ))
        }),
{
    if probe is AzureEvents && parsed is Some {
        let events = parsed->0@.array_at("Events"@);
        if events is Some {
            lemma_first_preempt(events->0);
        }
    }
}

proof fn lemma_first_preempt(events: Seq<JsonView>)
    ensures
        first_preempt(events) is Some <==> exists|i: int|
            0 <= i < events.len() && (#[trigger] events[i]).str_at("EventType"@) == Some(
                "Preempt"@,
            ),
        forall|i: int|
            0 <= i < events.len() && (#[trigger] events[i]).str_at("EventType"@) == Some("Preempt"@)
                && (forall|k: int|
                0 <= k < i ==> (#[trigger] events[k]).str_at("EventType"@) != Some("Preempt"@))
                ==> first_preempt(events) == Some(events[i]),
    decreases events.len(),
{
    if events.len() > 0 {
        let rest = events.skip(1);
        lemma_first_preempt(rest);
        if events[0].str_at("EventType"@) != Some("Preempt"@) {
            if first_preempt(rest) is Some {
                let i = choose|i: int|
                    0 <= i < rest.len() && (#[trigger] rest[i]).str_at("EventType"@) == Some(
                        "Preempt"@,
                    );
                assert(events[i + 1].str_at("EventType"@) == Some("Preempt"@));
            }
            assert forall|i: int| 0 <= i < events.len() && (#[trigger] events[i]).str_at(
                "EventType"@,
            ) == Some("Preempt"@) implies first_preempt(rest) is Some by {
                assert(rest[i - 1] == events[i]);
            }
            assert forall|i: int|
                0 <= i < events.len() && (#[trigger] events[i]).str_at("EventType"@) == Some(
                    "Preempt"@,
                ) && (forall|k: int|
                    0 <= k < i ==> (#[trigger] events[k]).str_at("EventType"@) != Some(
                        "Preempt"@,
                    )) implies first_preempt(events) == Some(events[i]) by {
                assert(rest[i - 1] == events[i]);
                assert forall|k: int| 0 <= k < i - 1 implies (#[trigger] rest[k]).str_at(
                    "EventType"@,
                ) != Some("Preempt"@) by {
                    assert(rest[k] == events[k + 1]);
                }
            }
        }
    }
}

/// An action that is not armed leads on to the recommendation, with the same token; any
/// other refusal, silence, or a body that cannot be read, is no notice.
pub proof fn law_polls_without_an_answer_find_nothing(
    probe: &Probe,
    answer: &Answer,
    parsed: &Option<Json>,
    r: Polled,
)
    requires
        call_ensures(observe_parsed, (probe, answer, parsed), r),
    ensures
        answer is Unreachable ==> r matches Polled::Settled(None),
        *answer matches Answer::Response { status, .. } ==> status == 404 ==> (
        probe matches Probe::AwsAction(t) ==> (r matches Polled::Ask(Probe::AwsRebalance(u)) && u@
            == t@)),
        *answer matches Answer::Response { status, .. } ==> !(200 <= status <= 299) && !(status == 404
            && probe is AwsAction) ==> (r matches Polled::Settled(None)),
        *answer matches Answer::Response { status, body: None } ==> 200 <= status <= 299 ==> (
        r matches Polled::Settled(None)),
{
}

/// Each question goes to its own place at the metadata service, with the header that the
/// service asks for; only the token is put.
pub proof fn law_probes_ask_the_documented_place(probe: &Probe, base: &str, f: Fetch)
    requires
        call_ensures(Probe::fetch, (probe, base), f),
    ensures
        f.put <==> probe is AwsToken,
        f.url@ == base@ + match *probe {
            Probe::AwsToken => "/latest/api/token"@,
            Probe::AwsAction(_) => "/latest/meta-data/spot/instance-action"@,
            Probe::AwsRebalance(_) => "/latest/meta-data/events/recommendations/rebalance"@,
            Probe::GcpPreempted => "/computeMetadata/v1/instance/preempted"@,
            Probe::AzureEvents => "/metadata/scheduledevents?api-version=2020-07-01"@,
        },
        probe is AwsToken ==> f.header@ == "X-aws-ec2-metadata-token-ttl-seconds"@,
        probe matches Probe::AwsAction(t) ==> f.header@ == "X-aws-ec2-metadata-token"@ && f.value@
            == t@,
        probe matches Probe::AwsRebalance(t) ==> f.header@ == "X-aws-ec2-metadata-token"@ && f.value@
            == t@,
        probe is GcpPreempted ==> f.header@ == "Metadata-Flavor"@ && f.value@ == "Google"@,
        probe is AzureEvents ==> f.header@ == "Metadata"@ && f.value@ == "true"@,
{
}

/// A poll starts with the question of its cloud: a token, the preempted flag, or the
/// scheduled events.
pub proof fn law_polls_start_with_their_cloud(a: &AwsSpot, g: &GcpSpot, z: &AzureSpot, p: Probe, q: Probe, r: Probe)
    requires
        call_ensures(AwsSpot::first, (a,), p),
        call_ensures(GcpSpot::first, (g,), q),
        call_ensures(AzureSpot::first, (z,), r),
    ensures
        p is AwsToken,
        q is GcpPreempted,
        r is AzureEvents,
        a.spec_cloud() == Cloud::Aws,
        g.spec_cloud() == Cloud::Gcp,
        z.spec_cloud() == Cloud::Azure,
{
}

} // verus!

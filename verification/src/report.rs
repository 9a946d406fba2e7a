//! What the reports on a run say.

use vstd::prelude::*;

use crate::import::ImportStats;
use crate::json::{
    canonical, json_text, lemma_object_view, members_view, render_json, Json, JsonView, NumberView,
};
use crate::openai::{count_value, lemma_lex_at, lemma_neighbours, neighbours_ascend};
use crate::queue::QueueCounts;
use crate::sqlite::ResumeAudit;
use crate::text::{
    concat2, concat3, decimal, decimal_of, lemma_lex_total, lemma_lex_transitive, lex_before,
    opt_str_view, opt_view, str_before, text_contains, views,
};
use crate::types::JobTotals;
use crate::verify::VerifyReport;

verus! {

/// The views of named counts.
pub open spec fn pair_views(pairs: Seq<(String, u64)>) -> Seq<(Seq<char>, u64)> {
    pairs.map_values(|p: (String, u64)| (p.0@, p.1))
}

/// A named count.
pub open spec fn pair_text(p: (Seq<char>, u64)) -> Seq<char> {
    p.0 + "="@ + decimal(p.1 as nat)
}

/// Named counts with spaces between them.
pub open spec fn pairs_line(pairs: Seq<(Seq<char>, u64)>) -> Seq<char>
    decreases pairs.len(),
{
    if pairs.len() == 0 {
        Seq::empty()
    } else if pairs.len() == 1 {
        pair_text(pairs[0])
    } else {
        pairs_line(pairs.drop_last()) + " "@ + pair_text(pairs.last())
    }
}

/// Named counts with spaces between them.
pub fn pairs_text(pairs: &Vec<(String, u64)>) -> (r: String)
    ensures
        r@ == pairs_line(pair_views(pairs@)),
{
    let ghost all = pair_views(pairs@);
    let mut out: String = String::new();
    let mut i: usize = 0;
    assert(out@ == pairs_line(all.take(0)));
    while i < pairs.len()
        invariant
            i <= pairs@.len(),
            all == pair_views(pairs@),
            out@ == pairs_line(all.take(i as int)),
        decreases pairs@.len() - i,
    {
        let ghost next = all.take(i + 1);
        if i > 0 {
            out.append(" ");
        }
        out.append(
            concat3(
                pairs[i].0.as_str(),
                "=",
                decimal_of(pairs[i].1).as_str(),
            ).as_str(),
        );
        proof {
            assert(next.drop_last() == all.take(i as int));
            assert(next.last() == (pairs@[i as int].0@, pairs@[i as int].1));
            if i == 0 {
                assert(out@ == pair_text(next[0]));
            }
        }
        i = i + 1;
    }
    assert(all.take(all.len() as int) == all);
    out
}

/// A named count.
pub fn pair(name: &str, n: u64) -> (p: (String, u64))
    ensures
        p.0@ == name@,
        p.1 == n,
{
    (name.to_owned(), n)
}

/// The names do not descend.
pub open spec fn names_in_order(pairs: Seq<(Seq<char>, u64)>) -> bool {
    forall|i: int, j: int|
        0 <= i < j < pairs.len() ==> !lex_before((#[trigger] pairs[j]).0, (#[trigger] pairs[i]).0)
}

/// Named counts in the order of their names.
pub fn by_name(pairs: Vec<(String, u64)>) -> (r: Vec<(String, u64)>)
    ensures
        names_in_order(pair_views(r@)),
        r@.to_multiset() == pairs@.to_multiset(),
{
    let ghost all = pairs@;
    let mut out: Vec<(String, u64)> = Vec::new();
    assert(all.take(0) == out@);
    for p in it: pairs
        invariant
            it.seq() == all,
            names_in_order(pair_views(out@)),
            out@.to_multiset() == all.take(it.index()).to_multiset(),
    {
        let ghost k = it.index();
        let ghost before = out@;
        let n: usize = out.len();
        let mut i: usize = n;
        while i > 0 && str_before(p.0.as_str(), out[i - 1].0.as_str())
            invariant
                i <= n,
                n == out@.len(),
                forall|j: int| i <= j < n ==> lex_before(p.0@, (#[trigger] out@[j]).0@),
            decreases i,
        {
            i = i - 1;
        }
        out.insert(i, p);
        proof {
            let b = pair_views(before);
            let o = pair_views(out@);
            assert(out@ == before.insert(i as int, p));
            assert forall|x: int, y: int| 0 <= x < y < o.len() implies !lex_before(
                (#[trigger] o[y]).0,
                (#[trigger] o[x]).0,
            ) by {
                let px = if x < i { x } else { x - 1 };
                let py = if y < i { y } else { y - 1 };
                if x != i {
                    assert(out@[x] == before[px]);
                    assert(o[x] == b[px]);
                }
                if y != i {
                    assert(out@[y] == before[py]);
                    assert(o[y] == b[py]);
                }
                if x == i {
                    assert(lex_before(p.0@, before[py].0@));
                    lemma_lex_total(p.0@, before[py].0@);
                } else if y == i {
                    assert(!lex_before(p.0@, before[i - 1].0@));
                    if px < i - 1 {
                        assert(!lex_before(b[i - 1].0, b[px].0));
                        assert(b[i - 1] == (before[i - 1].0@, before[i - 1].1));
                        if lex_before(p.0@, b[px].0) {
                            lemma_lex_total(b[i - 1].0, b[px].0);
                            if b[i - 1].0 != b[px].0 {
                                lemma_lex_transitive(p.0@, b[px].0, b[i - 1].0);
                            }
                        }
                    }
                }
            }
            assert(all.take(k + 1) == all.take(k).push(all[k]));
            vstd::seq_lib::to_multiset_build(all.take(k), all[k]);
            vstd::seq_lib::to_multiset_insert(before, i as int, p);
        }
    }
    assert(all.take(all.len() as int) == all);
    out
}

/// The items that needed more than one attempt.
pub open spec fn retried_sum(histogram: Seq<(u32, u64)>) -> nat
    decreases histogram.len(),
{
    if histogram.len() == 0 {
        0
    } else {
        retried_sum(histogram.drop_last()) + if histogram.last().0 > 1 {
            histogram.last().1 as nat
        } else {
            0nat
        }
    }
}

proof fn lemma_retried_grows(histogram: Seq<(u32, u64)>, n: int)
    requires
        0 <= n <= histogram.len(),
    ensures
        retried_sum(histogram.take(n)) <= retried_sum(histogram),
    decreases histogram.len(),
{
    if n < histogram.len() {
        assert(histogram.drop_last().take(n) == histogram.take(n));
        lemma_retried_grows(histogram.drop_last(), n);
    } else {
        assert(histogram.take(n) == histogram);
    }
}

/// A report on a run. The success rate is the caller's to compute and print.
#[derive(Debug, Clone, PartialEq, Eq)]
pub struct StatusReport {
    pub pending: u64,
    pub leased: u64,
    pub done: u64,
    pub dead: u64,
    pub total: u64,
    /// Terminal items that needed more than one attempt.
    pub retried: u64,
    /// How many terminal items needed how many attempts.
    pub attempts_histogram: Vec<(u32, u64)>,
    /// The dead letters by reason, in the order of the reasons' names.
    pub failure_reasons: Vec<(String, u64)>,
}

impl StatusReport {
    /// The report on counts, attempts and failures.
    pub fn new(c: QueueCounts, histogram: Vec<(u32, u64)>, failures: Vec<(String, u64)>) -> (r: Self)
        requires
            c.sum() <= u64::MAX,
            retried_sum(histogram@) <= u64::MAX,
        ensures
            r.pending == c.pending,
            r.leased == c.leased,
            r.done == c.done,
            r.dead == c.dead,
            r.total == c.sum(),
            r.retried == retried_sum(histogram@),
            r.attempts_histogram == histogram,
            names_in_order(pair_views(r.failure_reasons@)),
            r.failure_reasons@.to_multiset() == failures@.to_multiset(),
    {
        let mut retried: u64 = 0;
        let mut i: usize = 0;
        assert(histogram@.take(0) == Seq::<(u32, u64)>::empty());
        while i < histogram.len()
            invariant
                i <= histogram@.len(),
                retried == retried_sum(histogram@.take(i as int)),
                retried_sum(histogram@) <= u64::MAX,
            decreases histogram@.len() - i,
        {
            proof {
                assert(histogram@.take(i + 1).drop_last() == histogram@.take(i as int));
                lemma_retried_grows(histogram@, i + 1);
            }
            let (attempts, n): (u32, u64) = histogram[i];
            if attempts > 1 {
                retried = retried + n;
            }
            i = i + 1;
        }
        assert(histogram@.take(histogram@.len() as int) == histogram@);
        StatusReport {
            pending: c.pending,
            leased: c.leased,
            done: c.done,
            dead: c.dead,
            total: c.total(),
            retried,
            attempts_histogram: histogram,
            failure_reasons: by_name(failures),
        }
    }
}

/// One sample of a metric with a label.
pub open spec fn sample(head: Seq<char>, label: Seq<char>, n: u64) -> Seq<char> {
    head + label + "\"} "@ + decimal(n as nat) + "\n"@
}

/// The samples of named counts.
pub open spec fn samples(head: Seq<char>, pairs: Seq<(Seq<char>, u64)>) -> Seq<char>
    decreases pairs.len(),
{
    if pairs.len() == 0 {
        Seq::empty()
    } else {
        samples(head, pairs.drop_last()) + sample(head, pairs.last().0, pairs.last().1)
    }
}

/// The metrics of a report. `rate` is the printed success rate, where there is one.
pub open spec fn metrics(r: StatusReport, rate: Option<Seq<char>>) -> Seq<char> {
    "# HELP forge_items Items by queue/terminal state.\n# TYPE forge_items gauge\n"@ + sample(
        "forge_items{state=\""@,
        "pending"@,
        r.pending,
    ) + sample("forge_items{state=\""@, "leased"@, r.leased) + sample(
        "forge_items{state=\""@,
        "done"@,
        r.done,
    ) + sample("forge_items{state=\""@, "dead"@, r.dead)
        + "# HELP forge_failures Dead-lettered items by reason.\n# TYPE forge_failures gauge\n"@
        + samples("forge_failures{reason=\""@, pair_views(r.failure_reasons@))
        + "# HELP forge_retried Terminal items that needed >1 attempt.\n# TYPE forge_retried gauge\nforge_retried "@
        + decimal(r.retried as nat) + "\n"@ + (match rate {
        Some(t) =>
        "# HELP forge_success_rate Terminal success ratio.\n# TYPE forge_success_rate gauge\nforge_success_rate "@
            + t + "\n"@,
        None => Seq::empty(),
    })
}

fn push_sample(out: &mut String, head: &str, label: &str, n: u64)
    ensures
        final(out)@ == old(out)@ + sample(head@, label@, n),
{
    let line: String = concat3(
        concat3(head, label, "\"} ").as_str(),
        decimal_of(n).as_str(),
        "\n",
    );
    assert(line@ == sample(head@, label@, n));
    out.append(line.as_str());
}

fn sample_text(head: &str, pairs: &Vec<(String, u64)>) -> (out: String)
    ensures
        out@ == samples(head@, pair_views(pairs@)),
{
    let ghost all = pair_views(pairs@);
    let mut out: String = String::new();
    let mut i: usize = 0;
    assert(out@ == samples(head@, all.take(0)));
    while i < pairs.len()
        invariant
            i <= pairs@.len(),
            all == pair_views(pairs@),
            out@ == samples(head@, all.take(i as int)),
        decreases pairs@.len() - i,
    {
        push_sample(&mut out, head, pairs[i].0.as_str(), pairs[i].1);
        proof {
            assert(all.take(i + 1).drop_last() == all.take(i as int));
            assert(all.take(i + 1).last() == (pairs@[i as int].0@, pairs@[i as int].1));
        }
        i = i + 1;
    }
    assert(all.take(all.len() as int) == all);
    out
}

/// The metrics of a report in the text format of Prometheus.
pub fn prometheus(r: &StatusReport, rate: Option<&str>) -> (text: String)
    ensures
        text@ == metrics(*r, opt_str_view(rate)),
{
    let mut s: String = "# HELP forge_items Items by queue/terminal state.\n# TYPE forge_items gauge\n".to_owned();
    push_sample(&mut s, "forge_items{state=\"", "pending", r.pending);
    push_sample(&mut s, "forge_items{state=\"", "leased", r.leased);
    push_sample(&mut s, "forge_items{state=\"", "done", r.done);
    push_sample(&mut s, "forge_items{state=\"", "dead", r.dead);
    s.append(
        "# HELP forge_failures Dead-lettered items by reason.\n# TYPE forge_failures gauge\n",
    );
    s.append(sample_text("forge_failures{reason=\"", &r.failure_reasons).as_str());
    s.append(
        "# HELP forge_retried Terminal items that needed >1 attempt.\n# TYPE forge_retried gauge\nforge_retried ",
    );
    s.append(decimal_of(r.retried).as_str());
    s.append("\n");
    match rate {
        Some(t) => {
            let ghost before = s@;
            let tail: String = concat3(
                "# HELP forge_success_rate Terminal success ratio.\n# TYPE forge_success_rate gauge\nforge_success_rate ",
                t,
                "\n",
            );
            s.append(tail.as_str());
        },
        None => {
            assert(s@ + Seq::<char>::empty() == s@);
        },
    }
    s
}

/// The report as one line. `rate` is the printed success rate.
pub open spec fn status_line(r: StatusReport, rate: Seq<char>) -> Seq<char> {
    pairs_line(
        seq![
            ("pending"@, r.pending),
            ("leased"@, r.leased),
            ("done"@, r.done),
            ("dead"@, r.dead),
            ("total"@, r.total),
        ],
    ) + " success_rate="@ + rate + " retried="@ + decimal(r.retried as nat) + (
    if r.failure_reasons@.len() == 0 {
        Seq::empty()
    } else {
        " failures["@ + pairs_line(pair_views(r.failure_reasons@)) + "]"@
    })
}

/// The report as one line.
pub fn status_text(r: &StatusReport, rate: &str) -> (text: String)
    ensures
        text@ == status_line(*r, rate@),
{
    let counts: Vec<(String, u64)> = vec![
        pair("pending", r.pending),
        pair("leased", r.leased),
        pair("done", r.done),
        pair("dead", r.dead),
        pair("total", r.total),
    ];
    assert(pair_views(counts@) == seq![
        ("pending"@, r.pending),
        ("leased"@, r.leased),
        ("done"@, r.done),
        ("dead"@, r.dead),
        ("total"@, r.total),
    ]);
    let mut s: String = pairs_text(&counts);
    s.append(" success_rate=");
    s.append(rate);
    s.append(" retried=");
    s.append(decimal_of(r.retried).as_str());
    if r.failure_reasons.len() > 0 {
        let tail: String = concat3(" failures[", pairs_text(&r.failure_reasons).as_str(), "]");
        s.append(tail.as_str());
    } else {
        assert(s@ + Seq::<char>::empty() == s@);
    }
    s
}

/// What a resume would find.
#[derive(Debug, Clone, PartialEq, Eq)]
pub struct AuditReport {
    pub pending: u64,
    /// Leases that a worker still holds.
    pub live_leases: u64,
    /// Leases that dead workers dropped.
    pub orphaned_leases: u64,
    pub done: u64,
    pub dead: u64,
    pub total: u64,
    /// What a resume dispatches again.
    pub reclaimable: u64,
    /// Some lease was dropped.
    pub interrupted: bool,
    /// Who holds the live leases, in the order of their names.
    pub live_holders: Vec<(String, u64)>,
}

impl AuditReport {
    /// The report on counts and leases that were read together.
    pub fn new(c: QueueCounts, audit: ResumeAudit) -> (r: Self)
        requires
            c.sum() <= u64::MAX,
            c.pending + audit.orphaned_leases <= u64::MAX,
        ensures
            r.pending == c.pending,
            r.live_leases == audit.live_leases,
            r.orphaned_leases == audit.orphaned_leases,
            r.done == c.done,
            r.dead == c.dead,
            r.total == c.sum(),
            r.reclaimable == c.pending + audit.orphaned_leases,
            r.interrupted == (audit.orphaned_leases > 0),
            names_in_order(pair_views(r.live_holders@)),
            r.live_holders@.to_multiset() == audit.live_holders@.to_multiset(),
    {
        AuditReport {
            pending: c.pending,
            live_leases: audit.live_leases,
            orphaned_leases: audit.orphaned_leases,
            done: c.done,
            dead: c.dead,
            total: c.total(),
            reclaimable: c.pending + audit.orphaned_leases,
            interrupted: audit.orphaned_leases > 0,
            live_holders: by_name(audit.live_holders),
        }
    }
}

/// The report for a reader, one or more lines.
pub open spec fn audit_lines(r: AuditReport) -> Seq<char> {
    pairs_line(
        seq![
            ("pending"@, r.pending),
            ("live_leases"@, r.live_leases),
            ("orphaned_leases"@, r.orphaned_leases),
            ("done"@, r.done),
            ("dead"@, r.dead),
            ("total"@, r.total),
        ],
    ) + "\nreclaimable="@ + decimal(r.reclaimable as nat) + " ("@ + decimal(r.pending as nat)
        + " pending + "@ + decimal(r.orphaned_leases as nat)
        + " orphaned) — `forge resume` re-dispatches these, join-free, zero-loss\n"@ + (
    if r.interrupted {
        "INTERRUPTED: "@ + decimal(r.orphaned_leases as nat)
            + " item(s) dropped by dead/spot-killed workers — run `forge resume` (or `forge sweep`) to reclaim\n"@
    } else {
        Seq::empty()
    }) + (if r.live_holders@.len() == 0 {
        Seq::empty()
    } else {
        "live workers still holding leases: "@ + pairs_line(pair_views(r.live_holders@)) + "\n"@
    })
}

/// The report for a reader.
pub fn audit_text(r: &AuditReport) -> (text: String)
    ensures
        text@ == audit_lines(*r),
{
    let counts: Vec<(String, u64)> = vec![
        pair("pending", r.pending),
        pair("live_leases", r.live_leases),
        pair("orphaned_leases", r.orphaned_leases),
        pair("done", r.done),
        pair("dead", r.dead),
        pair("total", r.total),
    ];
    assert(pair_views(counts@) == seq![
        ("pending"@, r.pending),
        ("live_leases"@, r.live_leases),
        ("orphaned_leases"@, r.orphaned_leases),
        ("done"@, r.done),
        ("dead"@, r.dead),
        ("total"@, r.total),
    ]);
    let mut s: String = pairs_text(&counts);
    s.append("\nreclaimable=");
    s.append(decimal_of(r.reclaimable).as_str());
    s.append(" (");
    s.append(decimal_of(r.pending).as_str());
    s.append(" pending + ");
    s.append(decimal_of(r.orphaned_leases).as_str());
    s.append(" orphaned) — `forge resume` re-dispatches these, join-free, zero-loss\n");
    if r.interrupted {
        let line: String = concat3(
            "INTERRUPTED: ",
            decimal_of(r.orphaned_leases).as_str(),
            " item(s) dropped by dead/spot-killed workers — run `forge resume` (or `forge sweep`) to reclaim\n",
        );
        s.append(line.as_str());
    } else {
        assert(s@ + Seq::<char>::empty() == s@);
    }
    if r.live_holders.len() > 0 {
        let line: String = concat3(
            "live workers still holding leases: ",
            pairs_text(&r.live_holders).as_str(),
            "\n",
        );
        s.append(line.as_str());
    } else {
        assert(s@ + Seq::<char>::empty() == s@);
    }
    s
}

/// The report of a completeness sweep in JSON.
pub open spec fn verify_json(r: VerifyReport) -> JsonView {
    JsonView::Object(
        seq![
            ("complete"@, JsonView::Bool(r.missing == 0)),
            ("duplicate_input"@, JsonView::Number(NumberView::Unsigned(r.duplicate_input))),
            ("emitted_ids"@, JsonView::Number(NumberView::Unsigned(r.emitted_ids))),
            ("extra"@, JsonView::Number(NumberView::Unsigned(r.extra))),
            ("input_ids"@, JsonView::Number(NumberView::Unsigned(r.input_ids))),
            ("missing"@, JsonView::Number(NumberView::Unsigned(r.missing))),
            ("rejected_input"@, JsonView::Number(NumberView::Unsigned(r.rejected_input))),
            ("runs_spilled"@, JsonView::Number(NumberView::Unsigned(r.runs_spilled as u64))),
        ],
    )
}

/// The report of a completeness sweep as one line of JSON.
pub fn verify_json_text(r: &VerifyReport) -> (text: String)
    ensures
        text@ == json_text(verify_json(*r)),
{
    let members: Vec<(String, Json)> = vec![
        ("complete".to_owned(), Json::Bool(r.is_complete())),
        ("duplicate_input".to_owned(), count_value(r.duplicate_input)),
        ("emitted_ids".to_owned(), count_value(r.emitted_ids)),
        ("extra".to_owned(), count_value(r.extra)),
        ("input_ids".to_owned(), count_value(r.input_ids)),
        ("missing".to_owned(), count_value(r.missing)),
        ("rejected_input".to_owned(), count_value(r.rejected_input)),
        ("runs_spilled".to_owned(), count_value(r.runs_spilled as u64)),
    ];
    proof {
        reveal_strlit("complete");
        reveal_strlit("duplicate_input");
        reveal_strlit("emitted_ids");
        reveal_strlit("extra");
        reveal_strlit("input_ids");
        reveal_strlit("missing");
        reveal_strlit("rejected_input");
        reveal_strlit("runs_spilled");
        lemma_lex_at("complete"@, "duplicate_input"@, 0);
        lemma_lex_at("duplicate_input"@, "emitted_ids"@, 0);
        lemma_lex_at("emitted_ids"@, "extra"@, 1);
        lemma_lex_at("extra"@, "input_ids"@, 0);
        lemma_lex_at("input_ids"@, "missing"@, 0);
        lemma_lex_at("missing"@, "rejected_input"@, 0);
        lemma_lex_at("rejected_input"@, "runs_spilled"@, 1);
        lemma_object_view(members);
        let m = verify_json(*r)->Object_0;
        assert(members_view(members@) == m);
        assert(neighbours_ascend(m));
        lemma_neighbours(m);
        assert forall|i: int| 0 <= i < m.len() implies canonical((#[trigger] m[i]).1) by {}
    }
    render_json(&Json::Object(members))
}

/// The report of a completeness sweep for a reader. `missing_out` is where the missing
/// ids went.
pub open spec fn verify_lines(r: VerifyReport, missing_out: Option<Seq<char>>) -> Seq<char> {
    pairs_line(
        seq![
            ("input_ids"@, r.input_ids),
            ("emitted_ids"@, r.emitted_ids),
            ("missing"@, r.missing),
            ("extra"@, r.extra),
            ("duplicate_input"@, r.duplicate_input),
            ("rejected_input"@, r.rejected_input),
        ],
    ) + "\n"@ + (if r.missing == 0 {
        "complete: every input id has a terminal result ✅"@
    } else {
        match missing_out {
            Some(p) => "INCOMPLETE: "@ + decimal(r.missing as nat) + " missing — ids written to "@
                + p,
            None => "INCOMPLETE: "@ + decimal(r.missing as nat) + " missing"@,
        }
    })
}

/// The report of a completeness sweep for a reader.
pub fn verify_text(r: &VerifyReport, missing_out: Option<&str>) -> (text: String)
    ensures
        text@ == verify_lines(*r, opt_str_view(missing_out)),
{
    let counts: Vec<(String, u64)> = vec![
        pair("input_ids", r.input_ids),
        pair("emitted_ids", r.emitted_ids),
        pair("missing", r.missing),
        pair("extra", r.extra),
        pair("duplicate_input", r.duplicate_input),
        pair("rejected_input", r.rejected_input),
    ];
    assert(pair_views(counts@) == seq![
        ("input_ids"@, r.input_ids),
        ("emitted_ids"@, r.emitted_ids),
        ("missing"@, r.missing),
        ("extra"@, r.extra),
        ("duplicate_input"@, r.duplicate_input),
        ("rejected_input"@, r.rejected_input),
    ]);
    let mut s: String = pairs_text(&counts);
    s.append("\n");
    if r.is_complete() {
        s.append("complete: every input id has a terminal result ✅");
        return s;
    }
    let n: String = decimal_of(r.missing);
    let tail: String = match missing_out {
        Some(p) => concat2(
            concat3("INCOMPLETE: ", n.as_str(), " missing — ids written to ").as_str(),
            p,
        ),
        None => concat3("INCOMPLETE: ", n.as_str(), " missing"),
    };
    s.append(tail.as_str());
    s
}

/// The failure of a sweep, which fails exactly where something is missing.
pub fn verify_failure(r: &VerifyReport) -> (e: Option<String>)
    ensures
        match e {
            Some(t) => r.missing > 0 && t@ == decimal(r.missing as nat)
                + " input id(s) have no terminal result"@,
            None => r.missing == 0,
        },
{
    if r.is_complete() {
        None
    } else {
        Some(
            concat2(decimal_of(r.missing).as_str(), " input id(s) have no terminal result"),
        )
    }
}

/// Where the missing ids go: nowhere if that is asked for, else to the path that is
/// given, else beside the results, or beside the input where the results are objects.
pub fn missing_path(
    no_missing_out: bool,
    missing_out: Option<&str>,
    object_results: bool,
    input: &str,
    results: &str,
) -> (r: Option<String>)
    ensures
        opt_view(r) == if no_missing_out {
            None
        } else {
            match opt_str_view(missing_out) {
                Some(p) => Some(p),
                None => Some(
                    (if object_results {
                        input@
                    } else {
                        results@
                    }) + ".missing.txt"@,
                ),
            }
        },
{
    if no_missing_out {
        return None;
    }
    match missing_out {
        Some(p) => Some(p.to_owned()),
        None => {
            if object_results {
                Some(concat2(input, ".missing.txt"))
            } else {
                Some(concat2(results, ".missing.txt"))
            }
        },
    }
}

/// The last line of a run.
pub open spec fn run_line(t: JobTotals) -> Seq<char> {
    pairs_line(
        seq![
            ("done"@, t.items_done),
            ("dead"@, t.items_dead),
            ("tokens_this_run"@, (t.tokens_prompt + t.tokens_completion) as u64),
        ],
    ) + " (total items "@ + decimal(t.items_total as nat) + ")"@
}

/// The last line of a run.
pub fn run_text(t: &JobTotals) -> (text: String)
    requires
        t.tokens_prompt + t.tokens_completion <= u64::MAX,
    ensures
        text@ == run_line(*t),
{
    let counts: Vec<(String, u64)> = vec![
        pair("done", t.items_done),
        pair("dead", t.items_dead),
        pair("tokens_this_run", t.tokens_total()),
    ];
    assert(pair_views(counts@) == seq![
        ("done"@, t.items_done),
        ("dead"@, t.items_dead),
        ("tokens_this_run"@, (t.tokens_prompt + t.tokens_completion) as u64),
    ]);
    let mut s: String = pairs_text(&counts);
    s.append(" (total items ");
    s.append(decimal_of(t.items_total).as_str());
    s.append(")");
    s
}

/// The last line of an import.
pub open spec fn import_line(input: Seq<char>, out: Seq<char>, s: ImportStats) -> Seq<char> {
    "imported "@ + input + " -> "@ + out + " ("@ + pairs_line(
        seq![("written"@, s.written), ("rejected"@, s.rejected), ("duplicates"@, s.duplicates)],
    ) + ")"@
}

/// The last line of an import.
pub fn import_text(input: &str, out: &str, s: &ImportStats) -> (text: String)
    ensures
        text@ == import_line(input@, out@, *s),
{
    let counts: Vec<(String, u64)> = vec![
        pair("written", s.written),
        pair("rejected", s.rejected),
        pair("duplicates", s.duplicates),
    ];
    assert(pair_views(counts@) == seq![
        ("written"@, s.written),
        ("rejected"@, s.rejected),
        ("duplicates"@, s.duplicates),
    ]);
    let mut t: String = concat3("imported ", input, " -> ");
    t.append(out);
    t.append(" (");
    t.append(pairs_text(&counts).as_str());
    t.append(")");
    t
}

proof fn lemma_pairs_more(pairs: Seq<(Seq<char>, u64)>, name: Seq<char>, n: u64)
    ensures
        pairs.len() > 0 ==> pairs_line(pairs.push((name, n))) == pairs_line(pairs) + " "@ + (name
            + "="@ + decimal(n as nat)),
        pairs.len() == 0 ==> pairs_line(pairs.push((name, n))) == name + "="@ + decimal(n as nat),
{
    let all = pairs.push((name, n));
    assert(all.drop_last() =~= pairs);
    assert(all.last() == (name, n));
    if pairs.len() == 0 {
        assert(all[0] == (name, n));
    }
}

/// A name with its count.
pub open spec fn counted(name: Seq<char>, n: u64) -> Seq<char> {
    name + "="@ + decimal(n as nat)
}

proof fn lemma_pairs_five(a: (Seq<char>, u64), b: (Seq<char>, u64), c: (Seq<char>, u64), d: (Seq<char>, u64), e: (Seq<char>, u64))
    ensures
        pairs_line(seq![a, b, c, d, e]) == counted(a.0, a.1) + " "@ + counted(b.0, b.1) + " "@
            + counted(c.0, c.1) + " "@ + counted(d.0, d.1) + " "@ + counted(e.0, e.1),
        pairs_line(seq![a, b, c]) == counted(a.0, a.1) + " "@ + counted(b.0, b.1) + " "@ + counted(
            c.0,
            c.1,
        ),
{
    let none = Seq::<(Seq<char>, u64)>::empty();
    lemma_pairs_more(none, a.0, a.1);
    lemma_pairs_more(none.push(a), b.0, b.1);
    lemma_pairs_more(none.push(a).push(b), c.0, c.1);
    lemma_pairs_more(none.push(a).push(b).push(c), d.0, d.1);
    lemma_pairs_more(none.push(a).push(b).push(c).push(d), e.0, e.1);
    assert(seq![a, b, c] =~= none.push(a).push(b).push(c));
    assert(seq![a, b, c, d, e] =~= none.push(a).push(b).push(c).push(d).push(e));
}

/// A status says how many items wait, are leased, are done and are dead, how many there
/// are, and how many of the finished ones took more than one attempt.
pub proof fn law_status_reports_count_the_queue(
    c: QueueCounts,
    histogram: Vec<(u32, u64)>,
    failures: Vec<(String, u64)>,
    r: StatusReport,
    attempts: u32,
    n: u64,
)
    requires
        call_ensures(StatusReport::new, (c, histogram, failures), r),
        c.sum() <= u64::MAX,
    ensures
        r.pending == c.pending && r.leased == c.leased && r.done == c.done && r.dead == c.dead,
        r.total == c.pending + c.leased + c.done + c.dead,
        r.retried == retried_sum(histogram@),
        retried_sum(Seq::<(u32, u64)>::empty()) == 0,
        attempts > 1 ==> retried_sum(histogram@.push((attempts, n))) == retried_sum(histogram@) + n,
        attempts <= 1 ==> retried_sum(histogram@.push((attempts, n))) == retried_sum(histogram@),
        r.failure_reasons@.len() == failures@.len(),
        forall|i: int| 0 <= i < failures@.len() ==> r.failure_reasons@.contains(
            #[trigger] failures@[i],
        ),
{
    assert(histogram@.push((attempts, n)).drop_last() =~= histogram@);
    failures@.to_multiset_ensures();
    r.failure_reasons@.to_multiset_ensures();
    assert forall|i: int| 0 <= i < failures@.len() implies r.failure_reasons@.contains(
        #[trigger] failures@[i],
    ) by {
        assert(failures@.contains(failures@[i]));
        assert(failures@.to_multiset().count(failures@[i]) > 0);
    }
}

/// The status line names each count, the success rate and the retries.
pub proof fn law_status_lines_name_each_count(r: &StatusReport, rate: &str, text: String)
    requires
        call_ensures(status_text, (r, rate), text),
        r.failure_reasons@.len() == 0,
    ensures
        text@ == counted("pending"@, r.pending) + " "@ + counted("leased"@, r.leased) + " "@
            + counted("done"@, r.done) + " "@ + counted("dead"@, r.dead) + " "@ + counted(
            "total"@,
            r.total,
        ) + " success_rate="@ + rate@ + " retried="@ + decimal(r.retried as nat),
{
    lemma_pairs_five(
        ("pending"@, r.pending),
        ("leased"@, r.leased),
        ("done"@, r.done),
        ("dead"@, r.dead),
        ("total"@, r.total),
    );
    assert(text@ + Seq::<char>::empty() =~= text@);
    assert(text@ =~= counted("pending"@, r.pending) + " "@ + counted("leased"@, r.leased) + " "@
        + counted("done"@, r.done) + " "@ + counted("dead"@, r.dead) + " "@ + counted(
        "total"@,
        r.total,
    ) + " success_rate="@ + rate@ + " retried="@ + decimal(r.retried as nat));
}

/// The status line of a run with dead letters ends with their reasons.
pub proof fn law_status_lines_name_one_reason(r: &StatusReport, rate: &str, text: String)
    requires
        call_ensures(status_text, (r, rate), text),
        r.failure_reasons@.len() == 1,
    ensures
        exists|head: Seq<char>|
            text@ == #[trigger] (head + " failures["@ + counted(
                r.failure_reasons@[0].0@,
                r.failure_reasons@[0].1,
            ) + "]"@),
{
    let p = pair_views(r.failure_reasons@);
    let none = Seq::<(Seq<char>, u64)>::empty();
    lemma_pairs_more(none, p[0].0, p[0].1);
    assert(p =~= none.push(p[0]));
    let head = pairs_line(
        seq![
            ("pending"@, r.pending),
            ("leased"@, r.leased),
            ("done"@, r.done),
            ("dead"@, r.dead),
            ("total"@, r.total),
        ],
    ) + " success_rate="@ + rate@ + " retried="@ + decimal(r.retried as nat);
    assert(text@ =~= head + " failures["@ + counted(
        r.failure_reasons@[0].0@,
        r.failure_reasons@[0].1,
    ) + "]"@);
}

/// A line of metrics with a label and its number.
pub open spec fn gauge(name: Seq<char>, label: Seq<char>, value: Seq<char>, n: u64) -> Seq<char> {
    name + "{"@ + label + "=\""@ + value + "\"} "@ + decimal(n as nat) + "\n"@
}

/// The metrics give the number of items in each state, and the retries, under the names
/// that a scraper looks for.
pub proof fn law_metrics_name_each_state(r: &StatusReport, rate: Option<&str>, text: String)
    requires
        call_ensures(prometheus, (r, rate), text),
    ensures
        text_contains(text@, gauge("forge_items"@, "state"@, "pending"@, r.pending)),
        text_contains(text@, gauge("forge_items"@, "state"@, "leased"@, r.leased)),
        text_contains(text@, gauge("forge_items"@, "state"@, "done"@, r.done)),
        text_contains(text@, gauge("forge_items"@, "state"@, "dead"@, r.dead)),
        text_contains(text@, "forge_retried "@ + decimal(r.retried as nat) + "\n"@),
        rate matches Some(t) ==> text_contains(text@, "forge_success_rate "@ + t@ + "\n"@),
{
    let h = "forge_items{state=\""@;
    let s1 = sample(h, "pending"@, r.pending);
    let s2 = sample(h, "leased"@, r.leased);
    let s3 = sample(h, "done"@, r.done);
    let s4 = sample(h, "dead"@, r.dead);
    lemma_gauges(r.pending, "pending"@);
    lemma_gauges(r.leased, "leased"@);
    lemma_gauges(r.done, "done"@);
    lemma_gauges(r.dead, "dead"@);
    let q =
    "# HELP forge_retried Terminal items that needed >1 attempt.\n# TYPE forge_retried gauge\nforge_retried "@;
    let e = match opt_str_view(rate) {
        Some(t) =>
        "# HELP forge_success_rate Terminal success ratio.\n# TYPE forge_success_rate gauge\nforge_success_rate "@
            + t + "\n"@,
        None => Seq::empty(),
    };
    lemma_metric_heads();
    lemma_metric_parts(
        text@,
        "# HELP forge_items Items by queue/terminal state.\n# TYPE forge_items gauge\n"@,
        s1,
        s2,
        s3,
        s4,
        "# HELP forge_failures Dead-lettered items by reason.\n# TYPE forge_failures gauge\n"@,
        samples("forge_failures{reason=\""@, pair_views(r.failure_reasons@)),
        q,
        "# HELP forge_retried Terminal items that needed >1 attempt.\n# TYPE forge_retried gauge\n"@,
        "forge_retried "@,
        decimal(r.retried as nat),
        "\n"@,
        e,
    );
    if let Some(t) = rate {
        let p =
        "# HELP forge_success_rate Terminal success ratio.\n# TYPE forge_success_rate gauge\nforge_success_rate "@;
        let p0 =
        "# HELP forge_success_rate Terminal success ratio.\n# TYPE forge_success_rate gauge\n"@;
        let v = "forge_success_rate "@ + t@ + "\n"@;
        lemma_concat_moves(p0, "forge_success_rate "@, t@, "\n"@);
        assert(e == p0 + v);
        lemma_tail_holds(
            text@,
            "# HELP forge_items Items by queue/terminal state.\n# TYPE forge_items gauge\n"@ + s1 + s2
                + s3 + s4
                + "# HELP forge_failures Dead-lettered items by reason.\n# TYPE forge_failures gauge\n"@
                + samples("forge_failures{reason=\""@, pair_views(r.failure_reasons@)) + q + decimal(
                r.retried as nat,
            ) + "\n"@,
            p0,
            v,
        );
    }
}

proof fn lemma_concat_moves(a: Seq<char>, b: Seq<char>, c: Seq<char>, d: Seq<char>)
    ensures
        (a + b) + c + d == a + (b + c + d),
{
    assert((a + b) + c + d =~= a + (b + c + d));
}

proof fn lemma_tail_holds(s: Seq<char>, head: Seq<char>, p: Seq<char>, v: Seq<char>)
    requires
        s == head + (p + v),
    ensures
        text_contains(s, v),
{
    lemma_holds(s, head + p, v, Seq::empty());
}

proof fn lemma_gauges(n: u64, label: Seq<char>)
    ensures
        sample("forge_items{state=\""@, label, n) == gauge("forge_items"@, "state"@, label, n),
{
    reveal_strlit("forge_items");
    reveal_strlit("{");
    reveal_strlit("state");
    reveal_strlit("=\"");
    reveal_strlit("forge_items{state=\"");
    assert("forge_items"@ + "{"@ + "state"@ + "=\""@ =~= "forge_items{state=\""@);
}

proof fn lemma_metric_heads()
    ensures
        "# HELP forge_retried Terminal items that needed >1 attempt.\n# TYPE forge_retried gauge\nforge_retried "@
            == "# HELP forge_retried Terminal items that needed >1 attempt.\n# TYPE forge_retried gauge\n"@
            + "forge_retried "@,
        "# HELP forge_success_rate Terminal success ratio.\n# TYPE forge_success_rate gauge\nforge_success_rate "@
            == "# HELP forge_success_rate Terminal success ratio.\n# TYPE forge_success_rate gauge\n"@
            + "forge_success_rate "@,
{
    reveal_strlit(
        "# HELP forge_retried Terminal items that needed >1 attempt.\n# TYPE forge_retried gauge\nforge_retried ",
    );
    reveal_strlit(
        "# HELP forge_retried Terminal items that needed >1 attempt.\n# TYPE forge_retried gauge\n",
    );
    reveal_strlit("forge_retried ");
    reveal_strlit(
        "# HELP forge_success_rate Terminal success ratio.\n# TYPE forge_success_rate gauge\nforge_success_rate ",
    );
    reveal_strlit(
        "# HELP forge_success_rate Terminal success ratio.\n# TYPE forge_success_rate gauge\n",
    );
    reveal_strlit("forge_success_rate ");
    assert("# HELP forge_retried Terminal items that needed >1 attempt.\n# TYPE forge_retried gauge\nforge_retried "@
        =~= "# HELP forge_retried Terminal items that needed >1 attempt.\n# TYPE forge_retried gauge\n"@
        + "forge_retried "@);
    assert("# HELP forge_success_rate Terminal success ratio.\n# TYPE forge_success_rate gauge\nforge_success_rate "@
        =~= "# HELP forge_success_rate Terminal success ratio.\n# TYPE forge_success_rate gauge\n"@
        + "forge_success_rate "@);
}

proof fn lemma_metric_parts(
    s: Seq<char>,
    a: Seq<char>,
    s1: Seq<char>,
    s2: Seq<char>,
    s3: Seq<char>,
    s4: Seq<char>,
    b: Seq<char>,
    c: Seq<char>,
    q: Seq<char>,
    q0: Seq<char>,
    q1: Seq<char>,
    d: Seq<char>,
    nl: Seq<char>,
    e: Seq<char>,
)
    requires
        s == a + s1 + s2 + s3 + s4 + b + c + q + d + nl + e,
        q == q0 + q1,
    ensures
        text_contains(s, s1),
        text_contains(s, s2),
        text_contains(s, s3),
        text_contains(s, s4),
        text_contains(s, q1 + d + nl),
{
    let z = b + c + q + d + nl + e;
    assert(s =~= a + s1 + s2 + s3 + s4 + z);
    lemma_holds(s, a, s1, s2 + s3 + s4 + z);
    lemma_holds(s, a + s1, s2, s3 + s4 + z);
    lemma_holds(s, a + s1 + s2, s3, s4 + z);
    lemma_holds(s, a + s1 + s2 + s3, s4, z);
    lemma_holds(s, a + s1 + s2 + s3 + s4 + b + c + q0, q1 + d + nl, e);
}

proof fn lemma_holds(s: Seq<char>, a: Seq<char>, word: Seq<char>, b: Seq<char>)
    requires
        s =~= a + word + b,
    ensures
        text_contains(s, word),
{
    assert(s == a + word + b);
    crate::types::lemma_holds_word(a, word, b);
}

/// An audit says what a resume would take up: what waits, and what dead workers dropped;
/// and that a run was interrupted just where something was dropped.
pub proof fn law_audits_say_what_a_resume_takes_up(c: QueueCounts, audit: ResumeAudit, r: AuditReport)
    requires
        call_ensures(AuditReport::new, (c, audit), r),
        c.sum() <= u64::MAX,
    ensures
        r.reclaimable == c.pending + audit.orphaned_leases,
        r.interrupted <==> audit.orphaned_leases > 0,
        r.live_leases == audit.live_leases,
        r.orphaned_leases == audit.orphaned_leases,
        r.pending == c.pending && r.done == c.done && r.dead == c.dead,
        r.total == c.pending + c.leased + c.done + c.dead,
        r.live_holders@.len() == audit.live_holders@.len(),
{
    audit.live_holders@.to_multiset_ensures();
    r.live_holders@.to_multiset_ensures();
}

/// The report for a reader says how many items can be reclaimed, and of how many kinds;
/// where a run was interrupted it says so.
pub proof fn law_audit_texts_say_what_can_be_reclaimed(r: &AuditReport, text: String)
    requires
        call_ensures(audit_text, (r,), text),
    ensures
        text_contains(
            text@,
            "reclaimable="@ + decimal(r.reclaimable as nat) + " ("@ + decimal(r.pending as nat)
                + " pending + "@ + decimal(r.orphaned_leases as nat) + " orphaned)"@,
        ),
        r.interrupted ==> text_contains(
            text@,
            "INTERRUPTED: "@ + decimal(r.orphaned_leases as nat),
        ),
{
    let head = pairs_line(
        seq![
            ("pending"@, r.pending),
            ("live_leases"@, r.live_leases),
            ("orphaned_leases"@, r.orphaned_leases),
            ("done"@, r.done),
            ("dead"@, r.dead),
            ("total"@, r.total),
        ],
    );
    reveal_strlit("\nreclaimable=");
    reveal_strlit("reclaimable=");
    reveal_strlit(" orphaned) — `forge resume` re-dispatches these, join-free, zero-loss\n");
    reveal_strlit(" orphaned)");
    reveal_strlit(" — `forge resume` re-dispatches these, join-free, zero-loss\n");
    assert("\nreclaimable="@ =~= seq!['\n'] + "reclaimable="@);
    assert(" orphaned) — `forge resume` re-dispatches these, join-free, zero-loss\n"@
        =~= " orphaned)"@ + " — `forge resume` re-dispatches these, join-free, zero-loss\n"@);
    let word = "reclaimable="@ + decimal(r.reclaimable as nat) + " ("@ + decimal(r.pending as nat)
        + " pending + "@ + decimal(r.orphaned_leases as nat) + " orphaned)"@;
    let mid = " — `forge resume` re-dispatches these, join-free, zero-loss\n"@;
    let cut = if r.interrupted {
        "INTERRUPTED: "@ + decimal(r.orphaned_leases as nat)
            + " item(s) dropped by dead/spot-killed workers — run `forge resume` (or `forge sweep`) to reclaim\n"@
    } else {
        Seq::empty()
    };
    let tail = if r.live_holders@.len() == 0 {
        Seq::empty()
    } else {
        "live workers still holding leases: "@ + pairs_line(pair_views(r.live_holders@)) + "\n"@
    };
    lemma_holds(text@, head + seq!['\n'], word, mid + cut + tail);
    if r.interrupted {
        let w = "INTERRUPTED: "@ + decimal(r.orphaned_leases as nat);
        let end =
        " item(s) dropped by dead/spot-killed workers — run `forge resume` (or `forge sweep`) to reclaim\n"@;
        lemma_holds(text@, head + seq!['\n'] + word + mid, w, end + tail);
    }
}

/// The report of a sweep is written field by field, and is complete just where nothing is
/// missing.
pub proof fn law_sweeps_are_written_by_name(r: &VerifyReport, text: String)
    requires
        call_ensures(verify_json_text, (r,), text),
    ensures
        exists|j: JsonView|
            text@ == #[trigger] json_text(j) && j.get("complete"@) == Some(
                JsonView::Bool(r.missing == 0),
            ) && j.u64_at("missing"@) == Some(r.missing) && j.u64_at("input_ids"@) == Some(
                r.input_ids,
            ) && j.u64_at("emitted_ids"@) == Some(r.emitted_ids) && j.u64_at("extra"@) == Some(
                r.extra,
            ) && j.u64_at("duplicate_input"@) == Some(r.duplicate_input) && j.u64_at(
                "rejected_input"@,
            ) == Some(r.rejected_input),
{
    reveal_strlit("complete");
    reveal_strlit("duplicate_input");
    reveal_strlit("emitted_ids");
    reveal_strlit("extra");
    reveal_strlit("input_ids");
    reveal_strlit("missing");
    reveal_strlit("rejected_input");
    reveal_strlit("runs_spilled");
    lemma_lex_at("complete"@, "duplicate_input"@, 0);
    lemma_lex_at("duplicate_input"@, "emitted_ids"@, 0);
    lemma_lex_at("emitted_ids"@, "extra"@, 1);
    lemma_lex_at("extra"@, "input_ids"@, 0);
    lemma_lex_at("input_ids"@, "missing"@, 0);
    lemma_lex_at("missing"@, "rejected_input"@, 0);
    lemma_lex_at("rejected_input"@, "runs_spilled"@, 1);
    let j = verify_json(*r);
    let m = j->Object_0;
    assert(neighbours_ascend(m));
    lemma_neighbours(m);
    crate::openai::lemma_member_at(m, 0);
    crate::openai::lemma_member_at(m, 1);
    crate::openai::lemma_member_at(m, 2);
    crate::openai::lemma_member_at(m, 3);
    crate::openai::lemma_member_at(m, 4);
    crate::openai::lemma_member_at(m, 5);
    crate::openai::lemma_member_at(m, 6);
    assert(text@ == json_text(j));
}

/// A sweep fails just where something is missing, and its text says how much.
pub proof fn law_sweeps_fail_where_something_is_missing(
    r: &VerifyReport,
    e: Option<String>,
    text: String,
    missing_out: Option<&str>,
)
    requires
        call_ensures(verify_failure, (r,), e),
        call_ensures(verify_text, (r, missing_out), text),
    ensures
        e is Some <==> r.missing > 0,
        e matches Some(t) ==> t@ == decimal(r.missing as nat)
            + " input id(s) have no terminal result"@,
        r.missing > 0 ==> text_contains(
            text@,
            "INCOMPLETE: "@ + decimal(r.missing as nat) + " missing"@,
        ),
        r.missing == 0 ==> text_contains(text@, "complete: every input id has a terminal result"@),
{
    let head = pairs_line(
        seq![
            ("input_ids"@, r.input_ids),
            ("emitted_ids"@, r.emitted_ids),
            ("missing"@, r.missing),
            ("extra"@, r.extra),
            ("duplicate_input"@, r.duplicate_input),
            ("rejected_input"@, r.rejected_input),
        ],
    ) + "\n"@;
    if r.missing == 0 {
        reveal_strlit("complete: every input id has a terminal result ✅");
        reveal_strlit("complete: every input id has a terminal result");
        let w = "complete: every input id has a terminal result"@;
        let all = "complete: every input id has a terminal result ✅"@;
        assert(all =~= w + all.skip(w.len() as int));
        lemma_holds(text@, head, w, all.skip(w.len() as int));
    } else {
        let w = "INCOMPLETE: "@ + decimal(r.missing as nat) + " missing"@;
        match missing_out {
            Some(p) => {
                reveal_strlit(" missing — ids written to ");
                reveal_strlit(" missing");
                let long = " missing — ids written to "@;
                let short = " missing"@;
                assert(long =~= short + long.skip(short.len() as int));
                lemma_holds(text@, head, w, long.skip(short.len() as int) + p@);
            },
            None => {
                lemma_holds(text@, head, w, Seq::empty());
            },
        }
    }
}

/// The missing ids go to the path that is given, else beside the results, or beside the
/// input where the results are objects; and nowhere where that is asked for.
pub proof fn law_missing_ids_have_a_place(
    no_missing_out: bool,
    missing_out: Option<&str>,
    object_results: bool,
    input: &str,
    results: &str,
    r: Option<String>,
)
    requires
        call_ensures(missing_path, (no_missing_out, missing_out, object_results, input, results), r),
    ensures
        no_missing_out <==> r is None,
        !no_missing_out ==> (missing_out matches Some(p) ==> r->0@ == p@),
        !no_missing_out && missing_out is None && object_results ==> r->0@ == input@
            + ".missing.txt"@,
        !no_missing_out && missing_out is None && !object_results ==> r->0@ == results@
            + ".missing.txt"@,
{
}

/// The last line of a run names what is done and dead, the tokens of the run, and how many
/// items there are.
pub proof fn law_run_lines_name_the_totals(t: &JobTotals, text: String)
    requires
        call_ensures(run_text, (t,), text),
        t.tokens_prompt + t.tokens_completion <= u64::MAX,
    ensures
        text@ == counted("done"@, t.items_done) + " "@ + counted("dead"@, t.items_dead) + " "@
            + counted("tokens_this_run"@, (t.tokens_prompt + t.tokens_completion) as u64)
            + " (total items "@ + decimal(t.items_total as nat) + ")"@,
{
    lemma_pairs_five(
        ("done"@, t.items_done),
        ("dead"@, t.items_dead),
        ("tokens_this_run"@, (t.tokens_prompt + t.tokens_completion) as u64),
        ("done"@, 0),
        ("done"@, 0),
    );
}

/// The last line of an import names the files and what became of the lines.
pub proof fn law_import_lines_name_the_counts(input: &str, out: &str, s: &ImportStats, text: String)
    requires
        call_ensures(import_text, (input, out, s), text),
    ensures
        text@ == "imported "@ + input@ + " -> "@ + out@ + " ("@ + (counted("written"@, s.written)
            + " "@ + counted("rejected"@, s.rejected) + " "@ + counted("duplicates"@, s.duplicates))
            + ")"@,
{
    lemma_pairs_five(
        ("written"@, s.written),
        ("rejected"@, s.rejected),
        ("duplicates"@, s.duplicates),
        ("written"@, 0),
        ("written"@, 0),
    );
}

} // verus!

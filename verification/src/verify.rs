//! Completeness check: an exact set difference between the ids of an input and those
//! that have a terminal result.
//!
//! Ids go through bounded buffers that are sorted and spilled as runs. A merge walks
//! the sorted runs of each side, and one linear pass over the two streams finds what is
//! missing. The check is exact, since a false hit would be a silent lie about
//! completeness.

use vstd::prelude::*;

use crate::id_set::{ascending, lemma_ascending_distinct};
use crate::import::source_id;
use crate::item::{valid_custom_id, valid_id};
use crate::json::{json_parse, parse_json, Json, JsonView};
use crate::text::{
    blank, decode, is_blank, lemma_lex_total, lemma_lex_transitive, lex_before, opt_str_view,
    opt_view, raw_views, str_before, str_eq, text_of, views,
};

verus! {

/// Default number of ids buffered before a sorted run is spilled.
pub const DEFAULT_RUN_CAPACITY: usize = 1_000_000;

/// How many missing ids a report keeps as a sample.
pub const MISSING_SAMPLE_CAP: usize = 100;

/// Knobs for a completeness sweep.
#[derive(Debug, Clone, PartialEq, Eq)]
pub struct VerifyConfig {
    /// Ids per buffer before spilling.
    pub run_capacity: usize,
    /// Optional path of a sidecar that receives every missing id.
    pub missing_out: Option<String>,
}

impl Default for VerifyConfig {
    fn default() -> (c: Self)
        ensures
            c.run_capacity == DEFAULT_RUN_CAPACITY,
            c.missing_out is None,
    {
        VerifyConfig { run_capacity: DEFAULT_RUN_CAPACITY, missing_out: None }
    }
}

/// The completeness tally.
#[derive(Debug, Clone, PartialEq, Eq)]
pub struct VerifyReport {
    /// Distinct input ids.
    pub input_ids: u64,
    /// Distinct emitted ids.
    pub emitted_ids: u64,
    /// Input ids with no terminal result.
    pub missing: u64,
    /// Emitted ids that are not in the input.
    pub extra: u64,
    /// Surplus occurrences of input ids.
    pub duplicate_input: u64,
    /// Input lines without a valid id.
    pub rejected_input: u64,
    /// The first of the missing ids.
    pub missing_sample: Vec<String>,
    /// Sorted runs spilled across both sides.
    pub runs_spilled: usize,
}

impl VerifyReport {
    /// True when nothing is missing.
    pub fn is_complete(&self) -> (r: bool)
        ensures
            r == (self.missing == 0),
    {
        self.missing == 0
    }

    /// A report in which nothing has been counted, over `runs_spilled` runs.
    pub fn empty(runs_spilled: usize) -> (r: Self)
        ensures
            r.input_ids == 0 && r.emitted_ids == 0,
            r.missing == 0 && r.extra == 0,
            r.duplicate_input == 0 && r.rejected_input == 0,
            views(r.missing_sample@) == Seq::<Seq<char>>::empty(),
            r.runs_spilled == runs_spilled,
    {
        let r: VerifyReport = VerifyReport {
            input_ids: 0,
            emitted_ids: 0,
            missing: 0,
            extra: 0,
            duplicate_input: 0,
            rejected_input: 0,
            missing_sample: Vec::new(),
            runs_spilled,
        };
        assert(views(r.missing_sample@) == Seq::<Seq<char>>::empty());
        r
    }

    /// Compares the two ids at which the streams stand, and counts one that only one
    /// side has. The answer says which streams move on.
    pub fn step(&mut self, input: Option<&str>, emitted: Option<&str>) -> (r: Step)
        requires
            old(self).missing < u64::MAX,
            old(self).extra < u64::MAX,
            old(self).missing_sample@.len() <= MISSING_SAMPLE_CAP,
        ensures
            r == compared(opt_str_view(input), opt_str_view(emitted)),
            final(self).missing == old(self).missing + if r is Missing {
                1int
            } else {
                0
            },
            final(self).extra == old(self).extra + if r is Extra {
                1int
            } else {
                0
            },
            views(final(self).missing_sample@) == if r is Missing
                && old(self).missing_sample@.len() < MISSING_SAMPLE_CAP {
                views(old(self).missing_sample@).push(input->0@)
            } else {
                views(old(self).missing_sample@)
            },
            final(self).input_ids == old(self).input_ids,
            final(self).emitted_ids == old(self).emitted_ids,
            final(self).duplicate_input == old(self).duplicate_input,
            final(self).rejected_input == old(self).rejected_input,
            final(self).runs_spilled == old(self).runs_spilled,
    {
        let r: Step = match (input, emitted) {
            (None, None) => Step::Done,
            (Some(_), None) => Step::Missing,
            (None, Some(_)) => Step::Extra,
            (Some(x), Some(y)) => {
                if str_before(x, y) {
                    Step::Missing
                } else if str_before(y, x) {
                    Step::Extra
                } else {
                    Step::Both
                }
            },
        };
        match r {
            Step::Missing => {
                self.missing = self.missing + 1;
                if self.missing_sample.len() < MISSING_SAMPLE_CAP {
                    if let Some(x) = input {
                        let ghost before = self.missing_sample@;
                        self.missing_sample.push(x.to_owned());
                        assert(views(self.missing_sample@) == views(before).push(x@));
                    }
                }
            },
            Step::Extra => {
                self.extra = self.extra + 1;
            },
            _ => {},
        }
        r
    }
}

/// What two sorted streams say of the ids at which they stand.
pub enum Step {
    /// Both are at their end.
    Done,
    /// The input's id was not emitted; the input moves on.
    Missing,
    /// The emitted id is not in the input; the emitted side moves on.
    Extra,
    /// Both have the id; both move on.
    Both,
}

/// What two sorted streams say of the ids at which they stand.
pub open spec fn compared(input: Option<Seq<char>>, emitted: Option<Seq<char>>) -> Step {
    match (input, emitted) {
        (None, None) => Step::Done,
        (Some(_), None) => Step::Missing,
        (None, Some(_)) => Step::Extra,
        (Some(x), Some(y)) => if lex_before(x, y) {
            Step::Missing
        } else if lex_before(y, x) {
            Step::Extra
        } else {
            Step::Both
        },
    }
}

/// The id of a parsed line.
pub open spec fn id_in(parsed: Option<JsonView>) -> Option<Seq<char>> {
    match parsed {
        Some(v) => source_id(v),
        None => None,
    }
}

/// The id of a parsed line.
pub fn id_of_json(parsed: &Option<Json>) -> (r: Option<String>)
    ensures
        opt_view(r) == id_in(
            match parsed {
                Some(j) => Some(j@),
                None => None,
            },
        ),
{
    match parsed {
        Some(v) => {
            let found: Option<&Json> = match v.get("custom_id") {
                Some(x) => Some(x),
                None => v.get("recordId"),
            };
            match found {
                Some(x) => match x.as_str() {
                    Some(t) => Some(t.to_owned()),
                    None => None,
                },
                None => None,
            }
        },
        None => None,
    }
}

/// The id of one line; nothing for a torn line or one without an id.
pub fn id_of_line(line: &str) -> (r: Option<String>)
    ensures
        opt_view(r) == id_in(json_parse(line@).ok()),
{
    let parsed: Option<Json> = match parse_json(line) {
        Ok(j) => Some(j),
        Err(_) => None,
    };
    id_of_json(&parsed)
}

/// What a line gives to a sweep.
pub enum Found {
    /// Nothing stands on the line.
    Blank,
    /// An id.
    Id(String),
    /// No id that counts.
    Nothing,
}

/// The id that a line gives to a sweep. On the input side the id must be valid.
pub open spec fn line_id(raw: Seq<u8>, validate: bool) -> Option<Seq<char>> {
    let id = match text_of(raw) {
        Some(line) => id_in(json_parse(line).ok()),
        None => None,
    };
    if blank(raw) {
        None
    } else if validate && !(id matches Some(x) && valid_id(x)) {
        None
    } else {
        id
    }
}

/// What a line gives to a sweep.
pub fn scan_line(raw: &[u8], validate: bool) -> (r: Found)
    ensures
        match r {
            Found::Blank => blank(raw@),
            Found::Id(id) => !blank(raw@) && line_id(raw@, validate) == Some(id@),
            Found::Nothing => !blank(raw@) && line_id(raw@, validate) is None,
        },
{
    let line: String = match decode(raw) {
        Some(t) => t,
        None => {
            return Found::Nothing;
        },
    };
    if is_blank(line.as_str()) {
        return Found::Blank;
    }
    match id_of_line(line.as_str()) {
        Some(id) => {
            if !validate || valid_custom_id(id.as_str()) {
                Found::Id(id)
            } else {
                Found::Nothing
            }
        },
        None => Found::Nothing,
    }
}

/// The ids that lines give to a sweep, in order.
pub open spec fn found_ids(lines: Seq<Seq<u8>>, validate: bool) -> Seq<Seq<char>>
    decreases lines.len(),
{
    if lines.len() == 0 {
        Seq::empty()
    } else {
        let init = found_ids(lines.drop_last(), validate);
        match line_id(lines.last(), validate) {
            Some(id) => init.push(id),
            None => init,
        }
    }
}

/// How many lines hold something but no id that counts on the input side.
pub open spec fn refused_lines(lines: Seq<Seq<u8>>) -> nat
    decreases lines.len(),
{
    if lines.len() == 0 {
        0
    } else {
        refused_lines(lines.drop_last()) + if !blank(lines.last()) && line_id(
            lines.last(),
            true,
        ) is None {
            1nat
        } else {
            0nat
        }
    }
}

/// The texts are in order, equal ones side by side.
pub open spec fn in_order(ids: Seq<Seq<char>>) -> bool {
    forall|i: int, j: int|
        0 <= i < j < ids.len() ==> !lex_before(#[trigger] ids[j], #[trigger] ids[i])
}

/// `std`'s unstable sort of a slice of `String`: afterwards the same texts stand there,
/// in the order of their bytes.
#[verifier::external_body]
fn sort_ids(ids: &mut Vec<String>)
    ensures
        in_order(views(final(ids)@)),
        views(final(ids)@).to_multiset() == views(old(ids)@).to_multiset(),
{
    ids.sort_unstable()
}

/// A bounded buffer of ids that is sorted and handed out as a run when it is full.
pub struct RunSpiller {
    capacity: usize,
    buf: Vec<String>,
    runs: usize,
}

/// How many runs of `capacity` ids `n` ids make.
pub open spec fn run_count(n: nat, capacity: nat) -> nat {
    (n + capacity - 1) as nat / capacity
}

impl RunSpiller {
    /// The ids per run.
    pub closed spec fn spec_capacity(self) -> nat {
        self.capacity as nat
    }

    /// The ids that wait.
    pub closed spec fn spec_buf(self) -> Seq<Seq<char>> {
        views(self.buf@)
    }

    /// The runs handed out.
    pub closed spec fn spec_runs(self) -> nat {
        self.runs as nat
    }

    /// The buffer is not full.
    pub open spec fn wf(self) -> bool {
        self.spec_buf().len() < self.spec_capacity()
    }

    /// An empty buffer of at least one id.
    pub fn new(capacity: usize) -> (s: Self)
        ensures
            s.wf(),
            s.spec_capacity() == if capacity < 1 { 1 } else { capacity as nat },
            s.spec_buf() == Seq::<Seq<char>>::empty(),
            s.spec_runs() == 0,
    {
        let s: RunSpiller = RunSpiller {
            capacity: if capacity < 1 {
                1
            } else {
                capacity
            },
            buf: Vec::new(),
            runs: 0,
        };
        assert(views(s.buf@) == Seq::<Seq<char>>::empty());
        s
    }

    /// The runs handed out.
    pub fn runs(&self) -> (n: usize)
        ensures
            n == self.spec_runs(),
    {
        self.runs
    }

    /// Adds an id. Hands out a sorted run once the buffer is full.
    pub fn push(&mut self, id: String) -> (run: Option<Vec<String>>)
        requires
            old(self).wf(),
            old(self).spec_runs() < usize::MAX,
        ensures
            final(self).wf(),
            final(self).spec_capacity() == old(self).spec_capacity(),
            match run {
                Some(r) => {
                    &&& old(self).spec_buf().len() + 1 == old(self).spec_capacity()
                    &&& in_order(views(r@))
                    &&& views(r@).to_multiset() == old(self).spec_buf().push(id@).to_multiset()
                    &&& final(self).spec_buf() == Seq::<Seq<char>>::empty()
                    &&& final(self).spec_runs() == old(self).spec_runs() + 1
                },
                None => {
                    &&& old(self).spec_buf().len() + 1 < old(self).spec_capacity()
                    &&& final(self).spec_buf() == old(self).spec_buf().push(id@)
                    &&& final(self).spec_runs() == old(self).spec_runs()
                },
            },
    {
        let ghost before = self.buf@;
        self.buf.push(id);
        assert(views(self.buf@) == views(before).push(id@));
        if self.buf.len() >= self.capacity {
            let mut run: Vec<String> = Vec::new();
            std::mem::swap(&mut run, &mut self.buf);
            sort_ids(&mut run);
            self.runs = self.runs + 1;
            assert(views(self.buf@) == Seq::<Seq<char>>::empty());
            Some(run)
        } else {
            None
        }
    }

    /// Hands out what waits as a last sorted run, if anything does.
    pub fn finish(&mut self) -> (run: Option<Vec<String>>)
        requires
            old(self).wf(),
            old(self).spec_runs() < usize::MAX,
        ensures
            final(self).wf(),
            final(self).spec_capacity() == old(self).spec_capacity(),
            final(self).spec_buf() == Seq::<Seq<char>>::empty(),
            match run {
                Some(r) => {
                    &&& old(self).spec_buf().len() > 0
                    &&& in_order(views(r@))
                    &&& views(r@).to_multiset() == old(self).spec_buf().to_multiset()
                    &&& final(self).spec_runs() == old(self).spec_runs() + 1
                },
                None => old(self).spec_buf().len() == 0 && final(self).spec_runs() == old(
                    self,
                ).spec_runs(),
            },
    {
        if self.buf.len() == 0 {
            assert(views(self.buf@) =~= Seq::<Seq<char>>::empty());
            return None;
        }
        let mut run: Vec<String> = Vec::new();
        std::mem::swap(&mut run, &mut self.buf);
        sort_ids(&mut run);
        self.runs = self.runs + 1;
        assert(views(self.buf@) == Seq::<Seq<char>>::empty());
        Some(run)
    }
}

/// The heads of sorted runs, from which the least is taken each time.
pub struct KwayMerge {
    heads: Vec<Option<String>>,
}

/// The views of the heads.
pub open spec fn head_views(heads: Seq<Option<String>>) -> Seq<Option<Seq<char>>> {
    heads.map_values(|h: Option<String>| opt_view(h))
}

/// `i` is the first of the least heads.
pub open spec fn is_least(heads: Seq<Option<Seq<char>>>, i: int) -> bool {
    &&& 0 <= i < heads.len()
    &&& heads[i] is Some
    &&& forall|j: int|
        0 <= j < heads.len() && (#[trigger] heads[j]) is Some ==> !lex_before(
            heads[j]->0,
            heads[i]->0,
        )
    &&& forall|j: int|
        0 <= j < i && (#[trigger] heads[j]) is Some ==> heads[j]->0 != heads[i]->0
}

impl KwayMerge {
    /// The heads.
    pub closed spec fn spec_heads(self) -> Seq<Option<Seq<char>>> {
        head_views(self.heads@)
    }

    /// A merge of runs with the given heads; a run without one is at its end.
    pub fn open(heads: Vec<Option<String>>) -> (m: Self)
        ensures
            m.spec_heads() == head_views(heads@),
    {
        KwayMerge { heads }
    }

    /// Takes the least head, and says from which run it is. The caller puts the next id
    /// of that run in its place.
    pub fn pop(&mut self) -> (r: Option<(String, usize)>)
        ensures
            match r {
                Some((id, i)) => {
                    &&& is_least(old(self).spec_heads(), i as int)
                    &&& old(self).spec_heads()[i as int] == Some(id@)
                    &&& final(self).spec_heads() == old(self).spec_heads().update(i as int, None)
                },
                None => {
                    &&& final(self).spec_heads() == old(self).spec_heads()
                    &&& forall|j: int|
                        0 <= j < old(self).spec_heads().len() ==> (
                        #[trigger] old(self).spec_heads()[j]) is None
                },
            },
    {
        let ghost hs = self.spec_heads();
        let mut best: Option<usize> = None;
        let mut i: usize = 0;
        while i < self.heads.len()
            invariant
                i <= self.heads@.len(),
                hs == head_views(self.heads@),
                match best {
                    Some(b) => b < i && is_least(hs.take(i as int), b as int),
                    None => forall|j: int| 0 <= j < i ==> (#[trigger] hs[j]) is None,
                },
            decreases self.heads@.len() - i,
        {
            let ghost init = hs.take(i as int);
            let ghost next = hs.take(i + 1);
            assert forall|j: int| 0 <= j < i implies next[j] == init[j] by {}
            assert(next[i as int] == opt_view(self.heads@[i as int]));
            let better: bool = match &self.heads[i] {
                Some(x) => match best {
                    Some(b) => match &self.heads[b] {
                        Some(y) => str_before(x.as_str(), y.as_str()),
                        None => false,
                    },
                    None => true,
                },
                None => false,
            };
            proof {
                if let Some(b) = best {
                    assert(init[b as int] == opt_view(self.heads@[b as int]));
                    assert forall|j: int| 0 <= j < next.len() && (
                    #[trigger] next[j]) is Some implies !lex_before(
                        next[j]->0,
                        if better {
                            next[i as int]->0
                        } else {
                            next[b as int]->0
                        },
                    ) by {
                        if better {
                            if j < i {
                                assert(init[j] is Some);
                                assert(!lex_before(init[j]->0, init[b as int]->0));
                                lemma_lex_total(init[j]->0, init[b as int]->0);
                                if lex_before(init[j]->0, next[i as int]->0) {
                                    lemma_lex_transitive(
                                        init[j]->0,
                                        next[i as int]->0,
                                        init[b as int]->0,
                                    );
                                }
                            } else {
                                lemma_lex_total(next[j]->0, next[j]->0);
                            }
                        } else if j < i {
                            assert(init[j] is Some);
                        }
                    }
                    if better {
                        assert forall|j: int| 0 <= j < i && (
                        #[trigger] next[j]) is Some implies next[j]->0 != next[i as int]->0 by {
                            assert(init[j] is Some);
                            assert(!lex_before(init[j]->0, init[b as int]->0));
                        }
                    } else {
                        assert forall|j: int| 0 <= j < b && (
                        #[trigger] next[j]) is Some implies next[j]->0 != next[b as int]->0 by {
                            assert(init[j] is Some);
                        }
                    }
                } else if better {
                    lemma_lex_total(next[i as int]->0, next[i as int]->0);
                    assert forall|j: int| 0 <= j < i implies (#[trigger] next[j]) is None by {
                        assert(hs[j] is None);
                    }
                }
            }
            if better {
                best = Some(i);
            }
            i = i + 1;
        }
        assert(hs.take(hs.len() as int) == hs);
        match best {
            Some(b) => {
                let ghost before = self.heads@;
                let slot: &mut Option<String> = &mut self.heads[b];
                let taken: Option<String> = slot.take();
                assert(self.spec_heads() == hs.update(b as int, None));
                match taken {
                    Some(id) => Some((id, b)),
                    None => None,
                }
            },
            None => None,
        }
    }

    /// Puts the next id of run `i` in the place of the one that was taken.
    pub fn refill(&mut self, i: usize, next: Option<String>)
        requires
            i < old(self).spec_heads().len(),
        ensures
            final(self).spec_heads() == old(self).spec_heads().update(i as int, opt_view(next)),
    {
        let ghost hs = self.spec_heads();
        self.heads.set(i, next);
        assert(self.spec_heads() == hs.update(i as int, opt_view(next)));
    }
}

/// Some run holds `x`.
pub open spec fn in_runs(runs: Seq<Vec<String>>, x: Seq<char>) -> bool {
    exists|r: int| 0 <= r < runs.len() && views((#[trigger] runs[r])@).contains(x)
}

/// How many ids the runs hold.
pub open spec fn held_by(runs: Seq<Vec<String>>) -> nat
    decreases runs.len(),
{
    if runs.len() == 0 {
        0
    } else {
        held_by(runs.drop_last()) + runs.last()@.len()
    }
}

/// The runs and the buffer hold exactly `ids`; every run is sorted and full.
spec fn spilling(runs: Seq<Vec<String>>, s: RunSpiller, ids: Seq<Seq<char>>) -> bool {
    &&& s.wf()
    &&& s.spec_runs() == runs.len()
    &&& forall|r: int|
        0 <= r < runs.len() ==> in_order(views((#[trigger] runs[r])@)) && runs[r]@.len()
            == s.spec_capacity()
    &&& held_by(runs) == runs.len() * s.spec_capacity()
    &&& ids.len() == held_by(runs) + s.spec_buf().len()
    &&& forall|x: Seq<char>| #[trigger]
        ids.contains(x) <==> in_runs(runs, x) || s.spec_buf().contains(x)
}

/// The runs hold exactly `ids`, and every run is sorted.
pub open spec fn hold(runs: Seq<Vec<String>>, ids: Seq<Seq<char>>) -> bool {
    &&& forall|r: int| 0 <= r < runs.len() ==> in_order(views((#[trigger] runs[r])@))
    &&& ids.len() == held_by(runs)
    &&& forall|x: Seq<char>| #[trigger] ids.contains(x) <==> in_runs(runs, x)
}

/// Sequences with the same multiset hold the same values.
proof fn lemma_same_contents(a: Seq<Seq<char>>, b: Seq<Seq<char>>)
    requires
        a.to_multiset() == b.to_multiset(),
    ensures
        a.len() == b.len(),
        forall|x: Seq<char>| #[trigger] a.contains(x) <==> b.contains(x),
{
    a.to_multiset_ensures();
    b.to_multiset_ensures();
    assert forall|x: Seq<char>| #[trigger] a.contains(x) <==> b.contains(x) by {
        assert(a.contains(x) <==> a.to_multiset().count(x) > 0);
        assert(b.contains(x) <==> b.to_multiset().count(x) > 0);
    }
}

/// What one more run adds.
proof fn lemma_more_runs(runs: Seq<Vec<String>>, run: Vec<String>)
    ensures
        held_by(runs.push(run)) == held_by(runs) + run@.len(),
        forall|x: Seq<char>| #[trigger]
            in_runs(runs.push(run), x) <==> in_runs(runs, x) || views(run@).contains(x),
{
    let next = runs.push(run);
    assert(next.drop_last() == runs);
    assert forall|x: Seq<char>| #[trigger] in_runs(next, x) <==> in_runs(runs, x) || views(
        run@,
    ).contains(x) by {
        if in_runs(next, x) {
            let r = choose|r: int| 0 <= r < next.len() && views((#[trigger] next[r])@).contains(x);
            if r < runs.len() {
                assert(views(runs[r]@).contains(x));
            }
        }
        if in_runs(runs, x) {
            let r = choose|r: int| 0 <= r < runs.len() && views((#[trigger] runs[r])@).contains(x);
            assert(views(next[r]@).contains(x));
        }
        if views(run@).contains(x) {
            assert(views(next[runs.len() as int]@).contains(x));
        }
    }
}

/// A product is at least its factor.
proof fn lemma_at_least(n: nat, cap: nat)
    requires
        cap >= 1,
    ensures
        n * cap >= n,
        (n + 1) * cap == n * cap + cap,
{
    assert(n * cap >= n) by (nonlinear_arith)
        requires
            cap >= 1,
    ;
    assert((n + 1) * cap == n * cap + cap) by (nonlinear_arith);
}

/// Puts one id into the buffer, and a full buffer among the runs.
fn spill_id(id: String, spiller: &mut RunSpiller, runs: &mut Vec<Vec<String>>, Ghost(ids): Ghost<
    Seq<Seq<char>>,
>)
    requires
        spilling(old(runs)@, *old(spiller), ids),
        ids.len() < usize::MAX,
    ensures
        spilling(final(runs)@, *final(spiller), ids.push(id@)),
        final(spiller).spec_capacity() == old(spiller).spec_capacity(),
{
    let ghost r0 = runs@;
    let ghost buf = spiller.spec_buf();
    let ghost cap = spiller.spec_capacity();
    let ghost all = ids.push(id@);
    proof {
        lemma_at_least(r0.len(), cap);
        assert forall|x: Seq<char>| #[trigger] all.contains(x) <==> ids.contains(x) || x == id@ by {
            lemma_push_contains(ids, id@, x);
        }
        assert forall|x: Seq<char>| #[trigger] buf.push(id@).contains(x) <==> buf.contains(x) || x
            == id@ by {
            lemma_push_contains(buf, id@, x);
        }
    }
    match spiller.push(id) {
        Some(run) => {
            proof {
                lemma_same_contents(views(run@), buf.push(id@));
                lemma_more_runs(r0, run);
            }
            runs.push(run);
            assert forall|x: Seq<char>| #[trigger] all.contains(x) <==> in_runs(runs@, x)
                || spiller.spec_buf().contains(x) by {
                assert(ids.contains(x) <==> in_runs(r0, x) || buf.contains(x));
                assert(buf.push(id@).contains(x) <==> views(run@).contains(x));
            }
        },
        None => {
            assert forall|x: Seq<char>| #[trigger] all.contains(x) <==> in_runs(runs@, x)
                || spiller.spec_buf().contains(x) by {
                assert(ids.contains(x) <==> in_runs(r0, x) || buf.contains(x));
            }
        },
    }
}

/// What a longer sequence holds.
proof fn lemma_push_contains(s: Seq<Seq<char>>, v: Seq<char>, x: Seq<char>)
    ensures
        s.push(v).contains(x) <==> s.contains(x) || x == v,
{
    let t = s.push(v);
    if t.contains(x) {
        let i = choose|i: int| 0 <= i < t.len() && t[i] == x;
        if i < s.len() {
            assert(s[i] == x);
        }
    }
    if s.contains(x) {
        let i = choose|i: int| 0 <= i < s.len() && s[i] == x;
        assert(t[i] == x);
    }
    assert(t[s.len() as int] == v);
}

/// Puts the ids of lines into the buffer, and full buffers among the runs. Returns how
/// many lines of the input side were refused.
fn spill_ids(
    lines: &[Vec<u8>],
    spiller: &mut RunSpiller,
    runs: &mut Vec<Vec<String>>,
    validate: bool,
    Ghost(ids): Ghost<Seq<Seq<char>>>,
) -> (rejected: u64)
    requires
        spilling(old(runs)@, *old(spiller), ids),
        ids.len() + lines@.len() <= usize::MAX,
    ensures
        spilling(final(runs)@, *final(spiller), ids + found_ids(raw_views(lines@), validate)),
        final(spiller).spec_capacity() == old(spiller).spec_capacity(),
        found_ids(raw_views(lines@), validate).len() <= lines@.len(),
        rejected == if validate {
            refused_lines(raw_views(lines@))
        } else {
            0
        },
{
    let mut rejected: u64 = 0;
    let ghost all = raw_views(lines@);
    let ghost cap = spiller.spec_capacity();
    let mut i: usize = 0;
    proof {
        assert(all.take(0) == Seq::<Seq<u8>>::empty());
        assert(ids + found_ids(all.take(0), validate) == ids);
    }
    while i < lines.len()
        invariant
            i <= lines@.len(),
            all == raw_views(lines@),
            spiller.spec_capacity() == cap,
            spilling(runs@, *spiller, ids + found_ids(all.take(i as int), validate)),
            found_ids(all.take(i as int), validate).len() <= i,
            ids.len() + lines@.len() <= usize::MAX,
            rejected <= i,
            rejected == if validate {
                refused_lines(all.take(i as int))
            } else {
                0
            },
        decreases lines@.len() - i,
    {
        let ghost done = found_ids(all.take(i as int), validate);
        proof {
            assert(all.take(i + 1).drop_last() == all.take(i as int));
            assert(all.take(i + 1).last() == lines@[i as int]@);
        }
        match scan_line(lines[i].as_slice(), validate) {
            Found::Blank => {},
            Found::Id(id) => {
                assert((ids + done).push(id@) == ids + done.push(id@));
                spill_id(id, spiller, runs, Ghost(ids + done));
            },
            Found::Nothing => {
                if validate {
                    rejected = rejected + 1;
                }
            },
        }
        i = i + 1;
    }
    assert(all.take(all.len() as int) == all);
    rejected
}

/// Division of a sum of full runs and a rest.
proof fn lemma_run_count(full: nat, rest: nat, cap: nat)
    requires
        rest < cap,
    ensures
        run_count(full * cap + rest, cap) == full + if rest > 0 {
            1nat
        } else {
            0nat
        },
{
    let n = full * cap + rest;
    if rest > 0 {
        assert(n + cap - 1 == (full + 1) * cap + (rest - 1)) by (nonlinear_arith)
            requires
                n == full * cap + rest,
        ;
        vstd::arithmetic::div_mod::lemma_fundamental_div_mod_converse(
            n + cap - 1,
            cap as int,
            (full + 1) as int,
            rest - 1,
        );
    } else {
        vstd::arithmetic::div_mod::lemma_fundamental_div_mod_converse(
            n + cap - 1,
            cap as int,
            full as int,
            cap - 1,
        );
    }
}

/// The last run, if the buffer still holds anything.
fn finish_runs(spiller: &mut RunSpiller, runs: &mut Vec<Vec<String>>, Ghost(ids): Ghost<
    Seq<Seq<char>>,
>)
    requires
        spilling(old(runs)@, *old(spiller), ids),
        ids.len() < usize::MAX,
    ensures
        hold(final(runs)@, ids),
        final(runs)@.len() == run_count(ids.len(), old(spiller).spec_capacity()),
{
    let ghost r0 = runs@;
    let ghost buf = spiller.spec_buf();
    let ghost cap = spiller.spec_capacity();
    proof {
        lemma_at_least(r0.len(), cap);
        lemma_run_count(r0.len(), buf.len(), cap);
    }
    match spiller.finish() {
        Some(run) => {
            proof {
                lemma_same_contents(views(run@), buf);
                lemma_more_runs(r0, run);
            }
            runs.push(run);
            assert forall|x: Seq<char>| #[trigger] ids.contains(x) <==> in_runs(runs@, x) by {
                assert(ids.contains(x) <==> in_runs(r0, x) || buf.contains(x));
                assert(buf.contains(x) <==> views(run@).contains(x));
            }
        },
        None => {},
    }
}

/// What was taken out of the runs: of each run, the ids before its place.
spec fn taken(runs: Seq<Vec<String>>, at: Seq<usize>, x: Seq<char>) -> bool {
    exists|r: int, p: int|
        #![trigger runs[r]@[p]]
        0 <= r < runs.len() && 0 <= p < at[r] && runs[r]@[p]@ == x
}

/// The sum of the places.
spec fn places(at: Seq<usize>) -> nat
    decreases at.len(),
{
    if at.len() == 0 {
        0
    } else {
        places(at.drop_last()) + at.last() as nat
    }
}

/// One place moves on by one.
proof fn lemma_places_step(at: Seq<usize>, i: int)
    requires
        0 <= i < at.len(),
        at[i] < usize::MAX,
    ensures
        places(at.update(i, (at[i] + 1) as usize)) == places(at) + 1,
    decreases at.len(),
{
    let next = at.update(i, (at[i] + 1) as usize);
    if i == at.len() - 1 {
        assert(next.drop_last() == at.drop_last());
    } else {
        lemma_places_step(at.drop_last(), i);
        assert(next.drop_last() == at.drop_last().update(i, (at[i] + 1) as usize));
    }
}

/// Places within the runs sum up to no more than the runs hold, and to just that at the
/// ends.
proof fn lemma_places_bound(runs: Seq<Vec<String>>, at: Seq<usize>)
    requires
        at.len() == runs.len(),
        forall|r: int| 0 <= r < runs.len() ==> (#[trigger] at[r]) <= runs[r]@.len(),
    ensures
        places(at) <= held_by(runs),
        (exists|r: int| 0 <= r < runs.len() && (#[trigger] at[r]) < runs[r]@.len()) ==> places(at)
            < held_by(runs),
        (forall|r: int| 0 <= r < runs.len() ==> (#[trigger] at[r]) == runs[r]@.len()) ==> places(at)
            == held_by(runs),
    decreases runs.len(),
{
    if runs.len() > 0 {
        let a = at.drop_last();
        let rs = runs.drop_last();
        assert forall|r: int| 0 <= r < rs.len() implies (#[trigger] a[r]) <= rs[r]@.len() by {
            assert(at[r] <= runs[r]@.len());
        }
        lemma_places_bound(rs, a);
        let n = runs.len() - 1;
        assert(at[n] <= runs[n]@.len());
        if exists|r: int| 0 <= r < runs.len() && (#[trigger] at[r]) < runs[r]@.len() {
            let r = choose|r: int| 0 <= r < runs.len() && (#[trigger] at[r]) < runs[r]@.len();
            if r < n {
                assert(a[r] < rs[r]@.len());
            }
        }
        if forall|r: int| 0 <= r < runs.len() ==> (#[trigger] at[r]) == runs[r]@.len() {
            assert forall|r: int| 0 <= r < rs.len() implies (#[trigger] a[r]) == rs[r]@.len() by {
                assert(at[r] == runs[r]@.len());
            }
        }
    }
}

/// The head of a run at a place.
spec fn head_at(run: Seq<String>, p: int) -> Option<Seq<char>> {
    if 0 <= p < run.len() {
        Some(run[p]@)
    } else {
        None
    }
}

/// Where a merge stands: `out` is sorted, holds what was taken, and comes before what
/// remains.
spec fn merging(
    runs: Seq<Vec<String>>,
    at: Seq<usize>,
    heads: Seq<Option<Seq<char>>>,
    out: Seq<Seq<char>>,
) -> bool {
    &&& at.len() == runs.len()
    &&& heads.len() == runs.len()
    &&& forall|r: int|
        0 <= r < runs.len() ==> (#[trigger] at[r]) <= runs[r]@.len() && heads[r] == head_at(
            runs[r]@,
            at[r] as int,
        )
    &&& in_order(out)
    &&& out.len() == places(at)
    &&& forall|x: Seq<char>| #[trigger] out.contains(x) <==> taken(runs, at, x)
    &&& forall|k: int, r: int, p: int|
        #![trigger out[k], runs[r]@[p]]
        0 <= k < out.len() && 0 <= r < runs.len() && at[r] <= p < runs[r]@.len() ==> !lex_before(
            runs[r]@[p]@,
            out[k],
        )
}

/// The least head goes out, and its run moves on.
proof fn lemma_merge_step(
    runs: Seq<Vec<String>>,
    at: Seq<usize>,
    heads: Seq<Option<Seq<char>>>,
    out: Seq<Seq<char>>,
    i: int,
)
    requires
        merging(runs, at, heads, out),
        forall|r: int| 0 <= r < runs.len() ==> in_order(views((#[trigger] runs[r])@)),
        is_least(heads, i),
        at[i] < usize::MAX,
    ensures
        merging(
            runs,
            at.update(i, (at[i] + 1) as usize),
            heads.update(i, head_at(runs[i]@, at[i] + 1)),
            out.push(heads[i]->0),
        ),
{
    let id = heads[i]->0;
    let at2 = at.update(i, (at[i] + 1) as usize);
    let out2 = out.push(id);
    assert(at[i] <= runs[i]@.len());
    assert(runs[i]@[at[i] as int]@ == id);
    lemma_places_step(at, i);
    assert forall|r: int| 0 <= r < runs.len() implies (#[trigger] at2[r]) <= runs[r]@.len()
        && heads.update(i, head_at(runs[i]@, at[i] + 1))[r] == head_at(runs[r]@, at2[r] as int) by {
        assert(at[r] <= runs[r]@.len());
    }
    assert forall|k: int, l: int| 0 <= k < l < out2.len() implies !lex_before(
        #[trigger] out2[l],
        #[trigger] out2[k],
    ) by {
        assert(out2[k] == out[k]);
        if l < out.len() {
            assert(out2[l] == out[l]);
        } else {
            assert(!lex_before(runs[i]@[at[i] as int]@, out[k]));
        }
    }
    assert forall|x: Seq<char>| #[trigger] out2.contains(x) <==> taken(runs, at2, x) by {
        lemma_push_contains(out, id, x);
        assert(out.contains(x) <==> taken(runs, at, x));
        if taken(runs, at, x) {
            let (r, p) = choose|r: int, p: int|
                #![trigger runs[r]@[p]]
                0 <= r < runs.len() && 0 <= p < at[r] && runs[r]@[p]@ == x;
            assert(runs[r]@[p]@ == x && p < at2[r]);
        }
        if x == id {
            assert(runs[i]@[at[i] as int]@ == x && at[i] < at2[i]);
        }
        if taken(runs, at2, x) {
            let (r, p) = choose|r: int, p: int|
                #![trigger runs[r]@[p]]
                0 <= r < runs.len() && 0 <= p < at2[r] && runs[r]@[p]@ == x;
            if !(r == i && p == at[i]) {
                assert(p < at[r]);
                assert(taken(runs, at, x));
            }
        }
    }
    assert forall|k: int, r: int, p: int|
        #![trigger out2[k], runs[r]@[p]]
        0 <= k < out2.len() && 0 <= r < runs.len() && at2[r] <= p
            < runs[r]@.len() implies !lex_before(runs[r]@[p]@, out2[k]) by {
        if k < out.len() {
            assert(out2[k] == out[k]);
        } else {
            assert(at[r] <= runs[r]@.len());
            let h = at[r] as int;
            let run = views(runs[r]@);
            assert(heads[r] == Some(runs[r]@[h]@));
            assert(!lex_before(runs[r]@[h]@, id));
            if h < p {
                assert(in_order(run));
                assert(!lex_before(run[p], run[h]));
                if lex_before(run[p], id) {
                    lemma_lex_total(run[p], run[h]);
                    lemma_lex_total(run[h], id);
                    if run[h] != run[p] {
                        lemma_lex_transitive(run[h], run[p], id);
                    }
                }
            }
        }
    }
}

/// All ids of sorted runs in order.
fn merge_runs(runs: &Vec<Vec<String>>, Ghost(ids): Ghost<Seq<Seq<char>>>) -> (out: Vec<String>)
    requires
        hold(runs@, ids),
    ensures
        in_order(views(out@)),
        out@.len() == ids.len(),
        forall|x: Seq<char>| #[trigger] views(out@).contains(x) <==> ids.contains(x),
{
    let mut at: Vec<usize> = Vec::new();
    let mut heads: Vec<Option<String>> = Vec::new();
    let mut i: usize = 0;
    while i < runs.len()
        invariant
            i <= runs@.len(),
            at@.len() == i,
            heads@.len() == i,
            places(at@) == 0,
            forall|r: int|
                0 <= r < i ==> (#[trigger] at@[r]) == 0 && opt_view(heads@[r]) == head_at(
                    runs@[r]@,
                    0,
                ),
        decreases runs@.len() - i,
    {
        let head: Option<String> = if runs[i].len() > 0 {
            Some(runs[i][0].as_str().to_owned())
        } else {
            None
        };
        let ghost before = at@;
        at.push(0);
        assert(at@.drop_last() == before);
        heads.push(head);
        i = i + 1;
    }
    let mut merge: KwayMerge = KwayMerge::open(heads);
    let mut out: Vec<String> = Vec::new();
    proof {
        assert(views(out@) == Seq::<Seq<char>>::empty());
        assert forall|x: Seq<char>| #[trigger] views(out@).contains(x) <==> taken(
            runs@,
            at@,
            x,
        ) by {
            if taken(runs@, at@, x) {
                let (r, p) = choose|r: int, p: int|
                    #![trigger runs@[r]@[p]]
                    0 <= r < runs@.len() && 0 <= p < at@[r] && runs@[r]@[p]@ == x;
                assert(at@[r] == 0);
            }
        }
        assert(merging(runs@, at@, merge.spec_heads(), views(out@)));
    }
    loop
        invariant
            hold(runs@, ids),
            merging(runs@, at@, merge.spec_heads(), views(out@)),
        ensures
            merging(runs@, at@, merge.spec_heads(), views(out@)),
            forall|r: int| 0 <= r < runs@.len() ==> (#[trigger] merge.spec_heads()[r]) is None,
        decreases held_by(runs@) - places(at@),
    {
        let ghost hs = merge.spec_heads();
        let ghost before = views(out@);
        let next: Option<(String, usize)> = merge.pop();
        match next {
            Some((id, r)) => {
                let run: &Vec<String> = &runs[r];
                let n: usize = run.len();
                proof {
                    assert(at@[r as int] <= runs@[r as int]@.len());
                    assert(hs[r as int] == head_at(runs@[r as int]@, at@[r as int] as int));
                    lemma_merge_step(runs@, at@, hs, before, r as int);
                    lemma_places_bound(runs@, at@);
                    lemma_places_step(at@, r as int);
                    assert(at@[r as int] < runs@[r as int]@.len());
                }
                let p: usize = at[r] + 1;
                let head: Option<String> = if p < n {
                    Some(run[p].as_str().to_owned())
                } else {
                    None
                };
                let ghost a0 = at@;
                at.set(r, p);
                merge.refill(r, head);
                out.push(id);
                proof {
                    assert(at@ == a0.update(r as int, (a0[r as int] + 1) as usize));
                    assert(views(out@) == before.push(id@));
                    assert(merge.spec_heads() == hs.update(
                        r as int,
                        head_at(runs@[r as int]@, a0[r as int] + 1),
                    ));
                }
            },
            None => {
                break;
            },
        }
    }
    proof {
        lemma_places_bound(runs@, at@);
        assert forall|r: int| 0 <= r < runs@.len() implies (#[trigger] at@[r])
            == runs@[r]@.len() by {
            assert(merge.spec_heads()[r] is None);
        }
        assert forall|x: Seq<char>| #[trigger] views(out@).contains(x) <==> ids.contains(x) by {
            assert(views(out@).contains(x) <==> taken(runs@, at@, x));
            assert(ids.contains(x) <==> in_runs(runs@, x));
            if taken(runs@, at@, x) {
                let (r, p) = choose|r: int, p: int|
                    #![trigger runs@[r]@[p]]
                    0 <= r < runs@.len() && 0 <= p < at@[r] && runs@[r]@[p]@ == x;
                assert(at@[r] == runs@[r]@.len());
                assert(views(runs@[r]@)[p] == x);
            }
            if in_runs(runs@, x) {
                let r = choose|r: int|
                    0 <= r < runs@.len() && views((#[trigger] runs@[r])@).contains(x);
                let p = choose|p: int|
                    0 <= p < views(runs@[r]@).len() && views(runs@[r]@)[p] == x;
                assert(at@[r] == runs@[r]@.len());
                assert(runs@[r]@[p]@ == x);
            }
        }
    }
    out
}

/// Collapses equal neighbours of a sorted stream, and counts.
pub struct UniqueStream {
    held: Option<String>,
    total: u64,
    unique: u64,
}

impl UniqueStream {
    /// The id whose group is open.
    pub closed spec fn spec_held(self) -> Option<Seq<char>> {
        opt_view(self.held)
    }

    /// The ids fed.
    pub closed spec fn spec_total(self) -> nat {
        self.total as nat
    }

    /// The groups closed.
    pub closed spec fn spec_unique(self) -> nat {
        self.unique as nat
    }

    /// A stream at its start.
    pub fn open() -> (s: Self)
        ensures
            s.spec_held() is None,
            s.spec_total() == 0,
            s.spec_unique() == 0,
    {
        UniqueStream { held: None, total: 0, unique: 0 }
    }

    /// The ids fed.
    pub fn total(&self) -> (n: u64)
        ensures
            n == self.spec_total(),
    {
        self.total
    }

    /// The groups closed.
    pub fn unique(&self) -> (n: u64)
        ensures
            n == self.spec_unique(),
    {
        self.unique
    }

    /// Takes the next id, or the end. Gives back the id of the group that this closes.
    pub fn feed(&mut self, next: Option<&str>) -> (r: Option<String>)
        requires
            old(self).spec_total() < u64::MAX,
            old(self).spec_unique() < u64::MAX,
        ensures
            final(self).spec_held() == opt_str_view(next),
            opt_view(r) == if next is Some && old(self).spec_held() == opt_str_view(next) {
                None
            } else {
                old(self).spec_held()
            },
            final(self).spec_total() == old(self).spec_total() + if next is Some {
                1int
            } else {
                0
            },
            final(self).spec_unique() == old(self).spec_unique() + if r is Some {
                1int
            } else {
                0
            },
    {
        let same: bool = match (&self.held, next) {
            (Some(h), Some(x)) => str_eq(h.as_str(), x),
            _ => false,
        };
        if next.is_some() {
            self.total = self.total + 1;
        }
        if same {
            return None;
        }
        let out: Option<String> = self.held.take();
        self.held = match next {
            Some(x) => Some(x.to_owned()),
            None => None,
        };
        if out.is_some() {
            self.unique = self.unique + 1;
        }
        out
    }
}

/// Every id of a sorted list once, with the counts of all and of the distinct ones.
fn unique_ids(sorted: &Vec<String>) -> (r: (Vec<String>, UniqueStream))
    requires
        in_order(views(sorted@)),
        sorted@.len() < usize::MAX,
    ensures
        ascending(views(r.0@)),
        forall|x: Seq<char>| #[trigger]
            views(r.0@).contains(x) <==> views(sorted@).contains(x),
        r.1.spec_total() == sorted@.len(),
        r.1.spec_unique() == r.0@.len(),
        r.0@.len() <= sorted@.len(),
{
    let ghost all = views(sorted@);
    let mut out: Vec<String> = Vec::new();
    let mut stream: UniqueStream = UniqueStream::open();
    let mut i: usize = 0;
    assert(views(out@) == Seq::<Seq<char>>::empty());
    while i < sorted.len()
        invariant
            i <= sorted@.len() < usize::MAX,
            all == views(sorted@),
            in_order(all),
            ascending(views(out@)),
            stream.spec_total() == i,
            stream.spec_unique() == out@.len(),
            i == 0 ==> out@.len() == 0,
            i > 0 ==> out@.len() < i,
            stream.spec_held() == if i == 0 {
                None
            } else {
                Some(all[i - 1])
            },
            forall|k: int| 0 <= k < out@.len() ==> i > 0 && lex_before(#[trigger] views(out@)[k], all[i - 1]),
            forall|x: Seq<char>| #[trigger]
                all.take(i as int).contains(x) <==> views(out@).contains(x) || (i > 0 && x
                    == all[i - 1]),
        decreases sorted@.len() - i,
    {
        let ghost before = views(out@);
        let closed: Option<String> = stream.feed(Some(sorted[i].as_str()));
        proof {
            assert(all[i as int] == sorted@[i as int]@);
            if i > 0 {
                assert(!lex_before(all[i as int], all[i - 1]));
                lemma_lex_total(all[i as int], all[i - 1]);
            }
            assert(all.take(i + 1) == all.take(i as int).push(all[i as int]));
            assert forall|x: Seq<char>| #[trigger] all.take(i + 1).contains(x) <==> all.take(
                i as int,
            ).contains(x) || x == all[i as int] by {
                lemma_push_contains(all.take(i as int), all[i as int], x);
            }
        }
        match closed {
            Some(id) => {
                out.push(id);
                proof {
                    let after = views(out@);
                    assert(after == before.push(id@));
                    assert forall|k: int| 0 <= k < out@.len() implies lex_before(
                        #[trigger] after[k],
                        all[i as int],
                    ) by {
                        if k < before.len() {
                            assert(lex_before(before[k], all[i - 1]));
                            lemma_lex_transitive(before[k], all[i - 1], all[i as int]);
                        }
                    }
                    assert forall|j: int, k: int| 0 <= j < k < after.len() implies lex_before(
                        #[trigger] after[j],
                        #[trigger] after[k],
                    ) by {
                        assert(after[j] == before[j]);
                        if k < before.len() {
                            assert(after[k] == before[k]);
                        }
                    }
                    assert forall|x: Seq<char>| #[trigger] after.contains(x) <==> before.contains(x)
                        || x == id@ by {
                        lemma_push_contains(before, id@, x);
                    }
                }
            },
            None => {
                assert forall|k: int| 0 <= k < out@.len() implies lex_before(
                    #[trigger] views(out@)[k],
                    all[i as int],
                ) by {
                    assert(lex_before(before[k], all[i - 1]));
                }
            },
        }
        i = i + 1;
    }
    let ghost before = views(out@);
    assert(all.take(all.len() as int) == all);
    let closed: Option<String> = stream.feed(None);
    match closed {
        Some(id) => {
            out.push(id);
            proof {
                let after = views(out@);
                assert(after == before.push(id@));
                assert forall|j: int, k: int| 0 <= j < k < after.len() implies lex_before(
                    #[trigger] after[j],
                    #[trigger] after[k],
                ) by {
                    assert(after[j] == before[j]);
                    if k < before.len() {
                        assert(after[k] == before[k]);
                    }
                }
                assert forall|x: Seq<char>| #[trigger] after.contains(x) <==> all.contains(x) by {
                    lemma_push_contains(before, id@, x);
                    assert(all.take(i as int).contains(x) <==> before.contains(x) || x == id@);
                }
            }
        },
        None => {},
    }
    (out, stream)
}

/// Where a comparison of two ascending lists stands: `only` holds, in order, what was
/// passed of the first and is not in the second.
spec fn compared_to(a: Seq<Seq<char>>, b: Seq<Seq<char>>, i: int, j: int, only: Seq<Seq<char>>) -> bool {
    &&& 0 <= i <= a.len()
    &&& 0 <= j <= b.len()
    &&& ascending(only)
    &&& only.len() <= i
    &&& forall|x: Seq<char>| #[trigger]
        only.contains(x) <==> a.take(i).contains(x) && !b.contains(x)
    &&& forall|p: int, q: int|
        #![trigger a[p], b[q]]
        0 <= p < i && j <= q < b.len() ==> lex_before(a[p], b[q])
}

/// The next of the first list comes before all that remains of the second, and after
/// all that was passed of it: it is not in the second.
proof fn lemma_passed(a: Seq<Seq<char>>, b: Seq<Seq<char>>, i: int, j: int, only: Seq<Seq<char>>)
    requires
        ascending(a),
        ascending(b),
        compared_to(a, b, i, j, only),
        i < a.len(),
        j < b.len() ==> lex_before(a[i], b[j]),
        forall|q: int, p: int|
            #![trigger b[q], a[p]]
            0 <= q < j && i <= p < a.len() ==> lex_before(b[q], a[p]),
    ensures
        compared_to(a, b, i + 1, j, only.push(a[i])),
        !b.contains(a[i]),
{
    let x = a[i];
    if b.contains(x) {
        let q = choose|q: int| 0 <= q < b.len() && b[q] == x;
        lemma_lex_total(x, x);
        if q < j {
            assert(lex_before(b[q], a[i]));
        } else if q > j {
            assert(lex_before(b[j], b[q]));
            lemma_lex_transitive(x, b[j], b[q]);
        }
    }
    let next = only.push(x);
    assert forall|k: int, l: int| 0 <= k < l < next.len() implies lex_before(
        #[trigger] next[k],
        #[trigger] next[l],
    ) by {
        assert(next[k] == only[k]);
        if l < only.len() {
            assert(next[l] == only[l]);
        } else {
            assert(only.contains(only[k]));
            assert(a.take(i).contains(only[k]));
            let p = choose|p: int| 0 <= p < a.take(i).len() && a.take(i)[p] == only[k];
            assert(lex_before(a[p], a[i]));
        }
    }
    assert(a.take(i + 1) == a.take(i).push(x));
    assert forall|y: Seq<char>| #[trigger] next.contains(y) <==> a.take(i + 1).contains(y)
        && !b.contains(y) by {
        lemma_push_contains(only, x, y);
        lemma_push_contains(a.take(i), x, y);
    }
    assert forall|p: int, q: int|
        #![trigger a[p], b[q]]
        0 <= p < i + 1 && j <= q < b.len() implies lex_before(a[p], b[q]) by {
        if p == i && q > j {
            assert(lex_before(b[j], b[q]));
            lemma_lex_transitive(a[i], b[j], b[q]);
        }
    }
}

/// The second list moves on over an id that all that remains of the first comes after.
proof fn lemma_other_passed(
    a: Seq<Seq<char>>,
    b: Seq<Seq<char>>,
    i: int,
    j: int,
    only: Seq<Seq<char>>,
)
    requires
        compared_to(a, b, i, j, only),
        j < b.len(),
    ensures
        compared_to(a, b, i, j + 1, only),
{
}

/// Both lists move on over an id that both have.
proof fn lemma_both_passed(
    a: Seq<Seq<char>>,
    b: Seq<Seq<char>>,
    i: int,
    j: int,
    only: Seq<Seq<char>>,
)
    requires
        ascending(b),
        compared_to(a, b, i, j, only),
        i < a.len(),
        j < b.len(),
        a[i] == b[j],
    ensures
        compared_to(a, b, i + 1, j + 1, only),
{
    assert(b.contains(a[i]));
    assert(a.take(i + 1) == a.take(i).push(a[i]));
    assert forall|y: Seq<char>| #[trigger] only.contains(y) <==> a.take(i + 1).contains(y)
        && !b.contains(y) by {
        lemma_push_contains(a.take(i), a[i], y);
    }
    assert forall|p: int, q: int|
        #![trigger a[p], b[q]]
        0 <= p < i + 1 && j + 1 <= q < b.len() implies lex_before(a[p], b[q]) by {
        if p == i {
            assert(lex_before(b[j], b[q]));
        }
    }
}

/// Compares two ascending lists. Returns the ids that only the first has.
fn sweep(report: &mut VerifyReport, a: &Vec<String>, b: &Vec<String>) -> (missing: Vec<String>)
    requires
        ascending(views(a@)),
        ascending(views(b@)),
        old(report).missing == 0 && old(report).extra == 0,
        old(report).missing_sample@.len() == 0,
        a@.len() < usize::MAX,
        b@.len() < usize::MAX,
    ensures
        ascending(views(missing@)),
        views(missing@).to_set() == views(a@).to_set().difference(views(b@).to_set()),
        final(report).missing == missing@.len(),
        final(report).extra == views(b@).to_set().difference(views(a@).to_set()).len(),
        views(final(report).missing_sample@) == first_of(views(missing@), MISSING_SAMPLE_CAP as nat),
        final(report).input_ids == old(report).input_ids,
        final(report).emitted_ids == old(report).emitted_ids,
        final(report).duplicate_input == old(report).duplicate_input,
        final(report).rejected_input == old(report).rejected_input,
        final(report).runs_spilled == old(report).runs_spilled,
{
    let ghost va = views(a@);
    let ghost vb = views(b@);
    let ghost base = *report;
    let ghost mut extra: Seq<Seq<char>> = Seq::empty();
    let mut missing: Vec<String> = Vec::new();
    let mut i: usize = 0;
    let mut j: usize = 0;
    proof {
        assert(views(missing@) == Seq::<Seq<char>>::empty());
        assert(va.take(0) == Seq::<Seq<char>>::empty());
        assert(vb.take(0) == Seq::<Seq<char>>::empty());
        assert(views(report.missing_sample@) == Seq::<Seq<char>>::empty());
    }
    while i < a.len() || j < b.len()
        invariant
            va == views(a@) && vb == views(b@),
            ascending(va) && ascending(vb),
            a@.len() < usize::MAX,
            b@.len() < usize::MAX,
            compared_to(va, vb, i as int, j as int, views(missing@)),
            compared_to(vb, va, j as int, i as int, extra),
            report.missing == missing@.len(),
            report.extra == extra.len(),
            views(report.missing_sample@) == first_of(
                views(missing@),
                MISSING_SAMPLE_CAP as nat,
            ),
            report.input_ids == base.input_ids,
            report.emitted_ids == base.emitted_ids,
            report.duplicate_input == base.duplicate_input,
            report.rejected_input == base.rejected_input,
            report.runs_spilled == base.runs_spilled,
        decreases a@.len() - i + b@.len() - j,
    {
        let x: Option<&str> = if i < a.len() {
            Some(a[i].as_str())
        } else {
            None
        };
        let y: Option<&str> = if j < b.len() {
            Some(b[j].as_str())
        } else {
            None
        };
        let ghost before = views(missing@);
        let ghost sample = views(report.missing_sample@);
        assert(sample.len() == report.missing_sample@.len());
        match report.step(x, y) {
            Step::Done => {},
            Step::Missing => {
                proof {
                    lemma_passed(va, vb, i as int, j as int, before);
                    lemma_other_passed(vb, va, j as int, i as int, extra);
                }
                missing.push(a[i].as_str().to_owned());
                i = i + 1;
                proof {
                    assert(views(missing@) == before.push(va[i - 1]));
                    if before.len() < MISSING_SAMPLE_CAP {
                        assert(sample == before);
                    } else {
                        assert(first_of(views(missing@), MISSING_SAMPLE_CAP as nat) == sample);
                    }
                }
            },
            Step::Extra => {
                proof {
                    lemma_passed(vb, va, j as int, i as int, extra);
                    lemma_other_passed(va, vb, i as int, j as int, before);
                    extra = extra.push(vb[j as int]);
                }
                j = j + 1;
            },
            Step::Both => {
                proof {
                    lemma_lex_total(va[i as int], vb[j as int]);
                    lemma_both_passed(va, vb, i as int, j as int, before);
                    lemma_both_passed(vb, va, j as int, i as int, extra);
                }
                i = i + 1;
                j = j + 1;
            },
        }
    }
    proof {
        assert(va.take(va.len() as int) == va);
        assert(vb.take(vb.len() as int) == vb);
        let m = views(missing@);
        assert(m.to_set() =~= va.to_set().difference(vb.to_set())) by {
            assert forall|z: Seq<char>| m.to_set().contains(z) == va.to_set().difference(
                vb.to_set(),
            ).contains(z) by {
                assert(m.contains(z) <==> va.contains(z) && !vb.contains(z));
            }
        }
        assert(extra.to_set() =~= vb.to_set().difference(va.to_set())) by {
            assert forall|z: Seq<char>| extra.to_set().contains(z) == vb.to_set().difference(
                va.to_set(),
            ).contains(z) by {
                assert(extra.contains(z) <==> vb.contains(z) && !va.contains(z));
            }
        }
        lemma_ascending_distinct(extra);
        extra.unique_seq_to_set();
    }
    missing
}

/// The first `n` of a list.
pub open spec fn first_of(s: Seq<Seq<char>>, n: nat) -> Seq<Seq<char>> {
    if s.len() <= n {
        s
    } else {
        s.take(n as int)
    }
}

/// The ids of the emitted side: those of the results and of the dead letters, if any.
pub open spec fn emitted_ids(results: Seq<Vec<u8>>, dead: Option<Seq<Vec<u8>>>) -> Seq<Seq<char>> {
    found_ids(raw_views(results), false) + match dead {
        Some(d) => found_ids(raw_views(d), false),
        None => Seq::empty(),
    }
}

/// The report that two lists of ids call for, with all the missing ids.
pub open spec fn is_report(
    report: VerifyReport,
    missing: Seq<Seq<char>>,
    input: Seq<Seq<char>>,
    emitted: Seq<Seq<char>>,
    rejected: nat,
    capacity: nat,
) -> bool {
    &&& report.input_ids == input.to_set().len()
    &&& report.emitted_ids == emitted.to_set().len()
    &&& ascending(missing)
    &&& missing.to_set() == input.to_set().difference(emitted.to_set())
    &&& report.missing == missing.len()
    &&& report.extra == emitted.to_set().difference(input.to_set()).len()
    &&& report.duplicate_input == input.len() - input.to_set().len()
    &&& report.rejected_input == rejected
    &&& views(report.missing_sample@) == first_of(missing, MISSING_SAMPLE_CAP as nat)
    &&& report.runs_spilled == run_count(input.len(), capacity) + run_count(emitted.len(), capacity)
}

/// The distinct ids of runs in order, and the counts.
fn distinct_ids(runs: &Vec<Vec<String>>, Ghost(ids): Ghost<Seq<Seq<char>>>) -> (r: (
    Vec<String>,
    UniqueStream,
))
    requires
        hold(runs@, ids),
        ids.len() < usize::MAX,
    ensures
        ascending(views(r.0@)),
        views(r.0@).to_set() == ids.to_set(),
        r.0@.len() == ids.to_set().len(),
        r.1.spec_total() == ids.len(),
        r.1.spec_unique() == ids.to_set().len(),
        ids.to_set().len() <= ids.len(),
{
    let sorted: Vec<String> = merge_runs(runs, Ghost(ids));
    let r: (Vec<String>, UniqueStream) = unique_ids(&sorted);
    proof {
        let d = views(r.0@);
        assert(d.to_set() =~= ids.to_set()) by {
            assert forall|x: Seq<char>| d.to_set().contains(x) == ids.to_set().contains(x) by {
                assert(d.contains(x) <==> views(sorted@).contains(x));
                assert(views(sorted@).contains(x) <==> ids.contains(x));
            }
        }
        lemma_ascending_distinct(d);
        d.unique_seq_to_set();
    }
    r
}

/// Checks that every id of the input has a terminal entry among the results or the dead
/// letters. Returns the report and every missing id, in order.
pub fn verify_completeness(
    input: &[Vec<u8>],
    results: &[Vec<u8>],
    dead: Option<&[Vec<u8>]>,
    cfg: &VerifyConfig,
) -> (r: (VerifyReport, Vec<String>))
    requires
        input@.len() < usize::MAX,
        input@.len() + results@.len() + (match dead {
            Some(d) => d@.len(),
            None => 0,
        }) < usize::MAX,
    ensures
        is_report(
            r.0,
            views(r.1@),
            found_ids(raw_views(input@), true),
            emitted_ids(
                results@,
                match dead {
                    Some(d) => Some(d@),
                    None => None,
                },
            ),
            refused_lines(raw_views(input@)),
            if cfg.run_capacity < 1 {
                1
            } else {
                cfg.run_capacity as nat
            },
        ),
{
    let ghost none = Seq::<Seq<char>>::empty();
    let ghost ids = found_ids(raw_views(input@), true);
    let ghost first = found_ids(raw_views(results@), false);
    let ghost out = emitted_ids(
        results@,
        match dead {
            Some(d) => Some(d@),
            None => None,
        },
    );
    let mut spiller: RunSpiller = RunSpiller::new(cfg.run_capacity);
    let mut input_runs: Vec<Vec<String>> = Vec::new();
    assert(spilling(input_runs@, spiller, none));
    let rejected: u64 = spill_ids(input, &mut spiller, &mut input_runs, true, Ghost(none));
    assert(none + ids == ids);
    finish_runs(&mut spiller, &mut input_runs, Ghost(ids));

    let mut spiller: RunSpiller = RunSpiller::new(cfg.run_capacity);
    let mut emitted_runs: Vec<Vec<String>> = Vec::new();
    assert(spilling(emitted_runs@, spiller, none));
    let _ = spill_ids(results, &mut spiller, &mut emitted_runs, false, Ghost(none));
    assert(none + first == first);
    if let Some(d) = dead {
        let _ = spill_ids(d, &mut spiller, &mut emitted_runs, false, Ghost(first));
    }
    assert(first + none == first);
    finish_runs(&mut spiller, &mut emitted_runs, Ghost(out));

    proof {
        let cap = if cfg.run_capacity < 1 {
            1
        } else {
            cfg.run_capacity as nat
        };
        lemma_run_count_bound(ids.len(), cap);
        lemma_run_count_bound(out.len(), cap);
    }
    let mut report: VerifyReport = VerifyReport::empty(input_runs.len() + emitted_runs.len());
    let (a, a_counts) = distinct_ids(&input_runs, Ghost(ids));
    let (b, b_counts) = distinct_ids(&emitted_runs, Ghost(out));
    let missing: Vec<String> = sweep(&mut report, &a, &b);
    report.input_ids = a_counts.unique();
    report.emitted_ids = b_counts.unique();
    report.duplicate_input = a_counts.total() - a_counts.unique();
    report.rejected_input = rejected;
    (report, missing)
}

/// There are no more runs than ids.
proof fn lemma_run_count_bound(n: nat, cap: nat)
    requires
        cap >= 1,
    ensures
        run_count(n, cap) <= n,
{
    if n > 0 {
        assert(n + cap - 1 <= n * cap) by (nonlinear_arith)
            requires
                cap >= 1,
                n >= 1,
        ;
        vstd::arithmetic::div_mod::lemma_div_is_ordered(n + cap - 1, (n * cap) as int, cap as int);
        vstd::arithmetic::div_mod::lemma_div_multiples_vanish(n as int, cap as int);
        assert(n * cap == cap * n) by (nonlinear_arith);
    } else {
        vstd::arithmetic::div_mod::lemma_basic_div(cap - 1, cap as int);
    }
}

/// A report says that a run is complete exactly when every id of the input was emitted:
/// an id that has no terminal entry is never passed over.
pub proof fn law_complete_is_exact(
    report: VerifyReport,
    missing: Seq<Seq<char>>,
    input: Seq<Seq<char>>,
    emitted: Seq<Seq<char>>,
    rejected: nat,
    capacity: nat,
)
    requires
        is_report(report, missing, input, emitted, rejected, capacity),
    ensures
        report.missing == 0 <==> forall|x: Seq<char>| #[trigger]
            input.contains(x) ==> emitted.contains(x),
        forall|x: Seq<char>| #[trigger]
            missing.contains(x) <==> input.contains(x) && !emitted.contains(x),
{
    let gap = input.to_set().difference(emitted.to_set());
    assert forall|x: Seq<char>| #[trigger] missing.contains(x) <==> input.contains(x)
        && !emitted.contains(x) by {
        assert(missing.to_set().contains(x) <==> gap.contains(x));
    }
    if report.missing == 0 {
        assert forall|x: Seq<char>| #[trigger] input.contains(x) implies emitted.contains(x) by {
            if !emitted.contains(x) {
                assert(missing.contains(x));
            }
        }
    } else {
        assert(missing.contains(missing[0]));
    }
}

/// What a report says does not depend on how many ids a buffer takes, but for the count
/// of the runs.
pub proof fn law_capacity_is_irrelevant(
    one: VerifyReport,
    one_missing: Seq<Seq<char>>,
    other: VerifyReport,
    other_missing: Seq<Seq<char>>,
    input: Seq<Seq<char>>,
    emitted: Seq<Seq<char>>,
    rejected: nat,
    capacity: nat,
    other_capacity: nat,
)
    requires
        is_report(one, one_missing, input, emitted, rejected, capacity),
        is_report(other, other_missing, input, emitted, rejected, other_capacity),
    ensures
        one_missing == other_missing,
        one.input_ids == other.input_ids,
        one.emitted_ids == other.emitted_ids,
        one.missing == other.missing,
        one.extra == other.extra,
        one.duplicate_input == other.duplicate_input,
        one.rejected_input == other.rejected_input,
        views(one.missing_sample@) == views(other.missing_sample@),
{
    lemma_ascending_unique(one_missing, other_missing);
}

/// Ascending lists with the same members are equal.
pub proof fn lemma_ascending_unique(a: Seq<Seq<char>>, b: Seq<Seq<char>>)
    requires
        ascending(a),
        ascending(b),
        a.to_set() == b.to_set(),
    ensures
        a == b,
    decreases a.len(),
{
    lemma_ascending_distinct(a);
    lemma_ascending_distinct(b);
    a.unique_seq_to_set();
    b.unique_seq_to_set();
    if a.len() > 0 {
        let n = a.len() - 1;
        let x = a[n];
        let y = b[n];
        assert(a.to_set().contains(x) && b.to_set().contains(y));
        let p = choose|p: int| 0 <= p < b.len() && b[p] == x;
        let q = choose|q: int| 0 <= q < a.len() && a[q] == y;
        assert(b.contains(x) && a.contains(y));
        if x != y {
            assert(lex_before(b[p], b[n]));
            assert(lex_before(a[q], a[n]));
            lemma_lex_total(x, y);
        }
        let c = a.drop_last();
        let d = b.drop_last();
        assert(c.to_set() =~= d.to_set()) by {
            assert forall|z: Seq<char>| c.to_set().contains(z) == d.to_set().contains(z) by {
                if c.contains(z) {
                    let i = choose|i: int| 0 <= i < c.len() && c[i] == z;
                    assert(a[i] == z);
                    assert(a.to_set().contains(z));
                    let k = choose|k: int| 0 <= k < b.len() && b[k] == z;
                    assert(k != n);
                    assert(d[k] == z);
                }
                if d.contains(z) {
                    let i = choose|i: int| 0 <= i < d.len() && d[i] == z;
                    assert(b[i] == z);
                    assert(b.to_set().contains(z));
                    let k = choose|k: int| 0 <= k < a.len() && a[k] == z;
                    assert(k != n);
                    assert(c[k] == z);
                }
            }
        }
        assert forall|i: int, j: int| 0 <= i < j < c.len() implies lex_before(
            #[trigger] c[i],
            #[trigger] c[j],
        ) by {
            assert(c[i] == a[i] && c[j] == a[j]);
        }
        assert forall|i: int, j: int| 0 <= i < j < d.len() implies lex_before(
            #[trigger] d[i],
            #[trigger] d[j],
        ) by {
            assert(d[i] == b[i] && d[j] == b[j]);
        }
        lemma_ascending_unique(c, d);
        assert(a == c.push(x));
        assert(b == d.push(y));
    } else {
        assert(b.len() == 0);
    }
}

/// A line names an id: its text is JSON that has it under `custom_id`, or under `recordId`
/// where it has no `custom_id`.
pub open spec fn names_id(raw: Seq<u8>, id: Seq<char>) -> bool {
    text_of(raw) matches Some(t) && crate::text::trim(t).len() > 0 && (json_parse(t) matches Ok(v)
        && if v.get("custom_id"@) is Some {
        v.str_at("custom_id"@) == Some(id)
    } else {
        v.str_at("recordId"@) == Some(id)
    })
}

proof fn lemma_line_id_names(raw: Seq<u8>, id: Seq<char>, validate: bool)
    ensures
        line_id(raw, validate) == Some(id) <==> names_id(raw, id) && (validate ==> valid_id(id)),
{
}

proof fn lemma_found(lines: Seq<Seq<u8>>, validate: bool, id: Seq<char>)
    ensures
        found_ids(lines, validate).contains(id) <==> exists|i: int|
            0 <= i < lines.len() && names_id(#[trigger] lines[i], id) && (validate ==> valid_id(id)),
    decreases lines.len(),
{
    if lines.len() > 0 {
        let init = lines.drop_last();
        let before = found_ids(init, validate);
        let all = found_ids(lines, validate);
        lemma_found(init, validate, id);
        lemma_line_id_names(lines.last(), id, validate);
        if before.contains(id) {
            let k = choose|k: int| 0 <= k < before.len() && before[k] == id;
            assert(all[k] == id);
            let i = choose|i: int|
                0 <= i < init.len() && names_id(#[trigger] init[i], id) && (validate ==> valid_id(
                    id,
                ));
            assert(lines[i] == init[i]);
        }
        if line_id(lines.last(), validate) == Some(id) {
            assert(all[before.len() as int] == id);
            assert(names_id(lines[lines.len() - 1], id));
        }
        if all.contains(id) {
            let k = choose|k: int| 0 <= k < all.len() && all[k] == id;
            if k < before.len() {
                assert(before[k] == id);
            }
        }
        if exists|i: int|
            0 <= i < lines.len() && names_id(#[trigger] lines[i], id) && (validate ==> valid_id(
                id,
            )) {
            let i = choose|i: int|
                0 <= i < lines.len() && names_id(#[trigger] lines[i], id) && (validate ==> valid_id(
                    id,
                ));
            if i < init.len() {
                assert(names_id(init[i], id));
            }
        }
    }
}

/// An id that a line of the input names, and that is valid, is missing just where no line
/// of the results and none of the dead letters names it; and the run is complete just where
/// nothing is missing.
pub proof fn law_missing_is_what_nothing_answers(
    input: &[Vec<u8>],
    results: &[Vec<u8>],
    dead: Option<&[Vec<u8>]>,
    cfg: &VerifyConfig,
    r: (VerifyReport, Vec<String>),
    i: int,
    id: Seq<char>,
    complete: bool,
)
    requires
        call_ensures(verify_completeness, (input, results, dead, cfg), r),
        call_ensures(VerifyReport::is_complete, (&r.0,), complete),
        0 <= i < input@.len(),
        names_id(input@[i]@, id),
        valid_id(id),
    ensures
        views(r.1@).contains(id) <==> !(exists|k: int|
            0 <= k < results@.len() && names_id((#[trigger] results@[k])@, id)) && !(
        dead matches Some(d) && exists|k: int|
            0 <= k < d@.len() && names_id((#[trigger] d@[k])@, id)),
        r.0.missing == r.1@.len(),
        complete <==> r.0.missing == 0,
        views(r.1@).contains(id) ==> !complete,
{
    let a = raw_views(input@);
    let b = raw_views(results@);
    let ids = found_ids(a, true);
    let out = emitted_ids(
        results@,
        match dead {
            Some(d) => Some(d@),
            None => None,
        },
    );
    assert(names_id(a[i], id));
    lemma_found(a, true, id);
    lemma_found(b, false, id);
    law_complete_is_exact(
        r.0,
        views(r.1@),
        ids,
        out,
        refused_lines(a),
        if cfg.run_capacity < 1 {
            1
        } else {
            cfg.run_capacity as nat
        },
    );
    let first = found_ids(b, false);
    if exists|k: int| 0 <= k < results@.len() && names_id((#[trigger] results@[k])@, id) {
        let k = choose|k: int| 0 <= k < results@.len() && names_id((#[trigger] results@[k])@, id);
        assert(names_id(b[k], id));
        let p = choose|p: int| 0 <= p < first.len() && first[p] == id;
        assert(out[p] == id);
    }
    if let Some(d) = dead {
        let c = raw_views(d@);
        let second = found_ids(c, false);
        lemma_found(c, false, id);
        if exists|k: int| 0 <= k < d@.len() && names_id((#[trigger] d@[k])@, id) {
            let k = choose|k: int| 0 <= k < d@.len() && names_id((#[trigger] d@[k])@, id);
            assert(names_id(c[k], id));
            let p = choose|p: int| 0 <= p < second.len() && second[p] == id;
            assert(out[first.len() + p] == id);
        }
    }
    if out.contains(id) {
        let p = choose|p: int| 0 <= p < out.len() && out[p] == id;
        if p < first.len() {
            assert(first.contains(id));
            let k = choose|k: int| 0 <= k < b.len() && names_id(#[trigger] b[k], id);
            assert(names_id(results@[k]@, id));
        } else {
            let d = dead->0;
            let c = raw_views(d@);
            let second = found_ids(c, false);
            assert(second[p - first.len()] == id);
            assert(second.contains(id));
            lemma_found(c, false, id);
            let k = choose|k: int| 0 <= k < c.len() && names_id(#[trigger] c[k], id);
            assert(names_id(d@[k]@, id));
        }
    }
}

/// Nothing is reported missing that the input does not name, and the sample holds the first
/// hundred of what is missing.
pub proof fn law_only_input_ids_are_missing(
    input: &[Vec<u8>],
    results: &[Vec<u8>],
    dead: Option<&[Vec<u8>]>,
    cfg: &VerifyConfig,
    r: (VerifyReport, Vec<String>),
    k: int,
)
    requires
        call_ensures(verify_completeness, (input, results, dead, cfg), r),
        0 <= k < r.1@.len(),
    ensures
        valid_id(r.1@[k]@),
        exists|i: int| 0 <= i < input@.len() && names_id((#[trigger] input@[i])@, r.1@[k]@),
        r.1@.len() <= 100 ==> views(r.0.missing_sample@) == views(r.1@),
        r.1@.len() > 100 ==> views(r.0.missing_sample@) == views(r.1@).take(100),
{
    let a = raw_views(input@);
    let ids = found_ids(a, true);
    let id = r.1@[k]@;
    let missing = views(r.1@);
    assert(missing[k] == id);
    assert(missing.contains(id));
    assert(missing.to_set().contains(id));
    assert(ids.to_set().contains(id));
    assert(ids.contains(id));
    lemma_found(a, true, id);
    let i = choose|i: int|
        0 <= i < a.len() && names_id(#[trigger] a[i], id) && (true ==> valid_id(id));
    assert(names_id(input@[i]@, id));
}

proof fn lemma_line_counts(lines: Seq<Seq<u8>>)
    ensures
        found_ids(lines, true).len() == lines.filter(
            |l: Seq<u8>| exists|id: Seq<char>| #[trigger] names_id(l, id) && valid_id(id),
        ).len(),
        refused_lines(lines) == lines.filter(
            |l: Seq<u8>|
                !blank(l) && !(exists|id: Seq<char>| #[trigger] names_id(l, id) && valid_id(id)),
        ).len(),
    decreases lines.len(),
{
    reveal(Seq::filter);
    if lines.len() > 0 {
        let l = lines.last();
        lemma_line_counts(lines.drop_last());
        if exists|id: Seq<char>| #[trigger] names_id(l, id) && valid_id(id) {
            let id = choose|id: Seq<char>| #[trigger] names_id(l, id) && valid_id(id);
            lemma_line_id_names(l, id, true);
            assert(line_id(l, true) == Some(id));
        }
        if line_id(l, true) is Some {
            let id = line_id(l, true)->0;
            lemma_line_id_names(l, id, true);
        }
    }
}

/// Every line of the input that names a valid id is counted, once as an id or again as a
/// duplicate; every other line that is not blank is counted as rejected.
pub proof fn law_input_lines_are_counted(
    input: &[Vec<u8>],
    results: &[Vec<u8>],
    dead: Option<&[Vec<u8>]>,
    cfg: &VerifyConfig,
    r: (VerifyReport, Vec<String>),
)
    requires
        call_ensures(verify_completeness, (input, results, dead, cfg), r),
    ensures
        r.0.input_ids + r.0.duplicate_input == raw_views(input@).filter(
            |l: Seq<u8>| exists|id: Seq<char>| #[trigger] names_id(l, id) && valid_id(id),
        ).len(),
        r.0.rejected_input == raw_views(input@).filter(
            |l: Seq<u8>|
                !blank(l) && !(exists|id: Seq<char>| #[trigger] names_id(l, id) && valid_id(id)),
        ).len(),
        r.0.missing <= r.0.input_ids,
        r.0.extra <= r.0.emitted_ids,
        r.0.input_ids - r.0.missing == r.0.emitted_ids - r.0.extra,
{
    let a = raw_views(input@);
    lemma_line_counts(a);
    let ids = found_ids(a, true);
    let out = emitted_ids(
        results@,
        match dead {
            Some(d) => Some(d@),
            None => None,
        },
    );
    let x = ids.to_set();
    let y = out.to_set();
    lemma_set_split(x, y);
    lemma_set_split(y, x);
    assert(x.intersect(y) =~= y.intersect(x));
    lemma_ascending_distinct(views(r.1@));
    views(r.1@).unique_seq_to_set();
}

proof fn lemma_set_split(x: Set<Seq<char>>, y: Set<Seq<char>>)
    requires
        x.finite(),
    ensures
        x.len() == x.difference(y).len() + x.intersect(y).len(),
{
    assert(x.difference(y).disjoint(x.intersect(y)));
    vstd::set_lib::lemma_set_disjoint_lens(x.difference(y), x.intersect(y));
    assert(x.difference(y) + x.intersect(y) =~= x);
}

/// Two sorted streams are compared head by head: the lesser head is only in its own, and
/// equal heads are in both. A missing id is counted and, while there is room, kept.
pub proof fn law_heads_are_compared(
    before: VerifyReport,
    after: VerifyReport,
    input: Option<&str>,
    emitted: Option<&str>,
    r: Step,
)
    requires
        exists|m: &mut VerifyReport|
            *m == before && *final(m) == after && #[trigger] call_ensures(
                VerifyReport::step,
                (m, input, emitted),
                r,
            ),
    ensures
        input is None && emitted is None <==> r is Done,
        input is Some && emitted is None ==> r is Missing,
        input is None && emitted is Some ==> r is Extra,
        input is Some && emitted is Some && input->0@ == emitted->0@ ==> r is Both,
        input is Some && emitted is Some && lex_before(input->0@, emitted->0@) ==> r is Missing,
        input is Some && emitted is Some && lex_before(emitted->0@, input->0@) ==> r is Extra,
        r is Missing <==> after.missing == before.missing + 1,
        r is Extra <==> after.extra == before.extra + 1,
        !(r is Missing) ==> after.missing == before.missing && views(after.missing_sample@)
            == views(before.missing_sample@),
        r is Missing && before.missing_sample@.len() < 10 ==> views(after.missing_sample@)
            == views(before.missing_sample@).push(input->0@),
{
    if input is Some && emitted is Some {
        crate::text::lemma_lex_total(input->0@, emitted->0@);
    }
}

/// A sorted stream is passed on without its repeats: an id comes out when another follows
/// it, or nothing does.
pub proof fn law_repeats_are_passed_on_once(
    before: UniqueStream,
    after: UniqueStream,
    next: Option<&str>,
    r: Option<String>,
)
    requires
        exists|m: &mut UniqueStream|
            *m == before && *final(m) == after && #[trigger] call_ensures(
                UniqueStream::feed,
                (m, next),
                r,
            ),
    ensures
        next matches Some(x) ==> after.spec_held() == Some(x@) && after.spec_total()
            == before.spec_total() + 1,
        next is None ==> after.spec_held() is None && after.spec_total() == before.spec_total(),
        next is Some && before.spec_held() == Some(next->0@) ==> r is None,
        next is Some && before.spec_held() is Some && before.spec_held() != Some(next->0@) ==> r is Some
            && Some(r->0@) == before.spec_held(),
        next is None && before.spec_held() is Some ==> r is Some && Some(r->0@)
            == before.spec_held(),
        before.spec_held() is None ==> r is None,
        r is Some <==> after.spec_unique() == before.spec_unique() + 1,
{
}

/// A line gives its id to a sweep, under either name; a line that is blank gives nothing,
/// and one that cannot be read, or whose id is not a valid one where that is asked for,
/// has none.
pub proof fn law_sweeps_find_ids(raw: &[u8], validate: bool, r: Found, text: Seq<char>, v: JsonView)
    requires
        call_ensures(scan_line, (raw, validate), r),
    ensures
        text_of(raw@) == Some(text) && crate::text::trim(text).len() == 0 ==> r is Blank,
        text_of(raw@) is None ==> r is Nothing,
        text_of(raw@) == Some(text) && crate::text::trim(text).len() > 0 && json_parse(text)
            is Err ==> r is Nothing,
        text_of(raw@) == Some(text) && crate::text::trim(text).len() > 0 && json_parse(text)
            == Ok::<JsonView, Seq<char>>(v) ==> ({
            let id = if v.get("custom_id"@) is Some {
                v.str_at("custom_id"@)
            } else {
                v.str_at("recordId"@)
            };
            &&& id is None ==> r is Nothing
            &&& id is Some && (!validate || valid_id(id->0)) ==> (r matches Found::Id(x) && x@
                == id->0)
            &&& id is Some && validate && !valid_id(id->0) ==> r is Nothing
        }),
{
}


} // verus!

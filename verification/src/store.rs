//! The result sink, keyed by `custom_id`.
//!
//! Results go to an append-only file of lines, dead letters to a sibling. Writes are
//! idempotent: a set of the ids already written, seeded from the existing files, makes a
//! second write of an id do nothing. An id is terminal once, as a success or as a dead
//! letter, never both.

use vstd::prelude::*;

use crate::cost::{no_totals, usage_fits, with_usage, UsageTotals};
use crate::id_set::IdSet;
use crate::json::{json_parse, json_text, parse_json, Json, JsonView};
use crate::result::{
    body_is_canonical, is_readable, law_result_round_trip, result_json, stored_usage, usage_of_json,
    ResultView,
};
use crate::text::{concat2, is_blank, opt_view, split_char, trim, views};
use crate::types::{no_usage, ItemResult, TokenUsage};

verus! {

/// What stands behind the path of the results in the path of the dead letters.
pub open spec fn dead_suffix() -> Seq<char> {
    ".dead.jsonl"@
}

/// `results.jsonl` becomes `results.jsonl.dead.jsonl`.
pub fn dead_letter_path(out: &str) -> (r: String)
    ensures
        r@ == out@ + dead_suffix(),
{
    concat2(out, ".dead.jsonl")
}

/// The id of a parsed line.
pub open spec fn written_id(parsed: Option<JsonView>) -> Option<Seq<char>> {
    match parsed {
        Some(v) => v.str_at("custom_id"@),
        None => None,
    }
}

/// The id under which a line of a results file counts as written.
pub open spec fn line_key(line: Seq<char>) -> Option<Seq<char>> {
    if trim(line).len() == 0 {
        None
    } else {
        written_id(json_parse(line).ok())
    }
}

/// The line of a result.
pub open spec fn result_line(r: ResultView) -> Seq<char> {
    json_text(result_json(r))
}

/// The line of a result is one line, which counts under the id of the result. To write a
/// result that can be read back shows this of it.
pub open spec fn is_record(r: ResultView) -> bool {
    !result_line(r).contains('\n') && line_key(result_line(r)) == Some(r.custom_id)
}

/// The ids of lines.
pub open spec fn scanned(lines: Seq<Seq<char>>) -> Set<Seq<char>>
    decreases lines.len(),
{
    if lines.len() == 0 {
        Set::empty()
    } else {
        match line_key(lines.last()) {
            Some(id) => scanned(lines.drop_last()).insert(id),
            None => scanned(lines.drop_last()),
        }
    }
}

/// The id of a parsed line.
pub fn id_written(parsed: &Option<Json>) -> (r: Option<String>)
    ensures
        opt_view(r) == written_id(
            match parsed {
                Some(j) => Some(j@),
                None => None,
            },
        ),
{
    match parsed {
        Some(v) => match v.str_at("custom_id") {
            Some(t) => Some(t.to_owned()),
            None => None,
        },
        None => None,
    }
}

/// A line read as JSON, if it is.
fn read(line: &str) -> (r: Option<Json>)
    ensures
        match r {
            Some(j) => json_parse(line@).ok() == Some(j@),
            None => json_parse(line@).ok() is None,
        },
{
    match parse_json(line) {
        Ok(j) => Some(j),
        Err(_) => None,
    }
}

/// The id under which a line of a results file counts as written.
pub fn key_of_line(line: &str) -> (r: Option<String>)
    ensures
        opt_view(r) == line_key(line@),
{
    if is_blank(line) {
        return None;
    }
    id_written(&read(line))
}

/// Where a record goes.
#[derive(Debug, Clone, Copy, PartialEq, Eq, Structural)]
pub enum Sink {
    /// The results.
    Results,
    /// The dead letters.
    DeadLetters,
}

/// A record to append.
pub struct Append {
    pub sink: Sink,
    /// The text to append, line end included.
    pub text: String,
}

/// A file whose last byte is `last` was left in the middle of a line.
pub fn ends_mid_line(last: Option<u8>) -> (r: bool)
    ensures
        r == (last is Some && last->0 != 10),
{
    match last {
        Some(b) => b != 10,
        None => false,
    }
}

/// The text that appends a line: behind a torn line, a line end goes first.
pub open spec fn framed(torn: bool, line: Seq<char>) -> Seq<char> {
    if torn {
        seq!['\n'] + line + seq!['\n']
    } else {
        line + seq!['\n']
    }
}

/// The text that appends a line.
pub fn frame(torn: bool, line: &str) -> (r: String)
    ensures
        r@ == framed(torn, line@),
{
    let mut out: String = String::new();
    if torn {
        out.push('\n');
    }
    let ghost head = out@;
    out.append(line);
    out.push('\n');
    proof {
        if torn {
            assert(head == seq!['\n']);
            assert((head + line@).push('\n') == seq!['\n'] + line@ + seq!['\n']);
        } else {
            assert((head + line@).push('\n') == line@ + seq!['\n']);
        }
    }
    out
}

/// An append-only sink of result lines and a sibling for dead letters. It holds the ids
/// already written; the files are the caller's.
pub struct JsonlStore {
    out_path: String,
    dead_path: String,
    emitted: IdSet,
    loaded: bool,
}

impl JsonlStore {
    /// The ids already written.
    pub closed spec fn spec_emitted(self) -> Set<Seq<char>> {
        self.emitted@
    }

    /// The existing files were scanned.
    pub closed spec fn spec_loaded(self) -> bool {
        self.loaded
    }

    /// The path of the results.
    pub closed spec fn spec_out_path(self) -> Seq<char> {
        self.out_path@
    }

    /// The path of the dead letters.
    pub closed spec fn spec_dead_path(self) -> Seq<char> {
        self.dead_path@
    }

    /// Results go to `out_path`, dead letters to its sibling.
    pub fn new(out_path: &str) -> (s: Self)
        ensures
            s.spec_out_path() == out_path@,
            s.spec_dead_path() == out_path@ + dead_suffix(),
            s.spec_emitted() == Set::<Seq<char>>::empty(),
            !s.spec_loaded(),
    {
        JsonlStore {
            out_path: out_path.to_owned(),
            dead_path: dead_letter_path(out_path),
            emitted: IdSet::new(),
            loaded: false,
        }
    }

    /// The path of the results.
    pub fn out_path(&self) -> (r: &str)
        ensures
            r@ == self.spec_out_path(),
    {
        self.out_path.as_str()
    }

    /// The path of the dead letters.
    pub fn dead_path(&self) -> (r: &str)
        ensures
            r@ == self.spec_dead_path(),
    {
        self.dead_path.as_str()
    }

    /// Whether the existing files were scanned.
    pub fn is_loaded(&self) -> (r: bool)
        ensures
            r == self.spec_loaded(),
    {
        self.loaded
    }

    /// Takes note of the ids of lines that are already there.
    pub fn scan_ids(&mut self, lines: &[String])
        ensures
            final(self).spec_emitted() == old(self).spec_emitted().union(scanned(views(lines@))),
            final(self).spec_loaded() == old(self).spec_loaded(),
            final(self).spec_out_path() == old(self).spec_out_path(),
            final(self).spec_dead_path() == old(self).spec_dead_path(),
    {
        let ghost all = views(lines@);
        let ghost before = self.emitted@;
        let mut i: usize = 0;
        assert(all.take(0) == Seq::<Seq<char>>::empty());
        assert(before.union(scanned(all.take(0))) =~= before);
        while i < lines.len()
            invariant
                i <= lines@.len(),
                all == views(lines@),
                self.emitted@ == before.union(scanned(all.take(i as int))),
                self.loaded == old(self).loaded,
                self.out_path == old(self).out_path,
                self.dead_path == old(self).dead_path,
            decreases lines@.len() - i,
        {
            proof {
                assert(all.take(i + 1).drop_last() == all.take(i as int));
                assert(all.take(i + 1).last() == lines@[i as int]@);
            }
            match key_of_line(lines[i].as_str()) {
                Some(id) => {
                    let _ = self.emitted.insert(id.as_str());
                    assert(self.emitted@ =~= before.union(scanned(all.take(i + 1))));
                },
                None => {},
            }
            i = i + 1;
        }
        assert(all.take(all.len() as int) == all);
    }

    /// Marks the existing files as scanned.
    pub fn set_loaded(&mut self)
        ensures
            final(self).spec_loaded(),
            final(self).spec_emitted() == old(self).spec_emitted(),
            final(self).spec_out_path() == old(self).spec_out_path(),
            final(self).spec_dead_path() == old(self).spec_dead_path(),
    {
        self.loaded = true;
    }

    /// Seeds the set from the lines of both files, once.
    pub fn ensure_loaded(&mut self, out_lines: &[String], dead_lines: &[String])
        ensures
            final(self).spec_loaded(),
            final(self).spec_emitted() == if old(self).spec_loaded() {
                old(self).spec_emitted()
            } else {
                old(self).spec_emitted().union(scanned(views(out_lines@))).union(
                    scanned(views(dead_lines@)),
                )
            },
            final(self).spec_out_path() == old(self).spec_out_path(),
            final(self).spec_dead_path() == old(self).spec_dead_path(),
    {
        if !self.loaded {
            self.scan_ids(out_lines);
            self.scan_ids(dead_lines);
            self.set_loaded();
        }
    }

    /// What a result needs: nothing where its id was written already, else its line at the
    /// end of `sink`.
    fn record(&self, sink: Sink, result: &ItemResult, torn: bool) -> (r: Option<Append>)
        requires
            self.spec_loaded(),
            body_is_canonical(result@),
        ensures
            match r {
                Some(a) => !self.spec_emitted().contains(result.custom_id@) && a.sink == sink
                    && a.text@ == framed(torn, result_line(result@)) && (is_readable(result@)
                    ==> is_record(result@)),
                None => self.spec_emitted().contains(result.custom_id@),
            },
    {
        if self.emitted.contains(result.custom_id.as_str()) {
            None
        } else {
            let line: String = result.to_line();
            proof {
                law_result_round_trip(result@);
            }
            Some(Append { sink, text: frame(torn, line.as_str()) })
        }
    }

    /// What a success needs. `torn` says that the results were left in the middle of a
    /// line.
    pub fn put(&self, result: &ItemResult, torn: bool) -> (r: Option<Append>)
        requires
            self.spec_loaded(),
            body_is_canonical(result@),
        ensures
            match r {
                Some(a) => !self.spec_emitted().contains(result.custom_id@) && a.sink
                    == Sink::Results && a.text@ == framed(torn, result_line(result@)) && (
                is_readable(result@) ==> is_record(result@)),
                None => self.spec_emitted().contains(result.custom_id@),
            },
    {
        self.record(Sink::Results, result, torn)
    }

    /// What a dead letter needs. `torn` says that the dead letters were left in the middle
    /// of a line.
    pub fn dead_letter(&self, result: &ItemResult, torn: bool) -> (r: Option<Append>)
        requires
            self.spec_loaded(),
            body_is_canonical(result@),
        ensures
            match r {
                Some(a) => !self.spec_emitted().contains(result.custom_id@) && a.sink
                    == Sink::DeadLetters && a.text@ == framed(torn, result_line(result@)) && (
                is_readable(result@) ==> is_record(result@)),
                None => self.spec_emitted().contains(result.custom_id@),
            },
    {
        self.record(Sink::DeadLetters, result, torn)
    }

    /// The record of `custom_id` was appended.
    pub fn appended(&mut self, custom_id: &str)
        ensures
            final(self).spec_emitted() == old(self).spec_emitted().insert(custom_id@),
            final(self).spec_loaded() == old(self).spec_loaded(),
            final(self).spec_out_path() == old(self).spec_out_path(),
            final(self).spec_dead_path() == old(self).spec_dead_path(),
    {
        let _ = self.emitted.insert(custom_id);
    }

    /// The ids already written.
    pub fn emitted_ids(&self) -> (r: &IdSet)
        ensures
            r@ == self.spec_emitted(),
    {
        &self.emitted
    }
}

/// The lines of a text: what stands before and between line ends, and what follows the
/// last one if that is anything.
pub open spec fn lines_of(text: Seq<char>) -> Seq<Seq<char>> {
    let parts = split_char(text, '\n');
    if parts.last().len() == 0 {
        parts.drop_last()
    } else {
        parts
    }
}

/// The text was left in the middle of a line.
pub open spec fn mid_line(text: Seq<char>) -> bool {
    text.len() > 0 && text.last() != '\n'
}

/// Splitting at a line end that stands between two texts.
proof fn lemma_split_join(a: Seq<char>, b: Seq<char>)
    ensures
        split_char(a + seq!['\n'] + b, '\n') == split_char(a, '\n') + split_char(b, '\n'),
    decreases a.len(),
{
    let c = '\n';
    let t = a + seq![c] + b;
    crate::text::lemma_first_index(a, c);
    let k = crate::text::first_index(a, c) as int;
    assert forall|j: int| 0 <= j < k implies t[j] != c by {
        assert(t[j] == a[j]);
    }
    assert(t[k] == c) by {
        if k < a.len() {
            assert(t[k] == a[k]);
        }
    }
    crate::text::lemma_first_index_unique(t, c, k);
    assert(t.take(k) == a.take(k));
    if k < a.len() {
        let rest = a.skip(k + 1);
        lemma_split_join(rest, b);
        assert(t.skip(k + 1) == rest + seq![c] + b);
        assert(split_char(t, c) == seq![a.take(k)] + split_char(t.skip(k + 1), c));
        assert(split_char(a, c) == seq![a.take(k)] + split_char(rest, c));
        assert(seq![a.take(k)] + (split_char(rest, c) + split_char(b, c)) == (seq![a.take(k)]
            + split_char(rest, c)) + split_char(b, c));
    } else {
        assert(t.skip(k + 1) == b);
        assert(a.take(k) == a);
        assert(split_char(t, c) == seq![a] + split_char(b, c));
        assert(split_char(a, c) == seq![a]);
    }
}

/// What follows the last line end is empty just where the text ends with one, or is
/// empty.
proof fn lemma_last_part(s: Seq<char>)
    ensures
        split_char(s, '\n').len() > 0,
        split_char(s, '\n').last().len() == 0 <==> !mid_line(s),
    decreases s.len(),
{
    let c = '\n';
    crate::text::lemma_first_index(s, c);
    let k = crate::text::first_index(s, c) as int;
    if k < s.len() {
        let rest = s.skip(k + 1);
        lemma_last_part(rest);
        assert(split_char(s, c).last() == split_char(rest, c).last());
        if rest.len() > 0 {
            assert(rest.last() == s.last());
        } else {
            assert(s.last() == c);
        }
    } else if s.len() > 0 {
        assert(s[s.len() - 1] != c);
    }
}

/// A text without line ends is its only part.
proof fn lemma_one_part(s: Seq<char>)
    requires
        !s.contains('\n'),
    ensures
        split_char(s, '\n') == seq![s],
{
    crate::text::lemma_first_index(s, '\n');
}

/// A record that is appended becomes a line of its own, and every line that was there
/// stays as it was: a line that was left in the middle is never continued.
pub proof fn law_append_adds_one_line(text: Seq<char>, line: Seq<char>)
    requires
        !line.contains('\n'),
    ensures
        lines_of(text + framed(mid_line(text), line)) == lines_of(text).push(line),
{
    let c = '\n';
    let none = Seq::<char>::empty();
    lemma_one_part(line);
    lemma_one_part(none);
    lemma_last_part(text);
    let whole = text + framed(mid_line(text), line);
    if mid_line(text) {
        lemma_split_join(text, line);
        lemma_split_join(text + seq![c] + line, none);
        assert(whole == text + seq![c] + line + seq![c] + none);
        assert(split_char(whole, c) == split_char(text, c) + seq![line] + seq![none]);
        assert(split_char(whole, c).drop_last() == split_char(text, c).push(line));
    } else if text.len() == 0 {
        lemma_split_join(line, none);
        assert(whole == line + seq![c] + none);
        assert(text == none);
        assert(split_char(whole, c).drop_last() == seq![line]);
        assert(lines_of(text) == Seq::<Seq<char>>::empty());
        assert(seq![line] == Seq::<Seq<char>>::empty().push(line));
    } else {
        let head = text.drop_last();
        lemma_split_join(head, none);
        lemma_split_join(head, line);
        lemma_split_join(head + seq![c] + line, none);
        assert(text == head + seq![c] + none);
        assert(whole == head + seq![c] + line + seq![c] + none);
        assert(split_char(text, c).drop_last() == split_char(head, c));
        assert(split_char(whole, c).drop_last() == split_char(head, c).push(line));
    }
}

/// The two files of a store, as lines, and the ids it holds as written.
#[verifier::ext_equal]
pub struct StoreView {
    pub emitted: Set<Seq<char>>,
    pub out: Seq<Seq<char>>,
    pub dead: Seq<Seq<char>>,
}

/// How many lines count as written under an id.
pub open spec fn lines_for(lines: Seq<Seq<char>>, id: Seq<char>) -> nat
    decreases lines.len(),
{
    if lines.len() == 0 {
        0
    } else {
        lines_for(lines.drop_last(), id) + if line_key(lines.last()) == Some(id) {
            1nat
        } else {
            0nat
        }
    }
}

/// Every id that the store holds as written has one line in the two files together, and
/// no other id has any.
pub open spec fn terminal_once(s: StoreView) -> bool {
    forall|id: Seq<char>|
        #![trigger s.emitted.contains(id)]
        #![trigger lines_for(s.out, id)]
        #![trigger lines_for(s.dead, id)]
        lines_for(s.out, id) + lines_for(s.dead, id) == if s.emitted.contains(id) {
            1nat
        } else {
            0nat
        }
}

/// The store after a record was offered: nothing happens where the id was written
/// already.
pub open spec fn offered(s: StoreView, sink: Sink, id: Seq<char>, line: Seq<char>) -> StoreView {
    if s.emitted.contains(id) {
        s
    } else {
        StoreView {
            emitted: s.emitted.insert(id),
            out: if sink == Sink::Results {
                s.out.push(line)
            } else {
                s.out
            },
            dead: if sink == Sink::DeadLetters {
                s.dead.push(line)
            } else {
                s.dead
            },
        }
    }
}

/// Whatever result is offered, an id is terminal once: as a success or as a dead letter,
/// never both, and never twice.
pub proof fn law_terminal_once(s: StoreView, sink: Sink, r: ResultView)
    requires
        terminal_once(s),
        s.emitted.contains(r.custom_id) || is_record(r),
    ensures
        terminal_once(offered(s, sink, r.custom_id, result_line(r))),
{
    let line = result_line(r);
    let t = offered(s, sink, r.custom_id, line);
    if !s.emitted.contains(r.custom_id) {
        assert(s.out.push(line).drop_last() == s.out);
        assert(s.dead.push(line).drop_last() == s.dead);
        assert forall|x: Seq<char>|
            #![trigger t.emitted.contains(x)]
            lines_for(t.out, x) + lines_for(t.dead, x) == if t.emitted.contains(x) {
                1nat
            } else {
                0nat
            } by {
            let written = lines_for(s.out, x) + lines_for(s.dead, x);
            assert(written <= 1);
        }
    }
}

/// To offer a record a second time, to either sink, does nothing.
pub proof fn law_offer_is_idempotent(
    s: StoreView,
    sink: Sink,
    id: Seq<char>,
    line: Seq<char>,
    other_sink: Sink,
    other_line: Seq<char>,
)
    ensures
        offered(offered(s, sink, id, line), other_sink, id, other_line) == offered(
            s,
            sink,
            id,
            line,
        ),
{
}

/// An id is among those of lines just where a line counts under it.
proof fn lemma_scanned(lines: Seq<Seq<char>>, id: Seq<char>)
    ensures
        scanned(lines).contains(id) <==> lines_for(lines, id) > 0,
    decreases lines.len(),
{
    if lines.len() > 0 {
        lemma_scanned(lines.drop_last(), id);
    }
}

/// A store that is opened again on its files holds the same ids as written as before.
pub proof fn law_reload_restores(s: StoreView)
    requires
        terminal_once(s),
    ensures
        scanned(s.out).union(scanned(s.dead)) == s.emitted,
{
    assert(scanned(s.out).union(scanned(s.dead)) =~= s.emitted) by {
        assert forall|id: Seq<char>| scanned(s.out).union(scanned(s.dead)).contains(id)
            == s.emitted.contains(id) by {
            lemma_scanned(s.out, id);
            lemma_scanned(s.dead, id);
        }
    }
}

/// The texts of the two files of a store, and the ids it holds as written.
#[verifier::ext_equal]
pub struct FilesView {
    pub emitted: Set<Seq<char>>,
    pub out: Seq<char>,
    pub dead: Seq<char>,
}

/// A call of a store, or a later store over the same files.
pub enum Call {
    Put(ResultView),
    DeadLetter(ResultView),
    Reopen,
}

/// The files as lines.
pub open spec fn as_lines(f: FilesView) -> StoreView {
    StoreView { emitted: f.emitted, out: lines_of(f.out), dead: lines_of(f.dead) }
}

/// The ids that a store holds as written when it is opened on the files.
pub open spec fn ids_in(f: FilesView) -> Set<Seq<char>> {
    scanned(lines_of(f.out)).union(scanned(lines_of(f.dead)))
}

/// A store just opened on files in which no id has more than one line.
pub open spec fn just_opened(f: FilesView) -> bool {
    &&& f.emitted == ids_in(f)
    &&& forall|id: Seq<char>|
        #![trigger lines_for(lines_of(f.out), id)]
        #![trigger lines_for(lines_of(f.dead), id)]
        lines_for(lines_of(f.out), id) + lines_for(lines_of(f.dead), id) <= 1
}

/// The result of a call.
pub open spec fn called(c: Call) -> Option<ResultView> {
    match c {
        Call::Put(r) => Some(r),
        Call::DeadLetter(r) => Some(r),
        Call::Reopen => None,
    }
}

/// The files after a call: nothing happens where the id was written already.
pub open spec fn after_call(f: FilesView, c: Call) -> FilesView {
    match c {
        Call::Put(r) => if f.emitted.contains(r.custom_id) {
            f
        } else {
            FilesView {
                emitted: f.emitted.insert(r.custom_id),
                out: f.out + framed(mid_line(f.out), result_line(r)),
                ..f
            }
        },
        Call::DeadLetter(r) => if f.emitted.contains(r.custom_id) {
            f
        } else {
            FilesView {
                emitted: f.emitted.insert(r.custom_id),
                dead: f.dead + framed(mid_line(f.dead), result_line(r)),
                ..f
            }
        },
        Call::Reopen => FilesView { emitted: ids_in(f), ..f },
    }
}

/// The files after a number of calls.
pub open spec fn after_calls(f: FilesView, calls: Seq<Call>) -> FilesView
    decreases calls.len(),
{
    if calls.len() == 0 {
        f
    } else {
        after_call(after_calls(f, calls.drop_last()), calls.last())
    }
}

/// Each line that the calls write is a record of its result.
pub open spec fn all_records(f: FilesView, calls: Seq<Call>) -> bool
    decreases calls.len(),
{
    calls.len() > 0 ==> {
        &&& all_records(f, calls.drop_last())
        &&& called(calls.last()) matches Some(r) ==> after_calls(
            f,
            calls.drop_last(),
        ).emitted.contains(r.custom_id) || is_record(r)
    }
}

/// Some of the calls is of an id.
pub open spec fn was_called(calls: Seq<Call>, id: Seq<char>) -> bool {
    exists|j: int|
        0 <= j < calls.len() && (called(#[trigger] calls[j]) matches Some(r) && r.custom_id == id)
}

/// The lines of `a` are the first of `b`, unchanged.
pub open spec fn continues(a: Seq<Seq<char>>, b: Seq<Seq<char>>) -> bool {
    a.len() <= b.len() && b.take(a.len() as int) == a
}

/// One call keeps every line, writes at most its own, and keeps ids terminal once.
proof fn lemma_one_call(f: FilesView, c: Call)
    requires
        terminal_once(as_lines(f)),
        called(c) matches Some(r) ==> f.emitted.contains(r.custom_id) || is_record(r),
    ensures
        terminal_once(as_lines(after_call(f, c))),
        continues(lines_of(f.out), lines_of(after_call(f, c).out)),
        continues(lines_of(f.dead), lines_of(after_call(f, c).dead)),
        match c {
            Call::Put(r) => as_lines(after_call(f, c)) == offered(
                as_lines(f),
                Sink::Results,
                r.custom_id,
                result_line(r),
            ),
            Call::DeadLetter(r) => as_lines(after_call(f, c)) == offered(
                as_lines(f),
                Sink::DeadLetters,
                r.custom_id,
                result_line(r),
            ),
            Call::Reopen => after_call(f, c) == f,
        },
{
    let a = lines_of(f.out);
    let b = lines_of(f.dead);
    assert(a.take(a.len() as int) == a);
    assert(b.take(b.len() as int) == b);
    match c {
        Call::Put(r) => {
            law_terminal_once(as_lines(f), Sink::Results, r);
            if !f.emitted.contains(r.custom_id) {
                law_append_adds_one_line(f.out, result_line(r));
                assert(a.push(result_line(r)).take(a.len() as int) == a);
            }
        },
        Call::DeadLetter(r) => {
            law_terminal_once(as_lines(f), Sink::DeadLetters, r);
            if !f.emitted.contains(r.custom_id) {
                law_append_adds_one_line(f.dead, result_line(r));
                assert(b.push(result_line(r)).take(b.len() as int) == b);
            }
        },
        Call::Reopen => {
            law_reload_restores(as_lines(f));
        },
    }
}

/// Calls keep every line, keep ids terminal once, and hold as written just what was there
/// and what was called for.
proof fn lemma_calls(f: FilesView, calls: Seq<Call>)
    requires
        terminal_once(as_lines(f)),
        all_records(f, calls),
    ensures
        terminal_once(as_lines(after_calls(f, calls))),
        continues(lines_of(f.out), lines_of(after_calls(f, calls).out)),
        continues(lines_of(f.dead), lines_of(after_calls(f, calls).dead)),
        forall|id: Seq<char>|
            (#[trigger] after_calls(f, calls).emitted.contains(id)) <==> f.emitted.contains(id)
                || was_called(calls, id),
    decreases calls.len(),
{
    let end = after_calls(f, calls);
    if calls.len() == 0 {
        assert(lines_of(f.out).take(lines_of(f.out).len() as int) == lines_of(f.out));
        assert(lines_of(f.dead).take(lines_of(f.dead).len() as int) == lines_of(f.dead));
    } else {
        let init = calls.drop_last();
        let mid = after_calls(f, init);
        lemma_calls(f, init);
        lemma_one_call(mid, calls.last());
        lemma_continues(lines_of(f.out), lines_of(mid.out), lines_of(end.out));
        lemma_continues(lines_of(f.dead), lines_of(mid.dead), lines_of(end.dead));
        assert forall|id: Seq<char>|
            (#[trigger] end.emitted.contains(id)) <==> f.emitted.contains(id) || was_called(
                calls,
                id,
            ) by {
            assert(mid.emitted.contains(id) <==> f.emitted.contains(id) || was_called(init, id));
            if was_called(init, id) {
                let j = choose|j: int|
                    0 <= j < init.len() && (called(#[trigger] init[j]) matches Some(r)
                        && r.custom_id == id);
                assert(calls[j] == init[j]);
            }
            if was_called(calls, id) {
                let j = choose|j: int|
                    0 <= j < calls.len() && (called(#[trigger] calls[j]) matches Some(r)
                        && r.custom_id == id);
                if j < init.len() {
                    assert(init[j] == calls[j]);
                }
            }
            assert(calls[calls.len() - 1] == calls.last());
        }
    }
}

proof fn lemma_continues(a: Seq<Seq<char>>, b: Seq<Seq<char>>, c: Seq<Seq<char>>)
    requires
        continues(a, b),
        continues(b, c),
    ensures
        continues(a, c),
{
    assert(c.take(a.len() as int) == b.take(a.len() as int));
}

/// A part of the calls writes records too.
proof fn lemma_records_prefix(f: FilesView, calls: Seq<Call>, k: int)
    requires
        all_records(f, calls),
        0 <= k <= calls.len(),
    ensures
        all_records(f, calls.take(k)),
    decreases calls.len() - k,
{
    if k < calls.len() {
        lemma_records_prefix(f, calls, k + 1);
        assert(calls.take(k + 1).drop_last() == calls.take(k));
    } else {
        assert(calls.take(k) == calls);
    }
}

/// A store that is opened on files with no id twice holds every id terminal once.
proof fn lemma_just_opened(f: FilesView)
    requires
        just_opened(f),
    ensures
        terminal_once(as_lines(f)),
{
    let s = as_lines(f);
    assert forall|id: Seq<char>|
        #![trigger s.emitted.contains(id)]
        lines_for(s.out, id) + lines_for(s.dead, id) == if s.emitted.contains(id) {
            1nat
        } else {
            0nat
        } by {
        lemma_scanned(s.out, id);
        lemma_scanned(s.dead, id);
    }
}

/// Whatever is put and dead-lettered, by a store and by later ones over the same files,
/// each id that was called for has one line in the two files together. Its first call
/// wrote that line, as a line of its own, or none where the id was there before; every
/// later one wrote nothing. Every line that was there stays, one that was left in the
/// middle too.
pub proof fn law_each_id_is_written_by_its_first_call(f: FilesView, calls: Seq<Call>, k: int)
    requires
        just_opened(f),
        all_records(f, calls),
        0 <= k < calls.len(),
        called(calls[k]) is Some,
    ensures
        ({
            let r = called(calls[k])->0;
            let id = r.custom_id;
            let before = after_calls(f, calls.take(k));
            let next = after_calls(f, calls.take(k + 1));
            let end = after_calls(f, calls);
            &&& lines_for(lines_of(end.out), id) + lines_for(lines_of(end.dead), id) == 1
            &&& continues(lines_of(f.out), lines_of(end.out))
            &&& continues(lines_of(f.dead), lines_of(end.dead))
            &&& f.emitted.contains(id) || was_called(calls.take(k), id) ==> next == before
            &&& !f.emitted.contains(id) && !was_called(calls.take(k), id) ==> {
                &&& lines_of(next.out) == if calls[k] is Put {
                    lines_of(before.out).push(result_line(r))
                } else {
                    lines_of(before.out)
                }
                &&& lines_of(next.dead) == if calls[k] is DeadLetter {
                    lines_of(before.dead).push(result_line(r))
                } else {
                    lines_of(before.dead)
                }
            }
        }),
{
    let r = called(calls[k])->0;
    let before = after_calls(f, calls.take(k));
    let end = after_calls(f, calls);
    lemma_just_opened(f);
    lemma_calls(f, calls);
    lemma_records_prefix(f, calls, k);
    lemma_records_prefix(f, calls, k + 1);
    lemma_calls(f, calls.take(k));
    let part = calls.take(k + 1);
    assert(part.drop_last() == calls.take(k));
    assert(part.last() == calls[k]);
    assert(was_called(calls, r.custom_id));
    assert(end.emitted.contains(r.custom_id));
    assert(as_lines(end).emitted.contains(r.custom_id));
    lemma_one_call(before, calls[k]);
    assert(before.emitted.contains(r.custom_id) <==> f.emitted.contains(r.custom_id)
        || was_called(calls.take(k), r.custom_id));
}

/// The usage that a parsed line adds to the totals; nothing where it is no result.
pub open spec fn counted_usage(parsed: Option<JsonView>) -> Option<TokenUsage> {
    match parsed {
        Some(v) => match v.get("custom_id"@) {
            Some(_) => Some(
                match v.get("usage"@) {
                    Some(u) => match stored_usage(u) {
                        Some(x) => x,
                        None => no_usage(),
                    },
                    None => no_usage(),
                },
            ),
            None => None,
        },
        None => None,
    }
}

/// The usage that a line adds to the totals.
pub open spec fn line_usage(line: Seq<char>) -> Option<TokenUsage> {
    if trim(line).len() == 0 {
        None
    } else {
        counted_usage(json_parse(line).ok())
    }
}

/// The totals of lines; nothing where a counter does not hold them.
pub open spec fn summed(lines: Seq<Seq<char>>) -> Option<UsageTotals>
    decreases lines.len(),
{
    if lines.len() == 0 {
        Some(no_totals())
    } else {
        match summed(lines.drop_last()) {
            Some(t) => match line_usage(lines.last()) {
                Some(u) => if usage_fits(t, u) {
                    Some(with_usage(t, u))
                } else {
                    None
                },
                None => Some(t),
            },
            None => None,
        }
    }
}

/// The usage that a parsed line adds to the totals.
pub fn usage_counted(parsed: &Option<Json>) -> (r: Option<TokenUsage>)
    ensures
        r == counted_usage(
            match parsed {
                Some(j) => Some(j@),
                None => None,
            },
        ),
{
    match parsed {
        Some(v) => {
            if v.get("custom_id").is_none() {
                return None;
            }
            match v.get("usage") {
                Some(u) => match usage_of_json(u) {
                    Some(x) => Some(x),
                    None => Some(TokenUsage::default()),
                },
                None => Some(TokenUsage::default()),
            }
        },
        None => None,
    }
}

/// Adds one line to the totals. Says whether the counters hold it; they are unchanged
/// where they do not.
pub fn add_line(totals: &mut UsageTotals, line: &str) -> (fits: bool)
    ensures
        match line_usage(line@) {
            Some(u) => {
                &&& fits == usage_fits(*old(totals), u)
                &&& *final(totals) == if fits {
                    with_usage(*old(totals), u)
                } else {
                    *old(totals)
                }
            },
            None => fits && *final(totals) == *old(totals),
        },
{
    if is_blank(line) {
        return true;
    }
    match usage_counted(&read(line)) {
        Some(u) => {
            if totals.fits(&u) {
                totals.add(&u);
                true
            } else {
                false
            }
        },
        None => true,
    }
}

/// The totals of result lines: every line with an id is an item, and one without a
/// usable usage adds no tokens. Nothing where a counter does not hold them.
pub fn sum_usage(lines: &[String]) -> (r: Option<UsageTotals>)
    ensures
        r == summed(views(lines@)),
{
    let ghost all = views(lines@);
    let mut totals: UsageTotals = UsageTotals::default();
    let mut i: usize = 0;
    assert(all.take(0) == Seq::<Seq<char>>::empty());
    while i < lines.len()
        invariant
            i <= lines@.len(),
            all == views(lines@),
            summed(all.take(i as int)) == Some(totals),
        decreases lines@.len() - i,
    {
        proof {
            assert(all.take(i + 1).drop_last() == all.take(i as int));
            assert(all.take(i + 1).last() == lines@[i as int]@);
        }
        if !add_line(&mut totals, lines[i].as_str()) {
            proof {
                lemma_summed_stops(all, i + 1);
            }
            return None;
        }
        i = i + 1;
    }
    assert(all.take(all.len() as int) == all);
    Some(totals)
}

/// Counters that did not hold a start do not hold the whole.
proof fn lemma_summed_stops(lines: Seq<Seq<char>>, n: int)
    requires
        0 <= n <= lines.len(),
        summed(lines.take(n)) is None,
    ensures
        summed(lines) is None,
    decreases lines.len(),
{
    if n < lines.len() {
        assert(lines.drop_last().take(n) == lines.take(n));
        lemma_summed_stops(lines.drop_last(), n);
    } else {
        assert(lines.take(n) == lines);
    }
}

/// A result whose id is new is appended as one line of its own, a success to the results
/// and a dead letter to the dead letters; one whose id was written already is not.
pub proof fn law_new_results_are_appended(
    s: &JsonlStore,
    result: &ItemResult,
    torn: bool,
    line: String,
    put: Option<Append>,
    dead: Option<Append>,
)
    requires
        s.spec_loaded(),
        body_is_canonical(result@),
        call_ensures(ItemResult::to_line, (result,), line),
        call_ensures(JsonlStore::put, (s, result, torn), put),
        call_ensures(JsonlStore::dead_letter, (s, result, torn), dead),
    ensures
        put is None <==> s.spec_emitted().contains(result.custom_id@),
        dead is None <==> s.spec_emitted().contains(result.custom_id@),
        put matches Some(a) ==> a.sink == Sink::Results && (torn ==> a.text@ == seq!['\n'] + line@
            + seq!['\n']) && (!torn ==> a.text@ == line@ + seq!['\n']),
        dead matches Some(a) ==> a.sink == Sink::DeadLetters && (torn ==> a.text@ == seq!['\n']
            + line@ + seq!['\n']) && (!torn ==> a.text@ == line@ + seq!['\n']),
{
}

/// Once a record is appended its id counts as written, and no other id does.
pub proof fn law_appended_ids_count_as_written(
    before: JsonlStore,
    after: JsonlStore,
    custom_id: &str,
    id: Seq<char>,
)
    requires
        exists|s: &mut JsonlStore|
            *s == before && *final(s) == after && #[trigger] call_ensures(
                JsonlStore::appended,
                (s, custom_id),
                (),
            ),
    ensures
        after.spec_emitted().contains(id) <==> id == custom_id@ || before.spec_emitted().contains(
            id,
        ),
        after.spec_out_path() == before.spec_out_path(),
        after.spec_dead_path() == before.spec_dead_path(),
{
}

proof fn lemma_scanned_has(lines: Seq<Seq<char>>, id: Seq<char>)
    ensures
        scanned(lines).contains(id) <==> exists|i: int|
            0 <= i < lines.len() && line_key(#[trigger] lines[i]) == Some(id),
    decreases lines.len(),
{
    if lines.len() > 0 {
        let init = lines.drop_last();
        lemma_scanned_has(init, id);
        if exists|i: int| 0 <= i < init.len() && line_key(#[trigger] init[i]) == Some(id) {
            let i = choose|i: int| 0 <= i < init.len() && line_key(#[trigger] init[i]) == Some(id);
            assert(lines[i] == init[i]);
        }
        if exists|i: int| 0 <= i < lines.len() && line_key(#[trigger] lines[i]) == Some(id) {
            let i = choose|i: int|
                0 <= i < lines.len() && line_key(#[trigger] lines[i]) == Some(id);
            if i < init.len() {
                assert(line_key(init[i]) == Some(id));
            }
        }
        if line_key(lines.last()) == Some(id) {
            assert(line_key(lines[lines.len() - 1]) == Some(id));
        }
    }
}

/// The id of a line is the text under its `custom_id`; a line that is blank or cannot be
/// read has none.
pub proof fn law_lines_are_keyed_by_id(line: &str, r: Option<String>)
    requires
        call_ensures(key_of_line, (line,), r),
    ensures
        trim(line@).len() == 0 ==> r is None,
        json_parse(line@) is Err ==> r is None,
        trim(line@).len() > 0 ==> (json_parse(line@) matches Ok(j) ==> opt_view(r) == j.str_at(
            "custom_id"@,
        )),
{
}

/// A store that is opened on its files holds as written the ids of the lines of both, each
/// and no other; it reads them once.
pub proof fn law_opening_reads_both_files(
    before: JsonlStore,
    after: JsonlStore,
    out_lines: &[String],
    dead_lines: &[String],
    id: Seq<char>,
)
    requires
        exists|s: &mut JsonlStore|
            *s == before && *final(s) == after && #[trigger] call_ensures(
                JsonlStore::ensure_loaded,
                (s, out_lines, dead_lines),
                (),
            ),
    ensures
        after.spec_loaded(),
        before.spec_loaded() ==> after.spec_emitted() == before.spec_emitted(),
        !before.spec_loaded() ==> (after.spec_emitted().contains(id)
            <==> before.spec_emitted().contains(id) || (exists|i: int|
            0 <= i < out_lines@.len() && line_key((#[trigger] out_lines@[i])@) == Some(id)) || (
        exists|i: int|
            0 <= i < dead_lines@.len() && line_key((#[trigger] dead_lines@[i])@) == Some(id))),
{
    let a = views(out_lines@);
    let b = views(dead_lines@);
    lemma_scanned_has(a, id);
    lemma_scanned_has(b, id);
    if exists|i: int| 0 <= i < a.len() && line_key(#[trigger] a[i]) == Some(id) {
        let i = choose|i: int| 0 <= i < a.len() && line_key(#[trigger] a[i]) == Some(id);
        assert(line_key(out_lines@[i]@) == Some(id));
    }
    if exists|i: int| 0 <= i < b.len() && line_key(#[trigger] b[i]) == Some(id) {
        let i = choose|i: int| 0 <= i < b.len() && line_key(#[trigger] b[i]) == Some(id);
        assert(line_key(dead_lines@[i]@) == Some(id));
    }
    if exists|i: int|
        0 <= i < out_lines@.len() && line_key((#[trigger] out_lines@[i])@) == Some(id) {
        let i = choose|i: int|
            0 <= i < out_lines@.len() && line_key((#[trigger] out_lines@[i])@) == Some(id);
        assert(line_key(a[i]) == Some(id));
    }
    if exists|i: int|
        0 <= i < dead_lines@.len() && line_key((#[trigger] dead_lines@[i])@) == Some(id) {
        let i = choose|i: int|
            0 <= i < dead_lines@.len() && line_key((#[trigger] dead_lines@[i])@) == Some(id);
        assert(line_key(b[i]) == Some(id));
    }
}

/// Dead letters go beside the results, and a file whose last byte is no line end was torn.
pub proof fn law_dead_letters_stand_beside_results(
    out: &str,
    path: String,
    s: JsonlStore,
    last: Option<u8>,
    torn: bool,
)
    requires
        call_ensures(dead_letter_path, (out,), path),
        call_ensures(JsonlStore::new, (out,), s),
        call_ensures(ends_mid_line, (last,), torn),
    ensures
        path@ == out@ + ".dead.jsonl"@,
        s.spec_out_path() == out@,
        s.spec_dead_path() == out@ + ".dead.jsonl"@,
        !s.spec_loaded(),
        torn <==> last is Some && last != Some(10u8),
{
}

/// A line with an id adds one item and its tokens to the totals; a line without one adds
/// nothing, and a usage that cannot be read adds no tokens.
pub proof fn law_lines_add_their_tokens(
    before: UsageTotals,
    after: UsageTotals,
    line: &str,
    fits: bool,
)
    requires
        exists|t: &mut UsageTotals|
            *t == before && *final(t) == after && #[trigger] call_ensures(
                add_line,
                (t, line),
                fits,
            ),
    ensures
        !fits ==> after == before,
        trim(line@).len() == 0 || json_parse(line@) is Err ==> fits && after == before,
        json_parse(line@) matches Ok(j) ==> j.get("custom_id"@) is None ==> fits && after == before,
        fits && trim(line@).len() > 0 ==> (json_parse(line@) matches Ok(j) ==> j.get("custom_id"@)
            is Some ==> after.items == before.items + 1 && (j.get("usage"@) is None
            ==> after.prompt_tokens == before.prompt_tokens && after.completion_tokens
            == before.completion_tokens) && (j.get("usage"@) matches Some(u) ==> (stored_usage(
            u,
        ) matches Some(x) ==> after.prompt_tokens == before.prompt_tokens + x.prompt_tokens
            && after.completion_tokens == before.completion_tokens + x.completion_tokens
            && after.cached_tokens == before.cached_tokens + x.cached_tokens
            && after.reasoning_tokens == before.reasoning_tokens + x.reasoning_tokens))),
{
}

/// The tokens of a list of lines are those of all but the last, and those of the last: the
/// sum is there as long as every step fits.
pub proof fn law_tokens_are_summed_line_by_line(
    lines: &[String],
    init: &[String],
    r: Option<UsageTotals>,
    before: Option<UsageTotals>,
    after: UsageTotals,
    line: &str,
    fits: bool,
)
    requires
        lines@.len() > 0,
        init@ == lines@.drop_last(),
        line@ == lines@.last()@,
        call_ensures(sum_usage, (lines,), r),
        call_ensures(sum_usage, (init,), before),
        before is Some,
        exists|t: &mut UsageTotals|
            *t == before->0 && *final(t) == after && #[trigger] call_ensures(
                add_line,
                (t, line),
                fits,
            ),
    ensures
        fits ==> r == Some(after),
        !fits ==> r is None,
{
    let all = views(lines@);
    assert(all.drop_last() == views(init@));
    assert(all.last() == line@);
}

/// No lines have no tokens.
pub proof fn law_no_lines_have_no_tokens(lines: &[String], r: Option<UsageTotals>)
    requires
        call_ensures(sum_usage, (lines,), r),
        lines@.len() == 0,
    ensures
        r matches Some(t) && t.items == 0 && t.prompt_tokens == 0 && t.completion_tokens == 0
            && t.cached_tokens == 0 && t.reasoning_tokens == 0,
{
}

/// A line whose tokens leave the totals in range is never refused.
pub proof fn law_tokens_fit_while_they_can(
    before: UsageTotals,
    after: UsageTotals,
    line: &str,
    fits: bool,
    u: TokenUsage,
)
    requires
        exists|t: &mut UsageTotals|
            *t == before && *final(t) == after && #[trigger] call_ensures(
                add_line,
                (t, line),
                fits,
            ),
        before.items < u64::MAX,
        json_parse(line@) is Ok,
        json_parse(line@)->Ok_0.get("usage"@) is Some,
        stored_usage(json_parse(line@)->Ok_0.get("usage"@)->0) == Some(u),
        before.prompt_tokens + u.prompt_tokens <= u64::MAX,
        before.completion_tokens + u.completion_tokens <= u64::MAX,
        before.cached_tokens + u.cached_tokens <= u64::MAX,
        before.reasoning_tokens + u.reasoning_tokens <= u64::MAX,
    ensures
        fits,
{
}

/// The ids that are found in lines are those of the lines that have one, in either file.
pub proof fn law_scans_find_every_id(
    before: JsonlStore,
    after: JsonlStore,
    lines: &[String],
    i: int,
    line: &str,
    key: Option<String>,
)
    requires
        exists|m: &mut JsonlStore|
            *m == before && *final(m) == after && #[trigger] call_ensures(
                JsonlStore::scan_ids,
                (m, lines),
                (),
            ),
        0 <= i < lines@.len(),
        line@ == lines@[i]@,
        call_ensures(key_of_line, (line,), key),
    ensures
        key is Some ==> after.spec_emitted().contains(key->0@),
        before.spec_emitted().subset_of(after.spec_emitted()),
        lines@.len() == 1 && key is None ==> after.spec_emitted() == before.spec_emitted(),
        lines@.len() == 1 && key is Some ==> after.spec_emitted() == before.spec_emitted().insert(
            key->0@,
        ),
{
    let all = views(lines@);
    assert(all[i] == line@);
    if key is Some {
        lemma_scanned_has(all, key->0@);
        assert(line_key(all[i]) == Some(key->0@));
    }
    if lines@.len() == 1 {
        assert(all.drop_last() == Seq::<Seq<char>>::empty());
        reveal_with_fuel(scanned, 2);
        assert(all.last() == line@);
        assert(before.spec_emitted().union(Set::empty()) =~= before.spec_emitted());
        if key is Some {
            assert(before.spec_emitted().union(Set::empty().insert(key->0@))
                =~= before.spec_emitted().insert(key->0@));
        }
    }
}

} // verus!

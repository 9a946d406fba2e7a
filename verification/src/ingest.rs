//! Streaming ingest: lines of the input become items of the queue, in batches, with a
//! checkpoint after each batch. One bad line is set aside and never stops the rest.

use vstd::prelude::*;

use crate::item::{checked_line, parse_line};
use crate::json::{
    canonical, json_parse, json_text, lemma_object_view, members_view, names_ascend, render_json,
    Json, JsonView, Number, NumberView,
};
use crate::queue::enqueued;
use crate::sqlite::SqliteQueue;
use crate::text::{
    chars_of, concat2, decode, is_blank, lossy, raw_views, shown, string_from, text_of, trim,
};
use crate::types::{item_views, Item, ItemView, Shard};

verus! {

/// How many parsed items to buffer before they go to the queue.
pub const HYDRATE_BATCH: usize = 1_000;

/// Outcome of an ingest pass.
#[derive(Debug, Clone, Copy, PartialEq, Eq, Structural)]
pub struct IngestStats {
    /// Lines read that were not blank.
    pub lines_read: u64,
    /// Rows newly inserted into the queue.
    pub hydrated: u64,
    /// Lines rejected as malformed or with an invalid id.
    pub rejected: u64,
}

impl Default for IngestStats {
    fn default() -> (s: Self)
        ensures
            s == (IngestStats { lines_read: 0, hydrated: 0, rejected: 0 }),
    {
        IngestStats { lines_read: 0, hydrated: 0, rejected: 0 }
    }
}

/// A rejected line, kept for repair.
#[derive(Debug, Clone, PartialEq, Eq)]
pub struct Reject {
    pub line_no: u64,
    pub error: String,
    pub input: String,
}

/// `s` without its trailing line breaks.
pub open spec fn strip_eol(s: Seq<char>) -> Seq<char>
    decreases s.len(),
{
    if s.len() > 0 && (s.last() == '\r' || s.last() == '\n') {
        strip_eol(s.drop_last())
    } else {
        s
    }
}

/// What a line comes to.
pub enum LineView {
    /// Nothing stands on it.
    Blank,
    /// An item.
    Item(ItemView),
    /// A reject, with its reason.
    Bad(Seq<char>),
}

/// The content of a raw line, as text: its characters without the line breaks behind
/// them, or what can be shown of it where it is no UTF-8.
pub open spec fn line_text(raw: Seq<u8>) -> Seq<char> {
    strip_eol(shown(raw))
}

/// The reason for which a line that is no UTF-8 is rejected.
pub open spec fn not_utf8_text() -> Seq<char> {
    "ingest: "@ + "line is not valid UTF-8"@
}

/// What a raw line comes to.
pub open spec fn line_view(raw: Seq<u8>) -> LineView {
    let content = line_text(raw);
    if text_of(raw) is None {
        LineView::Bad(not_utf8_text())
    } else if trim(content).len() == 0 {
        LineView::Blank
    } else {
        match checked_line(json_parse(content)) {
            Ok(i) => LineView::Item(i),
            Err(e) => LineView::Bad(e),
        }
    }
}

/// The bytes of some raw lines.
pub open spec fn byte_count(lines: Seq<Seq<u8>>) -> nat
    decreases lines.len(),
{
    if lines.len() == 0 {
        0
    } else {
        byte_count(lines.drop_last()) + lines.last().len()
    }
}

/// The items among some raw lines, in order.
pub open spec fn accepted(lines: Seq<Seq<u8>>) -> Seq<ItemView>
    decreases lines.len(),
{
    if lines.len() == 0 {
        seq![]
    } else {
        match line_view(lines.last()) {
            LineView::Item(i) => accepted(lines.drop_last()).push(i),
            _ => accepted(lines.drop_last()),
        }
    }
}

/// The number of raw lines that are not blank.
pub open spec fn content_count(lines: Seq<Seq<u8>>) -> nat
    decreases lines.len(),
{
    if lines.len() == 0 {
        0
    } else {
        content_count(lines.drop_last()) + if line_view(lines.last()) is Blank {
            0nat
        } else {
            1nat
        }
    }
}

/// A reject as plain values: the line's number, the reason, and the line.
pub open spec fn reject_view(r: Reject) -> (nat, Seq<char>, Seq<char>) {
    (r.line_no as nat, r.error@, r.input@)
}

/// The values of a list of rejects.
pub open spec fn reject_views(rs: Seq<Reject>) -> Seq<(nat, Seq<char>, Seq<char>)> {
    rs.map_values(|r: Reject| reject_view(r))
}

/// The rejects among some raw lines, of which the first has the number `first + 1`.
pub open spec fn rejected(lines: Seq<Seq<u8>>, first: nat) -> Seq<(nat, Seq<char>, Seq<char>)>
    decreases lines.len(),
{
    if lines.len() == 0 {
        seq![]
    } else {
        match line_view(lines.last()) {
            LineView::Bad(e) => rejected(lines.drop_last(), first).push(
                (first + lines.len(), e, line_text(lines.last())),
            ),
            _ => rejected(lines.drop_last(), first),
        }
    }
}

/// `s` without its trailing line breaks.
pub fn strip_line_end(s: &str) -> (r: String)
    ensures
        r@ == strip_eol(s@),
{
    let cs: Vec<char> = chars_of(s);
    let mut b: usize = cs.len();
    assert(s@.take(b as int) == s@);
    while b > 0 && (cs[b - 1] == '\r' || cs[b - 1] == '\n')
        invariant
            b <= cs@.len(),
            cs@ == s@,
            strip_eol(s@.take(b as int)) == strip_eol(s@),
        decreases b,
    {
        assert(s@.take(b as int).drop_last() == s@.take(b - 1));
        assert(s@.take(b as int).last() == s@[b - 1]);
        b = b - 1;
    }
    assert(s@.take(b as int) == s@.subrange(0, b as int));
    proof {
        if b > 0 {
            assert(s@.take(b as int).last() == s@[b - 1]);
        }
    }
    string_from(cs.as_slice(), 0, b)
}

/// Where an ingest starts: at the checkpoint, unless the input is shorter than that.
pub open spec fn resume_point(hydrated: Option<(u64, u64)>, file_len: u64) -> (u64, u64) {
    match hydrated {
        Some((offset, line)) => if offset <= file_len {
            (offset, line)
        } else {
            (0, 0)
        },
        None => (0, 0),
    }
}

/// The byte offset and line number at which an ingest starts. A checkpoint past the end
/// of the input means that the input was replaced or cut: it is read again from the
/// top, which is safe since enqueueing skips known ids.
pub fn resume_from(hydrated: Option<(u64, u64)>, file_len: u64) -> (r: (u64, u64))
    ensures
        r == resume_point(hydrated, file_len),
        r.0 <= file_len,
{
    match hydrated {
        Some((offset, line)) => {
            if offset <= file_len {
                (offset, line)
            } else {
                (0, 0)
            }
        },
        None => (0, 0),
    }
}

/// What became of a line.
pub enum Taken {
    /// It was blank.
    Blank,
    /// Its item is in the batch.
    Buffered,
    /// Its item is in the batch, which is now full.
    Full,
    /// It was rejected.
    Rejected(Reject),
}

/// An ingest under way: what has been read, and the batch since the last checkpoint.
pub struct Ingest {
    lines_read: u64,
    rejects: u64,
    batch: Vec<Item>,
    line_no: u64,
    offset: u64,
    start_offset: u64,
    start_line: u64,
    since: Ghost<Seq<Seq<u8>>>,
}

impl Ingest {
    /// The raw lines since the last checkpoint.
    pub closed spec fn spec_since(self) -> Seq<Seq<u8>> {
        self.since@
    }

    /// The byte offset behind the last line read.
    pub closed spec fn spec_offset(self) -> nat {
        self.offset as nat
    }

    /// The number of the last line read.
    pub closed spec fn spec_line(self) -> nat {
        self.line_no as nat
    }

    /// The byte offset of the last checkpoint.
    pub closed spec fn spec_start_offset(self) -> nat {
        self.start_offset as nat
    }

    /// The line number of the last checkpoint.
    pub closed spec fn spec_start_line(self) -> nat {
        self.start_line as nat
    }

    /// The lines read that were not blank.
    pub closed spec fn spec_lines_read(self) -> nat {
        self.lines_read as nat
    }

    /// The lines rejected.
    pub closed spec fn spec_rejects(self) -> nat {
        self.rejects as nat
    }

    /// The items in the batch.
    pub closed spec fn spec_batch(self) -> Seq<ItemView> {
        item_views(self.batch@)
    }

    /// The batch holds every item since the last checkpoint, and the offsets say how
    /// far the lines since then reach.
    pub open spec fn wf(self) -> bool {
        &&& self.spec_batch() == accepted(self.spec_since())
        &&& self.spec_offset() == self.spec_start_offset() + byte_count(self.spec_since())
        &&& self.spec_line() == self.spec_start_line() + self.spec_since().len()
        &&& self.spec_batch().len() <= HYDRATE_BATCH
        &&& self.spec_lines_read() <= self.spec_line()
        &&& self.spec_rejects() <= self.spec_lines_read()
    }

    /// An ingest that starts at a byte offset and a line number.
    pub fn start(offset: u64, line: u64) -> (s: Self)
        ensures
            s.wf(),
            s.spec_since() == Seq::<Seq<u8>>::empty(),
            s.spec_offset() == offset,
            s.spec_line() == line,
            s.spec_start_offset() == offset,
            s.spec_start_line() == line,
            s.spec_lines_read() == 0,
            s.spec_rejects() == 0,
    {
        let s: Ingest = Ingest {
            lines_read: 0,
            rejects: 0,
            batch: Vec::new(),
            line_no: line,
            offset,
            start_offset: offset,
            start_line: line,
            since: Ghost(Seq::empty()),
        };
        assert(item_views(s.batch@) == Seq::<ItemView>::empty());
        s
    }

    /// Whether the counters have room for one more line of so many bytes.
    pub fn has_room(&self, bytes: usize) -> (r: bool)
        ensures
            r == (self.spec_offset() + bytes <= u64::MAX && self.spec_line() < u64::MAX),
    {
        self.offset as u128 + bytes as u128 <= 0xffff_ffff_ffff_ffff && self.line_no
            < 0xffff_ffff_ffff_ffff
    }

    /// Takes in one raw line, with its line break.
    pub fn line(&mut self, raw: &Vec<u8>) -> (t: Taken)
        requires
            old(self).wf(),
            old(self).spec_batch().len() < HYDRATE_BATCH,
            old(self).spec_offset() + raw@.len() <= u64::MAX,
            old(self).spec_line() < u64::MAX,
        ensures
            final(self).wf(),
            final(self).spec_since() == old(self).spec_since().push(raw@),
            final(self).spec_start_offset() == old(self).spec_start_offset(),
            final(self).spec_start_line() == old(self).spec_start_line(),
            match line_view(raw@) {
                LineView::Blank => t is Blank && final(self).spec_lines_read() == old(
                    self,
                ).spec_lines_read() && final(self).spec_rejects() == old(self).spec_rejects(),
                LineView::Item(i) => {
                    &&& t is Full || t is Buffered
                    &&& t is Full <==> final(self).spec_batch().len() == HYDRATE_BATCH
                    &&& final(self).spec_lines_read() == old(self).spec_lines_read() + 1
                    &&& final(self).spec_rejects() == old(self).spec_rejects()
                },
                LineView::Bad(e) => {
                    &&& t matches Taken::Rejected(r) && reject_view(r) == (
                        final(self).spec_line(),
                        e,
                        line_text(raw@),
                    )
                    &&& final(self).spec_lines_read() == old(self).spec_lines_read() + 1
                    &&& final(self).spec_rejects() == old(self).spec_rejects() + 1
                },
            },
            !(t is Full) ==> final(self).spec_batch().len() < HYDRATE_BATCH,
    {
        let ghost before = self.since@;
        let ghost items = self.batch@;
        let n: usize = raw.len();
        self.offset = self.offset + n as u64;
        self.line_no = self.line_no + 1;
        self.since = Ghost(before.push(raw@));
        assert(self.since@.drop_last() == before);
        let text: String = match decode(raw.as_slice()) {
            Some(t) => t,
            None => {
                self.lines_read = self.lines_read + 1;
                self.rejects = self.rejects + 1;
                let shown: String = lossy(raw.as_slice());
                return Taken::Rejected(
                    Reject {
                        line_no: self.line_no,
                        error: concat2("ingest: ", "line is not valid UTF-8"),
                        input: strip_line_end(shown.as_str()),
                    },
                );
            },
        };
        let content: String = strip_line_end(text.as_str());
        if is_blank(content.as_str()) {
            return Taken::Blank;
        }
        self.lines_read = self.lines_read + 1;
        match parse_line(content.as_str()) {
            Ok(item) => {
                self.batch.push(item);
                assert(item_views(self.batch@) == item_views(items).push(item@));
                if self.batch.len() >= HYDRATE_BATCH {
                    Taken::Full
                } else {
                    Taken::Buffered
                }
            },
            Err(e) => {
                self.rejects = self.rejects + 1;
                Taken::Rejected(
                    Reject { line_no: self.line_no, error: e.to_string(), input: content },
                )
            },
        }
    }

    /// The items since the last checkpoint, to be handed to the queue.
    pub fn batch(&self) -> (b: &Vec<Item>)
        ensures
            item_views(b@) == self.spec_batch(),
    {
        &self.batch
    }

    /// Makes a checkpoint, once the batch is durably in the queue: the range of the
    /// input whose items are all there. The next batch starts behind it.
    pub fn checkpoint(&mut self) -> (s: Shard)
        requires
            old(self).wf(),
        ensures
            final(self).wf(),
            final(self).spec_since() == Seq::<Seq<u8>>::empty(),
            final(self).spec_offset() == old(self).spec_offset(),
            final(self).spec_line() == old(self).spec_line(),
            final(self).spec_start_offset() == old(self).spec_offset(),
            final(self).spec_start_line() == old(self).spec_line(),
            final(self).spec_lines_read() == old(self).spec_lines_read(),
            final(self).spec_rejects() == old(self).spec_rejects(),
            s.shard_id == 0,
            s.byte_offset_start == old(self).spec_start_offset(),
            s.byte_offset_end == old(self).spec_offset(),
            s.line_start == old(self).spec_start_line(),
            s.line_end == old(self).spec_line(),
            s.lines_hydrated == old(self).spec_batch().len(),
    {
        let s: Shard = Shard {
            shard_id: 0,
            byte_offset_start: self.start_offset,
            byte_offset_end: self.offset,
            line_start: self.start_line,
            line_end: self.line_no,
            lines_hydrated: self.batch.len() as u64,
        };
        self.start_offset = self.offset;
        self.start_line = self.line_no;
        self.batch = Vec::new();
        self.since = Ghost(Seq::empty());
        assert(item_views(self.batch@) == Seq::<ItemView>::empty());
        s
    }

    /// The outcome, given the rows that the queue has inserted.
    pub fn stats(&self, hydrated: u64) -> (s: IngestStats)
        ensures
            s.lines_read == self.spec_lines_read(),
            s.rejected == self.spec_rejects(),
            s.hydrated == hydrated,
    {
        IngestStats { lines_read: self.lines_read, hydrated, rejected: self.rejects }
    }
}

/// Enqueueing in two parts is enqueueing the whole: the size of the batches does not
/// matter.
pub proof fn law_batches_compose(rows: Seq<ItemView>, a: Seq<ItemView>, b: Seq<ItemView>)
    ensures
        enqueued(enqueued(rows, a), b) == enqueued(rows, a + b),
    decreases b.len(),
{
    if b.len() == 0 {
        assert(a + b == a);
    } else {
        assert((a + b).drop_last() == a + b.drop_last());
        assert((a + b).last() == b.last());
        law_batches_compose(rows, a, b.drop_last());
    }
}

proof fn lemma_accepted_concat(a: Seq<Seq<u8>>, b: Seq<Seq<u8>>)
    ensures
        accepted(a + b) == accepted(a) + accepted(b),
        byte_count(a + b) == byte_count(a) + byte_count(b),
    decreases b.len(),
{
    if b.len() == 0 {
        assert(a + b == a);
        assert(accepted(a) + accepted(b) == accepted(a));
    } else {
        assert((a + b).drop_last() == a + b.drop_last());
        lemma_accepted_concat(a, b.drop_last());
        if line_view(b.last()) is Item {
            let i = line_view(b.last())->Item_0;
            assert(accepted(a) + accepted(b.drop_last()).push(i) == (accepted(a) + accepted(
                b.drop_last(),
            )).push(i));
        }
    }
}

proof fn lemma_byte_count_prefix(lines: Seq<Seq<u8>>, i: int)
    requires
        0 <= i <= lines.len(),
    ensures
        byte_count(lines.take(i)) <= byte_count(lines),
    decreases lines.len() - i,
{
    if i < lines.len() {
        lemma_byte_count_prefix(lines, i + 1);
        assert(lines.take(i + 1).drop_last() == lines.take(i));
    } else {
        assert(lines.take(i) == lines);
    }
}

proof fn lemma_counts_bounded(lines: Seq<Seq<u8>>)
    ensures
        accepted(lines).len() + rejected(lines, 0).len() == content_count(lines),
        content_count(lines) <= lines.len(),
    decreases lines.len(),
{
    if lines.len() > 0 {
        lemma_counts_bounded(lines.drop_last());
    }
}

proof fn lemma_rejected_len(lines: Seq<Seq<u8>>, a: nat, b: nat)
    ensures
        rejected(lines, a).len() == rejected(lines, b).len(),
    decreases lines.len(),
{
    if lines.len() > 0 {
        lemma_rejected_len(lines.drop_last(), a, b);
    }
}

/// An ingest that was interrupted after any number of lines, and then taken up again
/// behind them, leaves the queue as an ingest of the whole input does.
pub proof fn law_resumed_ingest_completes(rows: Seq<ItemView>, lines: Seq<Seq<u8>>, m: int)
    requires
        0 <= m <= lines.len(),
    ensures
        enqueued(enqueued(rows, accepted(lines.take(m))), accepted(lines.skip(m))) == enqueued(
            rows,
            accepted(lines),
        ),
{
    assert(lines.take(m) + lines.skip(m) == lines);
    lemma_accepted_concat(lines.take(m), lines.skip(m));
    law_batches_compose(rows, accepted(lines.take(m)), accepted(lines.skip(m)));
}

/// Reading an input again, from any line on, adds nothing once all of it is hydrated.
pub proof fn law_reingest_is_a_no_op(rows: Seq<ItemView>, lines: Seq<Seq<u8>>, m: int)
    requires
        0 <= m <= lines.len(),
    ensures
        enqueued(enqueued(rows, accepted(lines)), accepted(lines.skip(m))) == enqueued(
            rows,
            accepted(lines),
        ),
{
    let all = accepted(lines);
    let tail = accepted(lines.skip(m));
    let head = accepted(lines.take(m));
    assert(lines.take(m) + lines.skip(m) == lines);
    lemma_accepted_concat(lines.take(m), lines.skip(m));
    law_batches_compose(rows, head, tail);
    let mid = enqueued(rows, head);
    crate::queue::law_enqueue_is_idempotent(mid, tail);
}

/// Every line is blank, an item, or a reject: nothing is dropped.
pub proof fn law_no_line_is_dropped(lines: Seq<Seq<u8>>, first: nat)
    ensures
        accepted(lines).len() + rejected(lines, first).len() == content_count(lines),
        content_count(lines) <= lines.len(),
{
    lemma_counts_bounded(lines);
    lemma_rejected_len(lines, first, 0);
}

/// Hands the batch to the queue, and then records the checkpoint. Returns the rows
/// inserted.
fn flush(queue: &mut SqliteQueue, state: &mut Ingest) -> (fresh: u64)
    requires
        old(queue).wf(),
        old(state).wf(),
    ensures
        final(queue).wf(),
        final(queue).spec_rows() == enqueued(old(queue).spec_rows(), old(state).spec_batch()),
        final(queue).spec_rows().len() <= usize::MAX,
        fresh == final(queue).spec_rows().len() - old(queue).spec_rows().len(),
        final(queue).spec_coordinator() == old(queue).spec_coordinator(),
        final(queue).spec_job() == old(queue).spec_job(),
        final(queue).spec_shards() == old(queue).spec_shards().push(
            (Shard {
                shard_id: (old(queue).spec_shards().len() + 1) as u64,
                byte_offset_start: old(state).spec_start_offset() as u64,
                byte_offset_end: old(state).spec_offset() as u64,
                line_start: old(state).spec_start_line() as u64,
                line_end: old(state).spec_line() as u64,
                lines_hydrated: old(state).spec_batch().len() as u64,
            }),
        ),
        final(state).wf(),
        final(state).spec_since() == Seq::<Seq<u8>>::empty(),
        final(state).spec_batch().len() == 0,
        final(state).spec_start_offset() == old(state).spec_offset(),
        final(state).spec_start_line() == old(state).spec_line(),
        final(state).spec_lines_read() == old(state).spec_lines_read(),
        final(state).spec_rejects() == old(state).spec_rejects(),
{
    let fresh: u64 = queue.enqueue(state.batch().as_slice());
    let shard: Shard = state.checkpoint();
    queue.record_shard(&shard);
    fresh
}

/// How many of some raw lines the full batches take up.
pub open spec fn cut(lines: Seq<Seq<u8>>) -> int
    decreases lines.len(),
{
    if lines.len() == 0 {
        0
    } else {
        let c = cut(lines.drop_last());
        if accepted(lines.subrange(c, lines.len() as int)).len() >= HYDRATE_BATCH {
            lines.len() as int
        } else {
            c
        }
    }
}

/// The checkpoint of the lines `from..to` of an input whose lines start at the byte
/// offset and line number `start`.
pub open spec fn shard_at(
    lines: Seq<Seq<u8>>,
    from: int,
    to: int,
    start: (u64, u64),
    id: nat,
) -> Shard {
    Shard {
        shard_id: id as u64,
        byte_offset_start: (start.0 + byte_count(lines.take(from))) as u64,
        byte_offset_end: (start.0 + byte_count(lines.take(to))) as u64,
        line_start: (start.1 + from) as u64,
        line_end: (start.1 + to) as u64,
        lines_hydrated: accepted(lines.subrange(from, to)).len() as u64,
    }
}

/// The checkpoints with one more for each full batch among some raw lines.
pub open spec fn full_shards(
    before: Seq<Shard>,
    lines: Seq<Seq<u8>>,
    start: (u64, u64),
) -> Seq<Shard>
    decreases lines.len(),
{
    if lines.len() == 0 {
        before
    } else {
        let prev = full_shards(before, lines.drop_last(), start);
        if cut(lines) == lines.len() {
            prev.push(
                shard_at(
                    lines,
                    cut(lines.drop_last()),
                    lines.len() as int,
                    start,
                    prev.len() + 1,
                ),
            )
        } else {
            prev
        }
    }
}

/// The checkpoints after an ingest of some raw lines: one for each full batch, and one
/// for the items that are left over.
pub open spec fn shards_after(
    before: Seq<Shard>,
    lines: Seq<Seq<u8>>,
    start: (u64, u64),
) -> Seq<Shard> {
    let full = full_shards(before, lines, start);
    let c = cut(lines);
    if accepted(lines.subrange(c, lines.len() as int)).len() > 0 {
        full.push(shard_at(lines, c, lines.len() as int, start, full.len() + 1))
    } else {
        full
    }
}

/// Hydrates a queue from the raw lines of an input that start at the byte offset and
/// line number `start`: every item that they hold is enqueued, in batches with a
/// checkpoint after each, and every other line that is not blank is set aside.
pub fn ingest_jsonl_with_rejects(
    queue: &mut SqliteQueue,
    lines: &[Vec<u8>],
    start: (u64, u64),
) -> (r: (IngestStats, Vec<Reject>))
    requires
        old(queue).wf(),
        start.0 + byte_count(raw_views(lines@)) <= u64::MAX,
        start.1 + lines@.len() <= u64::MAX,
    ensures
        final(queue).wf(),
        final(queue).spec_rows() == enqueued(
            old(queue).spec_rows(),
            accepted(raw_views(lines@)),
        ),
        final(queue).spec_coordinator() == old(queue).spec_coordinator(),
        final(queue).spec_job() == old(queue).spec_job(),
        r.0.lines_read == content_count(raw_views(lines@)),
        r.0.hydrated == final(queue).spec_rows().len() - old(queue).spec_rows().len(),
        r.0.rejected == r.1@.len(),
        reject_views(r.1@) == rejected(raw_views(lines@), start.1 as nat),
        final(queue).spec_shards() == shards_after(
            old(queue).spec_shards(),
            raw_views(lines@),
            start,
        ),
{
    let ghost all = raw_views(lines@);
    let ghost rows = queue.spec_rows();
    let ghost shards = queue.spec_shards();
    let mut state: Ingest = Ingest::start(start.0, start.1);
    let mut rejects: Vec<Reject> = Vec::new();
    let mut hydrated: u64 = 0;
    let mut i: usize = 0;
    let ghost mut done: int = 0;
    let n: usize = lines.len();
    proof {
        assert(all.take(0) == Seq::<Seq<u8>>::empty());
        assert(reject_views(rejects@) == Seq::<(nat, Seq<char>, Seq<char>)>::empty());
    }
    while i < n
        invariant
            i <= n == lines@.len(),
            all == raw_views(lines@),
            0 <= done <= i,
            start.0 + byte_count(all) <= u64::MAX,
            start.1 + lines@.len() <= u64::MAX,
            rows == old(queue).spec_rows(),
            shards == old(queue).spec_shards(),
            queue.wf(),
            queue.spec_coordinator() == old(queue).spec_coordinator(),
            queue.spec_job() == old(queue).spec_job(),
            state.wf(),
            state.spec_batch().len() < HYDRATE_BATCH,
            state.spec_since() == all.subrange(done, i as int),
            state.spec_start_offset() == start.0 + byte_count(all.take(done)),
            state.spec_start_line() == start.1 + done,
            state.spec_lines_read() == content_count(all.take(i as int)),
            state.spec_rejects() == rejects@.len(),
            queue.spec_rows() == enqueued(rows, accepted(all.take(done))),
            hydrated == queue.spec_rows().len() - rows.len(),
            reject_views(rejects@) == rejected(all.take(i as int), start.1 as nat),
            done == cut(all.take(i as int)),
            queue.spec_shards() == full_shards(shards, all.take(i as int), start),
        decreases n - i,
    {
        proof {
            let next = all.take(i + 1);
            assert(next.drop_last() == all.take(i as int));
            assert(next.last() == lines@[i as int]@);
            assert(next.subrange(done, i + 1) == all.subrange(done, i + 1));
            assert(next.take(done) == all.take(done));
            assert(next.take(i + 1) == next);
            assert(all.subrange(done, i as int).push(lines@[i as int]@) == all.subrange(
                done,
                i + 1,
            ));
            lemma_byte_count_prefix(all, i + 1);
            assert(all.take(done) + all.subrange(done, i as int) == all.take(i as int));
            assert(all.take(done) + all.subrange(done, i + 1) == all.take(i + 1));
            lemma_accepted_concat(all.take(done), all.subrange(done, i as int));
            lemma_accepted_concat(all.take(done), all.subrange(done, i + 1));
        }
        let ghost prev = rejects@;
        match state.line(&lines[i]) {
            Taken::Blank => {},
            Taken::Buffered => {},
            Taken::Full => {
                let ghost part = state.spec_batch();
                let fresh: u64 = flush(queue, &mut state);
                hydrated = hydrated + fresh;
                proof {
                    law_batches_compose(rows, accepted(all.take(done)), part);
                    done = i + 1;
                    assert(all.subrange(done, i + 1) == Seq::<Seq<u8>>::empty());
                }
            },
            Taken::Rejected(r) => {
                rejects.push(r);
                assert(reject_views(rejects@) == reject_views(prev).push(reject_view(r)));
            },
        }
        i = i + 1;
    }
    proof {
        assert(all.take(n as int) == all);
        assert(all.take(done) + all.subrange(done, n as int) == all);
        lemma_accepted_concat(all.take(done), all.subrange(done, n as int));
        law_batches_compose(rows, accepted(all.take(done)), state.spec_batch());
        lemma_byte_count_prefix(all, done);
    }
    if state.batch().len() > 0 {
        let fresh: u64 = flush(queue, &mut state);
        hydrated = hydrated + fresh;
    } else {
        assert(accepted(all.subrange(done, n as int)) == Seq::<ItemView>::empty());
        assert(accepted(all.take(done)) + Seq::<ItemView>::empty() == accepted(all.take(done)));
    }
    (state.stats(hydrated), rejects)
}

/// Hydrates a queue from the raw lines of an input, without keeping the rejects.
pub fn ingest_jsonl(queue: &mut SqliteQueue, lines: &[Vec<u8>], start: (u64, u64)) -> (r: IngestStats)
    requires
        old(queue).wf(),
        start.0 + byte_count(raw_views(lines@)) <= u64::MAX,
        start.1 + lines@.len() <= u64::MAX,
    ensures
        final(queue).wf(),
        final(queue).spec_rows() == enqueued(
            old(queue).spec_rows(),
            accepted(raw_views(lines@)),
        ),
        final(queue).spec_coordinator() == old(queue).spec_coordinator(),
        final(queue).spec_job() == old(queue).spec_job(),
        final(queue).spec_shards() == shards_after(
            old(queue).spec_shards(),
            raw_views(lines@),
            start,
        ),
        r.lines_read == content_count(raw_views(lines@)),
        r.hydrated == final(queue).spec_rows().len() - old(queue).spec_rows().len(),
        r.rejected == rejected(raw_views(lines@), start.1 as nat).len(),
{
    let (stats, rejects) = ingest_jsonl_with_rejects(queue, lines, start);
    assert(reject_views(rejects@).len() == rejects@.len());
    stats
}

/// The record of a rejected line in the sidecar.
pub open spec fn reject_json(r: (nat, Seq<char>, Seq<char>)) -> JsonView {
    JsonView::Object(
        seq![
            ("error"@, JsonView::Text(r.1)),
            ("input"@, JsonView::Text(r.2)),
            ("line_no"@, JsonView::Number(NumberView::Unsigned(r.0 as u64))),
        ],
    )
}

/// The members of a reject record stand in the order of their names.
proof fn lemma_reject_canonical(r: (nat, Seq<char>, Seq<char>))
    ensures
        canonical(reject_json(r)),
{
    reveal_strlit("error");
    reveal_strlit("input");
    reveal_strlit("line_no");
    reveal_with_fuel(canonical, 2);
    let m = reject_json(r)->Object_0;
    assert("error"@[0] == 'e' && "input"@[0] == 'i' && "line_no"@[0] == 'l');
    assert(names_ascend(m));
}

/// The sidecar line of a rejected line: its number, the reason, and the line as it was.
pub fn reject_record(r: &Reject) -> (text: String)
    ensures
        text@ == json_text(reject_json(reject_view(*r))),
        !text@.contains('\n'),
{
    let members: Vec<(String, Json)> = vec![
        ("error".to_owned(), Json::Text(r.error.clone())),
        ("input".to_owned(), Json::Text(r.input.clone())),
        ("line_no".to_owned(), Json::Number(Number::Unsigned(r.line_no))),
    ];
    proof {
        lemma_object_view(members);
        assert(members_view(members@) == reject_json(reject_view(*r))->Object_0);
        lemma_reject_canonical(reject_view(*r));
    }
    render_json(&Json::Object(members))
}

/// A line loses its line break and nothing else.
pub proof fn law_only_line_breaks_are_stripped(s: &str, r: String)
    requires
        call_ensures(strip_line_end, (s,), r),
    ensures
        r@.len() <= s@.len(),
        s@.take(r@.len() as int) == r@,
        forall|i: int| r@.len() <= i < s@.len() ==> (#[trigger] s@[i]) == '\r' || s@[i] == '\n',
        r@.len() > 0 ==> r@.last() != '\r' && r@.last() != '\n',
{
    lemma_strip_eol(s@);
}

proof fn lemma_strip_eol(s: Seq<char>)
    ensures
        strip_eol(s).len() <= s.len(),
        s.take(strip_eol(s).len() as int) == strip_eol(s),
        forall|i: int|
            strip_eol(s).len() <= i < s.len() ==> (#[trigger] s[i]) == '\r' || s[i] == '\n',
        strip_eol(s).len() > 0 ==> strip_eol(s).last() != '\r' && strip_eol(s).last() != '\n',
    decreases s.len(),
{
    if s.len() > 0 && (s.last() == '\r' || s.last() == '\n') {
        let init = s.drop_last();
        lemma_strip_eol(init);
        let n = strip_eol(s).len() as int;
        assert(s.take(n) =~= init.take(n));
        assert forall|i: int| n <= i < s.len() implies (#[trigger] s[i]) == '\r' || s[i] == '\n' by {
            if i < init.len() {
                assert(init[i] == s[i]);
            }
        }
    } else {
        assert(s.take(s.len() as int) =~= s);
    }
}

/// An ingest starts where the last one got to, unless the input has become shorter than
/// that; then it starts at the top.
pub proof fn law_ingests_start_where_the_last_one_got_to(
    hydrated: Option<(u64, u64)>,
    file_len: u64,
    r: (u64, u64),
)
    requires
        call_ensures(resume_from, (hydrated, file_len), r),
    ensures
        hydrated matches Some(m) ==> m.0 <= file_len ==> r == m,
        hydrated matches Some(m) ==> m.0 > file_len ==> r == (0u64, 0u64),
        hydrated is None ==> r == (0u64, 0u64),
{
}

/// What a raw line comes to follows from its text alone: a text that can be read as an item
/// is that item, blank text is nothing, and all else is a reject.
pub proof fn law_lines_come_to_what_they_say(
    raw: Seq<u8>,
    content: &str,
    r: Result<Item, crate::error::ForgeError>,
)
    requires
        text_of(raw) is Some,
        content@ == strip_eol(text_of(raw)->0),
        call_ensures(parse_line, (content,), r),
    ensures
        trim(content@).len() == 0 ==> line_view(raw) is Blank,
        trim(content@).len() > 0 ==> (r matches Ok(item) ==> line_view(raw) == LineView::Item(
            item@,
        )),
        trim(content@).len() > 0 ==> (r matches Err(e) ==> line_view(raw) == LineView::Bad(
            crate::error::error_text(e),
        )),
{
}

proof fn lemma_accepted_at(lines: Seq<Seq<u8>>, i: int)
    requires
        0 <= i < lines.len(),
        line_view(lines[i]) is Item,
    ensures
        accepted(lines.take(i)).len() < accepted(lines).len(),
        accepted(lines)[accepted(lines.take(i)).len() as int] == line_view(lines[i])->Item_0,
        accepted(lines).take(accepted(lines.take(i)).len() as int) == accepted(lines.take(i)),
{
    let a = lines.take(i);
    let b = lines.take(i + 1);
    assert(b.drop_last() =~= a);
    assert(b.last() == lines[i]);
    let rest = lines.skip(i + 1);
    assert(b + rest =~= lines);
    lemma_accepted_concat(b, rest);
    assert(accepted(lines).take(accepted(a).len() as int) =~= accepted(a));
}

proof fn lemma_accepted_from(lines: Seq<Seq<u8>>, k: int)
    requires
        0 <= k < accepted(lines).len(),
    ensures
        exists|i: int|
            0 <= i < lines.len() && line_view(#[trigger] lines[i]) == LineView::Item(
                accepted(lines)[k],
            ),
    decreases lines.len(),
{
    let init = lines.drop_last();
    if k < accepted(init).len() {
        lemma_accepted_from(init, k);
        let i = choose|i: int|
            0 <= i < init.len() && line_view(#[trigger] init[i]) == LineView::Item(
                accepted(init)[k],
            );
        assert(lines[i] == init[i]);
    } else {
        assert(line_view(lines[lines.len() - 1]) == LineView::Item(accepted(lines)[k]));
    }
}

/// Every request of an input is in the queue after its ingest as the line gives it: an item
/// whose id is new to the queue, and on no line before, has a row with its id, method, path
/// and payload, pending and never tried. No row that was there is touched.
pub proof fn law_every_request_is_hydrated(
    before: SqliteQueue,
    after: SqliteQueue,
    lines: &[Vec<u8>],
    start: (u64, u64),
    r: (IngestStats, Vec<Reject>),
    i: int,
    item: ItemView,
)
    requires
        before.wf(),
        exists|q: &mut SqliteQueue|
            *q == before && *final(q) == after && #[trigger] call_ensures(
                ingest_jsonl_with_rejects,
                (q, lines, start),
                r,
            ),
        0 <= i < lines@.len(),
        line_view(lines@[i]@) == LineView::Item(item),
        forall|k: int|
            0 <= k < before.spec_rows().len() ==> (#[trigger] before.spec_rows()[k]).custom_id
                != item.custom_id,
        forall|k: int|
            0 <= k < i ==> !(line_view((#[trigger] lines@[k])@) is Item && line_view(
                lines@[k]@,
            )->Item_0.custom_id == item.custom_id),
    ensures
        after.spec_rows().take(before.spec_rows().len() as int) == before.spec_rows(),
        exists|k: int|
            before.spec_rows().len() <= k < after.spec_rows().len() && {
                let row = #[trigger] after.spec_rows()[k];
                &&& row.custom_id == item.custom_id
                &&& row.method == item.method
                &&& row.url == item.url
                &&& row.body == item.body
                &&& row.status == crate::state::ItemState::Pending
                &&& row.attempts == 0
                &&& row.leased_by is None
                &&& row.leased_until is None
            },
        r.0.hydrated == after.spec_rows().len() - before.spec_rows().len(),
{
    let all = raw_views(lines@);
    let rows = before.spec_rows();
    let items = accepted(all);
    assert(all[i] == lines@[i]@);
    lemma_accepted_at(all, i);
    let j = accepted(all.take(i)).len() as int;
    assert(items[j] == item);
    assert forall|k: int| 0 <= k < j implies (#[trigger] items[k]).custom_id != items[j].custom_id by {
        let head = accepted(all.take(i));
        assert(items.take(j)[k] == head[k]);
        lemma_accepted_from(all.take(i), k);
        let m = choose|m: int|
            0 <= m < all.take(i).len() && line_view(#[trigger] all.take(i)[m]) == LineView::Item(
                head[k],
            );
        assert(all.take(i)[m] == lines@[m]@);
    }
    crate::queue::law_enqueue_keeps_the_request(rows, items, j);
    crate::queue::law_enqueue_keeps_progress(rows, items);
    let k = choose|k: int|
        rows.len() <= k < enqueued(rows, items).len() && {
            let row = #[trigger] enqueued(rows, items)[k];
            &&& row.custom_id == items[j].custom_id
            &&& row.method == items[j].method
            &&& row.url == items[j].url
            &&& row.body == items[j].body
            &&& row.status == crate::state::ItemState::Pending
            &&& row.attempts == 0
            &&& row.leased_until is None
            &&& row.leased_by is None
            &&& row.last_error is None
        };
    assert(after.spec_rows()[k].custom_id == item.custom_id);
}

proof fn lemma_rejected_at(lines: Seq<Seq<u8>>, first: nat, i: int)
    requires
        0 <= i < lines.len(),
        line_view(lines[i]) is Bad,
    ensures
        rejected(lines, first).contains(
            ((first + i + 1) as nat, line_view(lines[i])->Bad_0, line_text(lines[i])),
        ),
    decreases lines.len(),
{
    let init = lines.drop_last();
    let x = ((first + i + 1) as nat, line_view(lines[i])->Bad_0, line_text(lines[i]));
    let all = rejected(lines, first);
    if i < lines.len() - 1 {
        assert(init[i] == lines[i]);
        lemma_rejected_at(init, first, i);
        let k = choose|k: int|
            0 <= k < rejected(init, first).len() && rejected(init, first)[k] == x;
        assert(all[k] == x);
    } else {
        assert(all[all.len() - 1] == x);
    }
}

/// Every line that is neither blank nor an item is set aside under its number in the file,
/// with the reason and the line itself; what is read is an item or set aside.
pub proof fn law_every_bad_line_is_set_aside(
    before: SqliteQueue,
    after: SqliteQueue,
    lines: &[Vec<u8>],
    start: (u64, u64),
    r: (IngestStats, Vec<Reject>),
    i: int,
)
    requires
        before.wf(),
        exists|q: &mut SqliteQueue|
            *q == before && *final(q) == after && #[trigger] call_ensures(
                ingest_jsonl_with_rejects,
                (q, lines, start),
                r,
            ),
        0 <= i < lines@.len(),
        line_view(lines@[i]@) is Bad,
    ensures
        r.0.rejected == r.1@.len(),
        exists|k: int|
            0 <= k < r.1@.len() && (#[trigger] r.1@[k]).line_no == start.1 + i + 1 && r.1@[k].error@
                == line_view(lines@[i]@)->Bad_0 && (text_of(lines@[i]@) matches Some(t)
                ==> r.1@[k].input@ == strip_eol(t)),
{
    let all = raw_views(lines@);
    assert(all[i] == lines@[i]@);
    lemma_rejected_at(all, start.1 as nat, i);
    let x = ((start.1 + i + 1) as nat, line_view(all[i])->Bad_0, line_text(all[i]));
    let views = reject_views(r.1@);
    let k = choose|k: int| 0 <= k < views.len() && views[k] == x;
    assert(views[k] == reject_view(r.1@[k]));
    assert(r.1@[k].line_no == start.1 + i + 1);
}

/// Each line that is read is taken in or set aside, and blank lines are not read; nothing is
/// counted twice.
pub proof fn law_read_lines_are_items_or_rejects(
    before: SqliteQueue,
    after: SqliteQueue,
    lines: &[Vec<u8>],
    start: (u64, u64),
    r: (IngestStats, Vec<Reject>),
)
    requires
        before.wf(),
        exists|q: &mut SqliteQueue|
            *q == before && *final(q) == after && #[trigger] call_ensures(
                ingest_jsonl_with_rejects,
                (q, lines, start),
                r,
            ),
    ensures
        r.0.lines_read == accepted(raw_views(lines@)).len() + r.0.rejected,
        r.0.lines_read == raw_views(lines@).filter(|l: Seq<u8>| !(line_view(l) is Blank)).len(),
        accepted(raw_views(lines@)).len() == raw_views(lines@).filter(
            |l: Seq<u8>| line_view(l) is Item,
        ).len(),
{
    let all = raw_views(lines@);
    law_no_line_is_dropped(all, start.1 as nat);
    lemma_line_counts(all);
    assert(reject_views(r.1@).len() == r.1@.len());
}

proof fn lemma_line_counts(lines: Seq<Seq<u8>>)
    ensures
        content_count(lines) == lines.filter(|l: Seq<u8>| !(line_view(l) is Blank)).len(),
        accepted(lines).len() == lines.filter(|l: Seq<u8>| line_view(l) is Item).len(),
    decreases lines.len(),
{
    reveal(Seq::filter);
    if lines.len() > 0 {
        lemma_line_counts(lines.drop_last());
    }
}

/// An input whose last line is an item is marked as hydrated to its very end, in bytes and
/// in lines.
pub proof fn law_ingests_mark_how_far_they_got(
    before: SqliteQueue,
    after: SqliteQueue,
    lines: &[Vec<u8>],
    start: (u64, u64),
    r: (IngestStats, Vec<Reject>),
)
    requires
        before.wf(),
        exists|q: &mut SqliteQueue|
            *q == before && *final(q) == after && #[trigger] call_ensures(
                ingest_jsonl_with_rejects,
                (q, lines, start),
                r,
            ),
        start.0 + byte_count(raw_views(lines@)) <= u64::MAX,
        start.1 + lines@.len() <= u64::MAX,
        lines@.len() > 0,
        line_view(lines@.last()@) is Item,
    ensures
        after.spec_shards().len() > before.spec_shards().len(),
        after.spec_shards().last().byte_offset_end == start.0 + byte_count(raw_views(lines@)),
        after.spec_shards().last().line_end == start.1 + lines@.len(),
{
    let all = raw_views(lines@);
    let n = all.len() as int;
    let c = cut(all);
    assert(all.take(n) =~= all);
    assert(all.last() == lines@.last()@);
    lemma_cut_bound(all);
    lemma_full_shards_grow(before.spec_shards(), all, start);
    if c < n {
        let tail = all.subrange(c, n);
        assert(tail.last() == all.last());
        assert(accepted(tail).len() > 0);
    } else {
        assert(all.subrange(c, n) =~= Seq::<Seq<u8>>::empty());
        assert(accepted(all.subrange(c, n)).len() == 0);
        lemma_full_shards_grow(before.spec_shards(), all.drop_last(), start);
    }
}

proof fn lemma_cut_bound(lines: Seq<Seq<u8>>)
    ensures
        0 <= cut(lines) <= lines.len(),
    decreases lines.len(),
{
    if lines.len() > 0 {
        lemma_cut_bound(lines.drop_last());
    }
}

proof fn lemma_full_shards_grow(before: Seq<Shard>, lines: Seq<Seq<u8>>, start: (u64, u64))
    ensures
        full_shards(before, lines, start).len() >= before.len(),
    decreases lines.len(),
{
    if lines.len() > 0 {
        lemma_full_shards_grow(before, lines.drop_last(), start);
    }
}

/// A rejected line is written field by field: its number, the reason and the line.
pub proof fn law_rejects_are_written_by_name(r: &Reject, text: String)
    requires
        call_ensures(reject_record, (r,), text),
    ensures
        exists|j: JsonView|
            text@ == #[trigger] json_text(j) && j.u64_at("line_no"@) == Some(r.line_no) && j.str_at(
                "error"@,
            ) == Some(r.error@) && j.str_at("input"@) == Some(r.input@),
{
    reveal_strlit("error");
    reveal_strlit("input");
    reveal_strlit("line_no");
    let j = reject_json(reject_view(*r));
    let m = j->Object_0;
    assert("error"@[0] == 'e' && "input"@[0] == 'i' && "line_no"@[0] == 'l');
    reveal_with_fuel(crate::json::member, 4);
    assert(m.skip(1)[0] == m[1] && m.skip(1).skip(1)[0] == m[2]);
    assert(text@ == json_text(j));
}

/// An ingest that keeps no list of what it sets aside does the same to the queue, and
/// counts the same, as one that does.
pub proof fn law_ingests_agree(
    before: SqliteQueue,
    after: SqliteQueue,
    other: SqliteQueue,
    lines: &[Vec<u8>],
    start: (u64, u64),
    r: IngestStats,
    full: (IngestStats, Vec<Reject>),
)
    requires
        exists|q: &mut SqliteQueue|
            *q == before && *final(q) == after && #[trigger] call_ensures(
                ingest_jsonl,
                (q, lines, start),
                r,
            ),
        exists|q: &mut SqliteQueue|
            *q == before && *final(q) == other && #[trigger] call_ensures(
                ingest_jsonl_with_rejects,
                (q, lines, start),
                full,
            ),
    ensures
        after.spec_rows() == other.spec_rows(),
        after.spec_shards() == other.spec_shards(),
        after.spec_job() == other.spec_job(),
        r.lines_read == full.0.lines_read,
        r.hydrated == full.0.hydrated,
        r.rejected == full.0.rejected && r.rejected == full.1@.len(),
{
    assert(reject_views(full.1@).len() == full.1@.len());
}

/// A line that is taken in moves the ingest on by its bytes and one line. A request joins
/// the batch behind those that are there, blank text does nothing, and all else is set
/// aside under the number of the line.
pub proof fn law_lines_are_taken_in_turn(
    before: Ingest,
    after: Ingest,
    raw: &Vec<u8>,
    t: Taken,
    text: Seq<char>,
    content: &str,
    r: Result<Item, crate::error::ForgeError>,
)
    requires
        before.wf(),
        exists|m: &mut Ingest|
            *m == before && *final(m) == after && #[trigger] call_ensures(Ingest::line, (m, raw), t),
        text_of(raw@) == Some(text),
        content@ == strip_eol(text),
        call_ensures(parse_line, (content,), r),
    ensures
        after.spec_offset() == before.spec_offset() + raw@.len(),
        after.spec_line() == before.spec_line() + 1,
        trim(content@).len() == 0 ==> t is Blank && after.spec_batch() == before.spec_batch()
            && after.spec_lines_read() == before.spec_lines_read() && after.spec_rejects()
            == before.spec_rejects(),
        trim(content@).len() > 0 ==> after.spec_lines_read() == before.spec_lines_read() + 1,
        trim(content@).len() > 0 && r is Ok ==> (t is Buffered || t is Full)
            && after.spec_batch() == before.spec_batch().push(r->Ok_0@) && after.spec_rejects()
            == before.spec_rejects(),
        trim(content@).len() > 0 && r is Err ==> after.spec_batch() == before.spec_batch()
            && after.spec_rejects() == before.spec_rejects() + 1 && (t matches Taken::Rejected(x)
            && x.line_no == before.spec_line() + 1 && x.input@ == content@ && x.error@
            == crate::error::error_text(r->Err_0)),
        t is Full ==> after.spec_batch().len() == 1000,
{
    let all = after.spec_since();
    assert(all.drop_last() == before.spec_since());
}


/// Fewer items than a full batch are marked once, from where the ingest started to its end,
/// with their number; no items are not marked at all.
pub proof fn law_small_inputs_are_marked_once(
    before: SqliteQueue,
    after: SqliteQueue,
    lines: &[Vec<u8>],
    start: (u64, u64),
    r: (IngestStats, Vec<Reject>),
    n: nat,
)
    requires
        before.wf(),
        exists|q: &mut SqliteQueue|
            *q == before && *final(q) == after && #[trigger] call_ensures(
                ingest_jsonl_with_rejects,
                (q, lines, start),
                r,
            ),
        start.0 + byte_count(raw_views(lines@)) <= u64::MAX,
        start.1 + lines@.len() <= u64::MAX,
        before.spec_shards().len() < u64::MAX,
        n == raw_views(lines@).filter(|l: Seq<u8>| line_view(l) is Item).len(),
        n < 1000,
    ensures
        n == 0 ==> after.spec_shards() == before.spec_shards(),
        n > 0 ==> ({
            let s = after.spec_shards().last();
            &&& after.spec_shards().len() == before.spec_shards().len() + 1
            &&& after.spec_shards().drop_last() == before.spec_shards()
            &&& s.byte_offset_start == start.0
            &&& s.byte_offset_end == start.0 + byte_count(raw_views(lines@))
            &&& s.line_start == start.1
            &&& s.line_end == start.1 + lines@.len()
            &&& s.lines_hydrated == n
            &&& s.shard_id == before.spec_shards().len() + 1
        }),
{
    let all = raw_views(lines@);
    lemma_line_counts(all);
    lemma_no_full_batch(before.spec_shards(), all, start);
    assert(all.subrange(0, all.len() as int) == all);
    assert(all.take(all.len() as int) == all);
    assert(all.take(0) == Seq::<Seq<u8>>::empty());
    if n > 0 {
        assert(after.spec_shards().drop_last() == before.spec_shards());
    }
}

proof fn lemma_no_full_batch(before: Seq<Shard>, lines: Seq<Seq<u8>>, start: (u64, u64))
    requires
        accepted(lines).len() < HYDRATE_BATCH,
    ensures
        cut(lines) == 0,
        full_shards(before, lines, start) == before,
    decreases lines.len(),
{
    if lines.len() > 0 {
        let init = lines.drop_last();
        lemma_no_full_batch(before, init, start);
        assert(lines.subrange(0, lines.len() as int) == lines);
    }
}


} // verus!

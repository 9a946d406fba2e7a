//! Results as columns: the rows buffered for a columnar file.
//!
//! One row per `custom_id`. A result adds one value to every column, and a full buffer is
//! handed out as one row group, so that no more than a row group is ever held.

use vstd::prelude::*;

use crate::error::{error_text, ForgeError};
use crate::id_set::IdSet;
use crate::import::{lemma_get_canonical, lemma_member_canonical};
use crate::json::{
    as_record, canonical, json_parse, json_text, parse_json, render_json, Json, JsonView,
};
use crate::result::{
    body_is_canonical, response_names, result_names, result_of, result_of_json, ResultView,
};
use crate::paths::{same_file, same_target};
use crate::text::{concat3, is_blank, opt_str_view, opt_view, trim, views};
use crate::types::ItemResult;

verus! {

/// Rows buffered before a row group is cut, by default.
pub const ROW_GROUP_ROWS: usize = 50_000;

/// Tunables for columnar writing.
#[derive(Debug, Clone, Copy, PartialEq, Eq)]
pub struct ParquetOpts {
    /// Rows buffered before a row group is cut.
    pub row_group_rows: usize,
}

impl Default for ParquetOpts {
    fn default() -> (o: Self)
        ensures
            o.row_group_rows == ROW_GROUP_ROWS,
    {
        ParquetOpts { row_group_rows: ROW_GROUP_ROWS }
    }
}

/// One row of the file. A dead letter has no status and no body; a success has no error.
#[verifier::ext_equal]
pub struct RowView {
    pub custom_id: Seq<char>,
    pub status_code: Option<i32>,
    pub body_json: Option<Seq<char>>,
    pub error_code: Option<Seq<char>>,
    pub error_message: Option<Seq<char>>,
    pub prompt_tokens: i64,
    pub completion_tokens: i64,
    pub total_tokens: i64,
    pub worker_id: Seq<char>,
    pub latency_ms: i64,
    pub attempt: i64,
    pub completed_at: i64,
}

/// A count as a signed column holds it: the same bits.
pub open spec fn signed(n: u64) -> i64 {
    if n <= i64::MAX {
        n as i64
    } else {
        (n - 0x1_0000_0000_0000_0000) as i64
    }
}

/// The row of a result.
pub open spec fn row_of(r: ResultView) -> RowView {
    RowView {
        custom_id: r.custom_id,
        status_code: match r.response {
            Some(x) => Some(x.status_code as i32),
            None => None,
        },
        body_json: match r.response {
            Some(x) => Some(json_text(x.body)),
            None => None,
        },
        error_code: match r.error {
            Some(e) => Some(e.0),
            None => None,
        },
        error_message: match r.error {
            Some(e) => Some(e.1),
            None => None,
        },
        prompt_tokens: signed(r.usage.prompt_tokens),
        completion_tokens: signed(r.usage.completion_tokens),
        total_tokens: signed(r.usage.total_tokens),
        worker_id: r.worker_id,
        latency_ms: signed(r.latency_ms),
        attempt: r.attempt as i64,
        completed_at: r.completed_at,
    }
}

/// The fields of a record are canonical where the value that it was read from is.
proof fn lemma_field_canonical(j: JsonView, names: Seq<Seq<char>>, least: nat, key: Seq<char>)
    requires
        canonical(j),
    ensures
        as_record(j, names, least).get(key) matches Some(x) ==> canonical(x),
{
    if let JsonView::Array(items) = j {
        if least <= items.len() <= names.len() {
            let members = as_record(j, names, least)->Object_0;
            assert forall|i: int| 0 <= i < members.len() implies canonical(
                (#[trigger] members[i]).1,
            ) by {
                assert(canonical(items[i]));
            }
            lemma_member_canonical(members, key);
        }
    } else {
        lemma_get_canonical(j, key);
    }
}

/// A result that was read has a canonical body.
proof fn lemma_read_body_is_canonical(j: JsonView)
    requires
        canonical(j),
        result_of(j) is Some,
    ensures
        body_is_canonical(result_of(j)->0),
{
    lemma_field_canonical(j, result_names(), 8, "response"@);
    if let Some(v) = as_record(j, result_names(), 8).get("response"@) {
        lemma_field_canonical(v, response_names(), 3, "body"@);
    }
}

fn to_signed(n: u64) -> (r: i64)
    ensures
        r == signed(n),
{
    if n <= 0x7fff_ffff_ffff_ffff {
        n as i64
    } else {
        -((0xffff_ffff_ffff_ffff - n) as i64) - 1
    }
}

/// What a column holds.
#[derive(Debug, Clone, Copy, PartialEq, Eq, Structural)]
pub enum ColumnType {
    Text,
    Int32,
    Int64,
}

/// One column of the file.
#[derive(Debug, Clone, Copy, PartialEq, Eq)]
pub struct Column {
    pub name: &'static str,
    pub kind: ColumnType,
    pub nullable: bool,
}

/// The columns of the file, with what each holds and whether it may be empty.
pub open spec fn schema() -> Seq<(Seq<char>, ColumnType, bool)> {
    seq![
        ("custom_id"@, ColumnType::Text, false),
        ("status_code"@, ColumnType::Int32, true),
        ("body_json"@, ColumnType::Text, true),
        ("error_code"@, ColumnType::Text, true),
        ("error_message"@, ColumnType::Text, true),
        ("prompt_tokens"@, ColumnType::Int64, false),
        ("completion_tokens"@, ColumnType::Int64, false),
        ("total_tokens"@, ColumnType::Int64, false),
        ("worker_id"@, ColumnType::Text, false),
        ("latency_ms"@, ColumnType::Int64, false),
        ("attempt"@, ColumnType::Int64, false),
        ("completed_at"@, ColumnType::Int64, false),
    ]
}

fn column(name: &'static str, kind: ColumnType, nullable: bool) -> (c: Column)
    ensures
        c.name@ == name@ && c.kind == kind && c.nullable == nullable,
{
    Column { name, kind, nullable }
}

/// The columns of the file, in order: one row per `custom_id`.
pub fn forge_schema() -> (r: Vec<Column>)
    ensures
        r@.map_values(|c: Column| (c.name@, c.kind, c.nullable)) == schema(),
{
    let r: Vec<Column> = vec![
        column("custom_id", ColumnType::Text, false),
        column("status_code", ColumnType::Int32, true),
        column("body_json", ColumnType::Text, true),
        column("error_code", ColumnType::Text, true),
        column("error_message", ColumnType::Text, true),
        column("prompt_tokens", ColumnType::Int64, false),
        column("completion_tokens", ColumnType::Int64, false),
        column("total_tokens", ColumnType::Int64, false),
        column("worker_id", ColumnType::Text, false),
        column("latency_ms", ColumnType::Int64, false),
        column("attempt", ColumnType::Int64, false),
        column("completed_at", ColumnType::Int64, false),
    ];
    assert(r@.map_values(|c: Column| (c.name@, c.kind, c.nullable)) == schema());
    r
}

/// The columns of buffered rows.
pub struct RowBuffer {
    pub custom_id: Vec<String>,
    pub status_code: Vec<Option<i32>>,
    pub body_json: Vec<Option<String>>,
    pub error_code: Vec<Option<String>>,
    pub error_message: Vec<Option<String>>,
    pub prompt_tokens: Vec<i64>,
    pub completion_tokens: Vec<i64>,
    pub total_tokens: Vec<i64>,
    pub worker_id: Vec<String>,
    pub latency_ms: Vec<i64>,
    pub attempt: Vec<i64>,
    pub completed_at: Vec<i64>,
}

impl RowBuffer {
    /// All columns are equally long.
    pub open spec fn wf(self) -> bool {
        let n = self.custom_id@.len();
        &&& self.status_code@.len() == n
        &&& self.body_json@.len() == n
        &&& self.error_code@.len() == n
        &&& self.error_message@.len() == n
        &&& self.prompt_tokens@.len() == n
        &&& self.completion_tokens@.len() == n
        &&& self.total_tokens@.len() == n
        &&& self.worker_id@.len() == n
        &&& self.latency_ms@.len() == n
        &&& self.attempt@.len() == n
        &&& self.completed_at@.len() == n
    }

    /// The row at a position.
    pub open spec fn row(self, i: int) -> RowView {
        RowView {
            custom_id: self.custom_id@[i]@,
            status_code: self.status_code@[i],
            body_json: opt_view(self.body_json@[i]),
            error_code: opt_view(self.error_code@[i]),
            error_message: opt_view(self.error_message@[i]),
            prompt_tokens: self.prompt_tokens@[i],
            completion_tokens: self.completion_tokens@[i],
            total_tokens: self.total_tokens@[i],
            worker_id: self.worker_id@[i]@,
            latency_ms: self.latency_ms@[i],
            attempt: self.attempt@[i],
            completed_at: self.completed_at@[i],
        }
    }

    /// The rows.
    pub open spec fn rows(self) -> Seq<RowView> {
        Seq::new(self.custom_id@.len(), |i: int| self.row(i))
    }

    /// No rows.
    pub fn new() -> (b: Self)
        ensures
            b.wf(),
            b.rows() == Seq::<RowView>::empty(),
    {
        RowBuffer {
            custom_id: Vec::new(),
            status_code: Vec::new(),
            body_json: Vec::new(),
            error_code: Vec::new(),
            error_message: Vec::new(),
            prompt_tokens: Vec::new(),
            completion_tokens: Vec::new(),
            total_tokens: Vec::new(),
            worker_id: Vec::new(),
            latency_ms: Vec::new(),
            attempt: Vec::new(),
            completed_at: Vec::new(),
        }
    }

    /// How many rows there are.
    pub fn len(&self) -> (n: usize)
        ensures
            n == self.rows().len(),
    {
        self.custom_id.len()
    }

    /// Adds the row of a result.
    pub fn push(&mut self, r: &ItemResult)
        requires
            old(self).wf(),
            body_is_canonical(r@),
        ensures
            final(self).wf(),
            final(self).rows() == old(self).rows().push(row_of(r@)),
    {
        let ghost before = *self;
        let (status, body): (Option<i32>, Option<String>) = match &r.response {
            Some(x) => (Some(x.status_code as i32), Some(render_json(&x.body))),
            None => (None, None),
        };
        let (code, message): (Option<String>, Option<String>) = match &r.error {
            Some(e) => (
                Some(e.code.as_str().to_owned()),
                Some(e.message.as_str().to_owned()),
            ),
            None => (None, None),
        };
        self.custom_id.push(r.custom_id.as_str().to_owned());
        self.status_code.push(status);
        self.body_json.push(body);
        self.error_code.push(code);
        self.error_message.push(message);
        self.prompt_tokens.push(to_signed(r.usage.prompt_tokens));
        self.completion_tokens.push(to_signed(r.usage.completion_tokens));
        self.total_tokens.push(to_signed(r.usage.total_tokens));
        self.worker_id.push(r.worker_id.as_str().to_owned());
        self.latency_ms.push(to_signed(r.latency_ms));
        self.attempt.push(r.attempt as i64);
        self.completed_at.push(r.completed_at);
        proof {
            let n = before.rows().len() as int;
            assert(self.row(n) == row_of(r@));
            assert forall|i: int| 0 <= i < n implies self.row(i) == before.row(i) by {}
            assert(self.rows() == before.rows().push(row_of(r@)));
        }
    }

    /// Hands out all rows.
    pub fn drain(&mut self) -> (out: RowBuffer)
        requires
            old(self).wf(),
        ensures
            out.wf(),
            out.rows() == old(self).rows(),
            final(self).wf(),
            final(self).rows() == Seq::<RowView>::empty(),
    {
        let mut out: RowBuffer = RowBuffer::new();
        std::mem::swap(&mut out, self);
        out
    }
}

/// Why a file is not exported onto itself.
pub open spec fn onto_itself_text(input: Seq<char>) -> Seq<char> {
    "store: "@ + ("refusing to export "@ + input
        + " onto itself (input and out are the same file)"@)
}

/// Refuses to export a file onto itself, which would truncate it before it is read.
pub fn check_export(
    input: &str,
    out: &str,
    resolved_input: Option<&str>,
    resolved_out: Option<&str>,
) -> (r: Result<(), ForgeError>)
    ensures
        match r {
            Ok(_) => !same_target(
                input@,
                out@,
                opt_str_view(resolved_input),
                opt_str_view(resolved_out),
            ),
            Err(e) => same_target(
                input@,
                out@,
                opt_str_view(resolved_input),
                opt_str_view(resolved_out),
            ) && error_text(e) == onto_itself_text(input@),
        },
{
    if same_file(input, out, resolved_input, resolved_out) {
        return Err(
            ForgeError::Store(
                concat3(
                    "refusing to export ",
                    input,
                    " onto itself (input and out are the same file)",
                ),
            ),
        );
    }
    Ok(())
}

/// The result on a line, if it holds one.
pub open spec fn result_in(parsed: Option<JsonView>) -> Option<ResultView> {
    match parsed {
        Some(v) => result_of(v),
        None => None,
    }
}

/// The row of a line; nothing for a blank or torn one.
pub open spec fn line_row(line: Seq<char>) -> Option<RowView> {
    if trim(line).len() == 0 {
        None
    } else {
        match result_in(json_parse(line).ok()) {
            Some(r) => Some(row_of(r)),
            None => None,
        }
    }
}

/// The rows of lines, in order.
pub open spec fn rows_of(lines: Seq<Seq<char>>) -> Seq<RowView>
    decreases lines.len(),
{
    if lines.len() == 0 {
        Seq::empty()
    } else {
        let init = rows_of(lines.drop_last());
        match line_row(lines.last()) {
            Some(row) => init.push(row),
            None => init,
        }
    }
}

/// An export in progress.
pub struct Export {
    buf: RowBuffer,
    rows: u64,
    row_group_rows: usize,
}

impl Export {
    /// The rows that wait.
    pub closed spec fn spec_waiting(self) -> Seq<RowView> {
        self.buf.rows()
    }

    /// The rows counted.
    pub closed spec fn spec_rows(self) -> nat {
        self.rows as nat
    }

    /// The rows of a row group.
    pub closed spec fn spec_group(self) -> nat {
        self.row_group_rows as nat
    }

    /// The buffer is well-formed.
    pub closed spec fn wf(self) -> bool {
        self.buf.wf()
    }

    /// An export at its start.
    pub fn start(opts: &ParquetOpts) -> (e: Self)
        ensures
            e.wf(),
            e.spec_waiting() == Seq::<RowView>::empty(),
            e.spec_rows() == 0,
            e.spec_group() == opts.row_group_rows,
    {
        Export { buf: RowBuffer::new(), rows: 0, row_group_rows: opts.row_group_rows }
    }

    /// The rows counted.
    pub fn rows(&self) -> (n: u64)
        ensures
            n == self.spec_rows(),
    {
        self.rows
    }

    /// Takes a line. Hands out a row group once enough rows wait.
    pub fn line(&mut self, line: &str) -> (group: Option<RowBuffer>)
        requires
            old(self).wf(),
            old(self).spec_rows() < u64::MAX,
        ensures
            final(self).wf(),
            final(self).spec_group() == old(self).spec_group(),
            match line_row(line@) {
                Some(row) => {
                    let now = old(self).spec_waiting().push(row);
                    &&& final(self).spec_rows() == old(self).spec_rows() + 1
                    &&& match group {
                        Some(g) => now.len() >= old(self).spec_group() && g.wf() && g.rows() == now
                            && final(self).spec_waiting() == Seq::<RowView>::empty(),
                        None => now.len() < old(self).spec_group() && final(self).spec_waiting()
                            == now,
                    }
                },
                None => group is None && final(self).spec_rows() == old(self).spec_rows()
                    && final(self).spec_waiting() == old(self).spec_waiting(),
            },
    {
        if is_blank(line) {
            return None;
        }
        let v: crate::json::Json = match parse_json(line) {
            Ok(v) => v,
            Err(_) => {
                return None;
            },
        };
        match result_of_json(&v) {
            Some(r) => {
                proof {
                    lemma_read_body_is_canonical(v@);
                }
                self.buf.push(&r);
                self.rows = self.rows + 1;
                if self.buf.len() >= self.row_group_rows {
                    Some(self.buf.drain())
                } else {
                    None
                }
            },
            None => None,
        }
    }

    /// Hands out what waits, if anything does.
    pub fn finish(&mut self) -> (group: Option<RowBuffer>)
        requires
            old(self).wf(),
        ensures
            final(self).wf(),
            final(self).spec_rows() == old(self).spec_rows(),
            final(self).spec_waiting() == Seq::<RowView>::empty(),
            match group {
                Some(g) => g.wf() && g.rows() == old(self).spec_waiting() && g.rows().len() > 0,
                None => old(self).spec_waiting().len() == 0,
            },
    {
        if self.buf.len() > 0 {
            Some(self.buf.drain())
        } else {
            assert(self.buf.rows() == Seq::<RowView>::empty());
            None
        }
    }
}

/// The rows of groups one after the other.
pub open spec fn flattened(groups: Seq<RowBuffer>) -> Seq<RowView>
    decreases groups.len(),
{
    if groups.len() == 0 {
        Seq::empty()
    } else {
        flattened(groups.drop_last()) + groups.last().rows()
    }
}

/// The row groups of an export and the number of its rows. The groups hold the rows of
/// the lines, in order, and all but the last are full.
pub fn export_rows(lines: &[String], opts: &ParquetOpts) -> (r: (Vec<RowBuffer>, u64))
    ensures
        flattened(r.0@) == rows_of(views(lines@)),
        r.1 == rows_of(views(lines@)).len(),
        forall|g: int| 0 <= g < r.0@.len() ==> (#[trigger] r.0@[g]).wf(),
        forall|g: int|
            0 <= g < r.0@.len() ==> 0 < (#[trigger] r.0@[g]).rows().len() <= if opts.row_group_rows
                < 1 {
                1
            } else {
                opts.row_group_rows as nat
            },
        forall|g: int|
            0 <= g < r.0@.len() - 1 ==> (#[trigger] r.0@[g]).rows().len() == if opts.row_group_rows
                < 1 {
                1
            } else {
                opts.row_group_rows as nat
            },
{
    let ghost all = views(lines@);
    let ghost cap = if opts.row_group_rows < 1 {
        1
    } else {
        opts.row_group_rows as nat
    };
    let mut groups: Vec<RowBuffer> = Vec::new();
    let mut export: Export = Export::start(opts);
    let mut i: usize = 0;
    assert(all.take(0) == Seq::<Seq<char>>::empty());
    assert(flattened(groups@) + export.spec_waiting() == rows_of(all.take(0)));
    while i < lines.len()
        invariant
            i <= lines@.len(),
            all == views(lines@),
            export.wf(),
            export.spec_group() == opts.row_group_rows,
            cap == (if opts.row_group_rows < 1 {
                1
            } else {
                opts.row_group_rows as nat
            }),
            export.spec_rows() == rows_of(all.take(i as int)).len(),
            export.spec_rows() <= i,
            export.spec_waiting().len() < cap,
            flattened(groups@) + export.spec_waiting() == rows_of(all.take(i as int)),
            forall|g: int|
                0 <= g < groups@.len() ==> (#[trigger] groups@[g]).wf() && groups@[g].rows().len()
                    == cap,
        decreases lines@.len() - i,
    {
        let ghost before = groups@;
        let ghost waiting = export.spec_waiting();
        proof {
            assert(all.take(i + 1).drop_last() == all.take(i as int));
            assert(all.take(i + 1).last() == lines@[i as int]@);
        }
        match export.line(lines[i].as_str()) {
            Some(g) => {
                groups.push(g);
                proof {
                    assert(groups@.drop_last() == before);
                    let row = line_row(lines@[i as int]@)->0;
                    assert(flattened(groups@) == flattened(before) + waiting.push(row));
                    assert(flattened(before) + waiting.push(row) == (flattened(before)
                        + waiting).push(row));
                    assert(flattened(groups@) + export.spec_waiting() == flattened(groups@));
                }
            },
            None => {
                proof {
                    if let Some(row) = line_row(lines@[i as int]@) {
                        assert(flattened(before) + waiting.push(row) == (flattened(before)
                            + waiting).push(row));
                    }
                }
            },
        }
        i = i + 1;
    }
    assert(all.take(all.len() as int) == all);
    let ghost before = groups@;
    match export.finish() {
        Some(g) => {
            groups.push(g);
            assert(groups@.drop_last() == before);
        },
        None => {
            assert(flattened(groups@) + Seq::<RowView>::empty() == flattened(groups@));
        },
    }
    (groups, export.rows())
}

/// A columnar sink that is written once. Its file cannot be opened again, so an id is
/// told apart from those before it in this process only.
pub struct ParquetStore {
    out_path: String,
    opts: ParquetOpts,
    emitted: IdSet,
    buf: RowBuffer,
    finalized: bool,
}

impl ParquetStore {
    /// The ids already taken.
    pub closed spec fn spec_emitted(self) -> Set<Seq<char>> {
        self.emitted@
    }

    /// The rows that wait.
    pub closed spec fn spec_waiting(self) -> Seq<RowView> {
        self.buf.rows()
    }

    /// The footer is written.
    pub closed spec fn spec_finalized(self) -> bool {
        self.finalized
    }

    /// The tunables.
    pub closed spec fn spec_opts(self) -> ParquetOpts {
        self.opts
    }

    /// The path of the file.
    pub closed spec fn spec_out_path(self) -> Seq<char> {
        self.out_path@
    }

    /// The buffer is well-formed.
    pub closed spec fn wf(self) -> bool {
        self.buf.wf()
    }

    /// A sink with the default tunables.
    pub fn new(out_path: &str) -> (s: Self)
        ensures
            s.wf(),
            s.spec_out_path() == out_path@,
            s.spec_opts().row_group_rows == ROW_GROUP_ROWS,
            s.spec_emitted() == Set::<Seq<char>>::empty(),
            s.spec_waiting() == Seq::<RowView>::empty(),
            !s.spec_finalized(),
    {
        Self::with_opts(out_path, ParquetOpts::default())
    }

    /// A sink with the given tunables.
    pub fn with_opts(out_path: &str, opts: ParquetOpts) -> (s: Self)
        ensures
            s.wf(),
            s.spec_out_path() == out_path@,
            s.spec_opts() == opts,
            s.spec_emitted() == Set::<Seq<char>>::empty(),
            s.spec_waiting() == Seq::<RowView>::empty(),
            !s.spec_finalized(),
    {
        ParquetStore {
            out_path: out_path.to_owned(),
            opts,
            emitted: IdSet::new(),
            buf: RowBuffer::new(),
            finalized: false,
        }
    }

    /// The path of the file.
    pub fn out_path(&self) -> (r: &str)
        ensures
            r@ == self.spec_out_path(),
    {
        self.out_path.as_str()
    }

    /// Takes a terminal result. An id that was taken before adds no row; a sink whose
    /// footer is written takes nothing more. Hands out a row group once enough rows wait.
    pub fn append(&mut self, r: &ItemResult) -> (group: Result<Option<RowBuffer>, ForgeError>)
        requires
            old(self).wf(),
            body_is_canonical(r@),
        ensures
            final(self).wf(),
            final(self).spec_opts() == old(self).spec_opts(),
            final(self).spec_out_path() == old(self).spec_out_path(),
            final(self).spec_finalized() == old(self).spec_finalized(),
            match group {
                Err(e) => old(self).spec_finalized() && error_text(e) == "store: "@
                    + "ParquetStore already finalized"@ && final(self).spec_emitted() == old(
                    self,
                ).spec_emitted() && final(self).spec_waiting() == old(self).spec_waiting(),
                Ok(g) => !old(self).spec_finalized() && final(self).spec_emitted() == old(
                    self,
                ).spec_emitted().insert(r.custom_id@) && ({
                    let now = old(self).spec_waiting().push(row_of(r@));
                    if old(self).spec_emitted().contains(r.custom_id@) {
                        g is None && final(self).spec_waiting() == old(self).spec_waiting()
                    } else if now.len() >= old(self).spec_opts().row_group_rows {
                        g is Some && g->0.wf() && g->0.rows() == now && final(self).spec_waiting()
                            == Seq::<RowView>::empty()
                    } else {
                        g is None && final(self).spec_waiting() == now
                    }
                }),
            },
    {
        if self.finalized {
            return Err(ForgeError::Store("ParquetStore already finalized".to_owned()));
        }
        if !self.emitted.insert(r.custom_id.as_str()) {
            return Ok(None);
        }
        self.buf.push(r);
        if self.buf.len() >= self.opts.row_group_rows {
            Ok(Some(self.buf.drain()))
        } else {
            Ok(None)
        }
    }

    /// Closes the sink and hands out what waits, if anything does. Does nothing the
    /// second time.
    pub fn finalize(&mut self) -> (group: Option<RowBuffer>)
        requires
            old(self).wf(),
        ensures
            final(self).wf(),
            final(self).spec_finalized(),
            final(self).spec_emitted() == old(self).spec_emitted(),
            final(self).spec_opts() == old(self).spec_opts(),
            final(self).spec_out_path() == old(self).spec_out_path(),
            match group {
                Some(g) => !old(self).spec_finalized() && old(self).spec_waiting().len() > 0
                    && g.wf() && g.rows() == old(self).spec_waiting() && final(self).spec_waiting()
                    == Seq::<RowView>::empty(),
                None => (old(self).spec_finalized() || old(self).spec_waiting().len() == 0)
                    && final(self).spec_waiting() == old(self).spec_waiting(),
            },
    {
        if self.finalized {
            return None;
        }
        self.finalized = true;
        if self.buf.len() > 0 {
            Some(self.buf.drain())
        } else {
            None
        }
    }

    /// The ids taken in this process.
    pub fn emitted_ids(&self) -> (r: &IdSet)
        ensures
            r@ == self.spec_emitted(),
    {
        &self.emitted
    }
}

/// A row tells its result: the id, the status and the text of the body of a success, the
/// code and message of a failure, and the tokens, worker, latency, attempt and instant.
pub proof fn law_rows_tell_their_result(before: RowBuffer, after: RowBuffer, r: &ItemResult)
    requires
        before.wf(),
        body_is_canonical(r@),
        exists|b: &mut RowBuffer|
            *b == before && *final(b) == after && #[trigger] call_ensures(
                RowBuffer::push,
                (b, r),
                (),
            ),
    ensures
        after.wf(),
        after.rows().len() == before.rows().len() + 1,
        after.rows().drop_last() == before.rows(),
        ({
            let row = after.rows().last();
            &&& row.custom_id == r.custom_id@
            &&& row.worker_id == r.worker_id@
            &&& row.attempt == r.attempt
            &&& row.completed_at == r.completed_at
            &&& r.response matches Some(x) ==> row.status_code == Some(x.status_code as i32)
                && row.body_json == Some(json_text(x.body@))
            &&& r.response is None ==> row.status_code is None && row.body_json is None
            &&& r.error matches Some(e) ==> row.error_code == Some(e.code@) && row.error_message
                == Some(e.message@)
            &&& r.error is None ==> row.error_code is None && row.error_message is None
            &&& r.usage.prompt_tokens <= i64::MAX ==> row.prompt_tokens == r.usage.prompt_tokens
            &&& r.usage.completion_tokens <= i64::MAX ==> row.completion_tokens
                == r.usage.completion_tokens
            &&& r.usage.total_tokens <= i64::MAX ==> row.total_tokens == r.usage.total_tokens
            &&& r.latency_ms <= i64::MAX ==> row.latency_ms == r.latency_ms
        }),
{
    assert(after.rows().drop_last() =~= before.rows());
}

/// An export has a row for each line that holds a result, in order: a line more adds its
/// row, if it holds one.
pub proof fn law_exports_have_a_row_per_result(
    lines: &[String],
    opts: &ParquetOpts,
    r: (Vec<RowBuffer>, u64),
    init: &[String],
    before: (Vec<RowBuffer>, u64),
    result: Option<ItemResult>,
    j: Json,
)
    requires
        call_ensures(export_rows, (lines, opts), r),
        call_ensures(export_rows, (init, opts), before),
        lines@.len() > 0,
        init@ == lines@.drop_last(),
        json_parse(lines@.last()@) is Ok,
        j@ == json_parse(lines@.last()@)->Ok_0,
        trim(lines@.last()@).len() > 0,
        call_ensures(result_of_json, (&j,), result),
    ensures
        result is None ==> flattened(r.0@) == flattened(before.0@) && r.1 == before.1,
        result matches Some(x) ==> r.1 == before.1 + 1 && flattened(r.0@).drop_last() == flattened(
            before.0@,
        ) && flattened(r.0@).last().custom_id == x.custom_id@ && flattened(r.0@).last().worker_id
            == x.worker_id@ && (x.response matches Some(y) ==> flattened(r.0@).last().status_code
            == Some(y.status_code as i32)) && (x.error matches Some(e) ==> flattened(
            r.0@,
        ).last().error_message == Some(e.message@)),
{
    let all = views(lines@);
    assert(all.drop_last() =~= views(init@));
    assert(all.last() == lines@.last()@);
    if let Some(x) = result {
        assert(rows_of(all).drop_last() =~= rows_of(views(init@)));
    }
}

/// Lines that are blank, or cannot be read, have no row.
pub proof fn law_torn_lines_have_no_row(
    lines: &[String],
    opts: &ParquetOpts,
    r: (Vec<RowBuffer>, u64),
    init: &[String],
    before: (Vec<RowBuffer>, u64),
)
    requires
        call_ensures(export_rows, (lines, opts), r),
        call_ensures(export_rows, (init, opts), before),
        lines@.len() > 0,
        init@ == lines@.drop_last(),
        json_parse(lines@.last()@) is Err || trim(lines@.last()@).len() == 0,
    ensures
        flattened(r.0@) == flattened(before.0@),
        r.1 == before.1,
{
    let all = views(lines@);
    assert(all.drop_last() =~= views(init@));
    assert(all.last() == lines@.last()@);
}

/// A columnar sink takes each id once: the first result of an id adds its row, and a later
/// one nothing. Once closed it takes nothing, and says so.
pub proof fn law_sinks_take_each_id_once(
    before: ParquetStore,
    after: ParquetStore,
    r: &ItemResult,
    group: Result<Option<RowBuffer>, ForgeError>,
)
    requires
        before.wf(),
        body_is_canonical(r@),
        exists|s: &mut ParquetStore|
            *s == before && *final(s) == after && #[trigger] call_ensures(
                ParquetStore::append,
                (s, r),
                group,
            ),
    ensures
        group is Err <==> before.spec_finalized(),
        group is Err ==> after.spec_emitted() == before.spec_emitted() && after.spec_waiting()
            == before.spec_waiting(),
        group is Ok ==> after.spec_emitted().contains(r.custom_id@),
        group is Ok && before.spec_emitted().contains(r.custom_id@) ==> group->Ok_0 is None
            && after.spec_waiting() == before.spec_waiting(),
        group is Ok && !before.spec_emitted().contains(r.custom_id@) ==> (match group->Ok_0 {
            Some(g) => g.rows().len() == before.spec_waiting().len() + 1 && g.rows().last().custom_id
                == r.custom_id@ && after.spec_waiting().len() == 0,
            None => after.spec_waiting().len() == before.spec_waiting().len() + 1
                && after.spec_waiting().last().custom_id == r.custom_id@,
        }),
{
}

/// Closing a sink hands out every row that waits, once.
pub proof fn law_closing_hands_out_what_waits(
    before: ParquetStore,
    after: ParquetStore,
    group: Option<RowBuffer>,
)
    requires
        before.wf(),
        exists|s: &mut ParquetStore|
            *s == before && *final(s) == after && #[trigger] call_ensures(
                ParquetStore::finalize,
                (s,),
                group,
            ),
    ensures
        after.spec_finalized(),
        !before.spec_finalized() && before.spec_waiting().len() > 0 ==> (group matches Some(g)
            && g.rows() == before.spec_waiting()),
        before.spec_finalized() ==> group is None,
{
}

/// The file has a column for each field, under its name; only the status, the body and the
/// error may be empty.
pub proof fn law_columns_are_named(r: Vec<Column>, i: int)
    requires
        call_ensures(forge_schema, (), r),
        0 <= i < 12,
    ensures
        r@.len() == 12,
        r@[0].name@ == "custom_id"@ && r@[1].name@ == "status_code"@ && r@[2].name@ == "body_json"@,
        r@[3].name@ == "error_code"@ && r@[4].name@ == "error_message"@,
        r@[5].name@ == "prompt_tokens"@ && r@[6].name@ == "completion_tokens"@ && r@[7].name@
            == "total_tokens"@,
        r@[8].name@ == "worker_id"@ && r@[9].name@ == "latency_ms"@ && r@[10].name@ == "attempt"@
            && r@[11].name@ == "completed_at"@,
        r@[i].nullable <==> 1 <= i <= 4,
        r@[i].kind == ColumnType::Text <==> i == 0 || 2 <= i <= 4 || i == 8,
        r@[i].kind == ColumnType::Int32 <==> i == 1,
{
    let v = r@.map_values(|c: Column| (c.name@, c.kind, c.nullable));
    assert(v.len() == 12);
    assert forall|k: int| 0 <= k < 12 implies #[trigger] schema()[k] == (
        r@[k].name@,
        r@[k].kind,
        r@[k].nullable,
    ) by {
        assert(v[k] == schema()[k]);
    }
    assert(schema()[0].0 == r@[0].name@ && schema()[1].0 == r@[1].name@ && schema()[2].0
        == r@[2].name@ && schema()[3].0 == r@[3].name@ && schema()[4].0 == r@[4].name@
        && schema()[5].0 == r@[5].name@ && schema()[6].0 == r@[6].name@ && schema()[7].0
        == r@[7].name@ && schema()[8].0 == r@[8].name@ && schema()[9].0 == r@[9].name@
        && schema()[10].0 == r@[10].name@ && schema()[11].0 == r@[11].name@);
    assert(schema()[i].2 == r@[i].nullable && schema()[i].1 == r@[i].kind);
}

/// A row group is cut every fifty thousand rows unless another number is asked for.
pub proof fn law_row_groups_have_a_default_size(s: ParquetStore, path: &str)
    requires
        call_ensures(ParquetStore::new, (path,), s),
    ensures
        s.spec_opts().row_group_rows == 50_000,
        s.spec_out_path() == path@,
        !s.spec_finalized(),
{
}

/// An export keeps each result until its group is full: what waits and the row of the line
/// are handed out together as soon as they make a group, and the rest at the end.
pub proof fn law_groups_are_handed_out_when_full(
    before: Export,
    after: Export,
    line: &str,
    group: Option<RowBuffer>,
    j: Json,
    result: Option<ItemResult>,
)
    requires
        before.wf(),
        exists|m: &mut Export|
            *m == before && *final(m) == after && #[trigger] call_ensures(Export::line, (m, line), group),
        trim(line@).len() > 0,
        json_parse(line@) is Ok,
        j@ == json_parse(line@)->Ok_0,
        call_ensures(result_of_json, (&j,), result),
    ensures
        result is None ==> group is None && after.spec_waiting() == before.spec_waiting()
            && after.spec_rows() == before.spec_rows(),
        result is Some ==> after.spec_rows() == before.spec_rows() + 1 && (group is Some
            <==> before.spec_waiting().len() + 1 >= before.spec_group()),
        result is Some && group is Some ==> after.spec_waiting().len() == 0
            && group->0.rows().len() == before.spec_waiting().len() + 1
            && group->0.rows().drop_last() == before.spec_waiting()
            && group->0.rows().last().custom_id == result->0.custom_id@,
        result is Some && group is None ==> after.spec_waiting().len()
            == before.spec_waiting().len() + 1 && after.spec_waiting().drop_last()
            == before.spec_waiting() && after.spec_waiting().last().custom_id
            == result->0.custom_id@,
{
    if result is Some {
        let now = before.spec_waiting().push(row_of(result->0@));
        assert(now.drop_last() == before.spec_waiting());
    }
}

/// At its end an export hands out what still waits, if anything does.
pub proof fn law_exports_end_with_what_waits(before: Export, after: Export, group: Option<RowBuffer>)
    requires
        before.wf(),
        exists|m: &mut Export|
            *m == before && *final(m) == after && #[trigger] call_ensures(Export::finish, (m,), group),
    ensures
        after.spec_waiting().len() == 0,
        before.spec_waiting().len() == 0 <==> group is None,
        group is Some ==> group->0.rows() == before.spec_waiting(),
        after.spec_rows() == before.spec_rows(),
{
}

/// The same file is never both read and written by an export.
pub proof fn law_exports_are_not_onto_themselves(
    input: &str,
    out: &str,
    resolved_input: Option<&str>,
    resolved_out: Option<&str>,
    r: Result<(), ForgeError>,
    same: bool,
)
    requires
        call_ensures(check_export, (input, out, resolved_input, resolved_out), r),
        call_ensures(crate::paths::same_file, (input, out, resolved_input, resolved_out), same),
    ensures
        r is Err <==> same,
        input@ == out@ ==> r is Err,
{
}


} // verus!

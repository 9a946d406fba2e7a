//! The batches and files of the front door: what is kept of each, and how a batch moves
//! from running to its end.
//!
//! A batch is in progress until it completes, fails or is cancelled, and what came first
//! stands. Its record and the records of the files outlive the process.

use vstd::prelude::*;

use crate::json::{
    as_record, canonical, json_parse, lemma_object_view, members_view, names_ascend, parse_json,
    parse_view, record_of_array, Json, JsonView, Number, NumberView,
};
use crate::openai::{
    count_value, create_request_of, int_json, int_value, lemma_lex_at, lemma_member_at,
    lemma_neighbours, neighbours_ascend, no_requests, opt_int_json, opt_int_value, opt_text,
    opt_text_json, opt_text_value, reshape_result_line, text_value, BatchObject,
    CreateBatchRequest, FileObject, OutputLine, RequestCounts,
};
use crate::paths::{below, join_path};
use crate::queue::QueueCounts;
use crate::result::{int_at, nullable_text, opt_member};
use crate::table::Table;
use crate::text::{concat2, concat3, is_blank, opt_view, str_eq, trim, views};
use crate::types::duplicate_opt;

verus! {

/// What is kept of a batch.
#[derive(Debug, Clone, PartialEq, Eq)]
pub struct BatchRecord {
    pub id: String,
    pub endpoint: String,
    pub input_file_id: String,
    pub completion_window: String,
    pub status: String,
    pub created_at: i64,
    pub in_progress_at: Option<i64>,
    pub completed_at: Option<i64>,
    pub cancelled_at: Option<i64>,
    pub output_file_id: Option<String>,
    pub error_file_id: Option<String>,
}

/// The view of a [`BatchRecord`].
#[verifier::ext_equal]
pub struct BatchRecordView {
    pub id: Seq<char>,
    pub endpoint: Seq<char>,
    pub input_file_id: Seq<char>,
    pub completion_window: Seq<char>,
    pub status: Seq<char>,
    pub created_at: i64,
    pub in_progress_at: Option<i64>,
    pub completed_at: Option<i64>,
    pub cancelled_at: Option<i64>,
    pub output_file_id: Option<Seq<char>>,
    pub error_file_id: Option<Seq<char>>,
}

impl View for BatchRecord {
    type V = BatchRecordView;

    open spec fn view(&self) -> BatchRecordView {
        BatchRecordView {
            id: self.id@,
            endpoint: self.endpoint@,
            input_file_id: self.input_file_id@,
            completion_window: self.completion_window@,
            status: self.status@,
            created_at: self.created_at,
            in_progress_at: self.in_progress_at,
            completed_at: self.completed_at,
            cancelled_at: self.cancelled_at,
            output_file_id: opt_view(self.output_file_id),
            error_file_id: opt_view(self.error_file_id),
        }
    }
}

/// What a file holds.
#[derive(Debug, Clone, Copy, PartialEq, Eq, Structural)]
pub enum FileKind {
    /// An uploaded input.
    Input,
    /// The successes of a finished batch.
    Output,
    /// The failures of a finished batch.
    Error,
}

/// The name of a kind.
pub open spec fn kind_name(k: FileKind) -> Seq<char> {
    match k {
        FileKind::Input => "Input"@,
        FileKind::Output => "Output"@,
        FileKind::Error => "Error"@,
    }
}

/// The kind that a name says.
pub open spec fn named_kind(s: Seq<char>) -> Option<FileKind> {
    if s == "Input"@ {
        Some(FileKind::Input)
    } else if s == "Output"@ {
        Some(FileKind::Output)
    } else if s == "Error"@ {
        Some(FileKind::Error)
    } else {
        None
    }
}

/// What the API calls the purpose of a kind.
pub open spec fn kind_purpose(k: FileKind) -> Seq<char> {
    match k {
        FileKind::Input => "batch"@,
        FileKind::Output => "batch_output"@,
        FileKind::Error => "batch_error"@,
    }
}

/// What a kind adds to the name of a batch's file.
pub open spec fn kind_suffix(k: FileKind) -> Seq<char> {
    match k {
        FileKind::Input => "input"@,
        FileKind::Output => "output"@,
        FileKind::Error => "error"@,
    }
}

impl FileKind {
    /// The name of this kind.
    pub fn name(self) -> (r: &'static str)
        ensures
            r@ == kind_name(self),
    {
        match self {
            FileKind::Input => "Input",
            FileKind::Output => "Output",
            FileKind::Error => "Error",
        }
    }

    /// The kind that a name says.
    pub fn from_name(s: &str) -> (r: Option<FileKind>)
        ensures
            r == named_kind(s@),
    {
        if str_eq(s, "Input") {
            Some(FileKind::Input)
        } else if str_eq(s, "Output") {
            Some(FileKind::Output)
        } else if str_eq(s, "Error") {
            Some(FileKind::Error)
        } else {
            None
        }
    }

    /// What the API calls the purpose of this kind.
    pub fn purpose(self) -> (r: &'static str)
        ensures
            r@ == kind_purpose(self),
    {
        match self {
            FileKind::Input => "batch",
            FileKind::Output => "batch_output",
            FileKind::Error => "batch_error",
        }
    }

    /// What this kind adds to the name of a batch's file.
    pub fn suffix(self) -> (r: &'static str)
        ensures
            r@ == kind_suffix(self),
    {
        match self {
            FileKind::Input => "input",
            FileKind::Output => "output",
            FileKind::Error => "error",
        }
    }
}

/// What is kept of a file.
#[derive(Debug, Clone, PartialEq, Eq)]
pub struct FileRecord {
    pub id: String,
    pub filename: String,
    pub bytes: u64,
    pub created_at: i64,
    pub purpose: String,
    /// Where its bytes are.
    pub path: String,
    pub kind: FileKind,
}

/// The view of a [`FileRecord`].
#[verifier::ext_equal]
pub struct FileRecordView {
    pub id: Seq<char>,
    pub filename: Seq<char>,
    pub bytes: u64,
    pub created_at: i64,
    pub purpose: Seq<char>,
    pub path: Seq<char>,
    pub kind: FileKind,
}

impl View for FileRecord {
    type V = FileRecordView;

    open spec fn view(&self) -> FileRecordView {
        FileRecordView {
            id: self.id@,
            filename: self.filename@,
            bytes: self.bytes,
            created_at: self.created_at,
            purpose: self.purpose@,
            path: self.path@,
            kind: self.kind,
        }
    }
}

/// `o` is the file object of a record.
pub open spec fn is_file_object(o: FileObject, f: FileRecordView) -> bool {
    &&& o.id@ == f.id
    &&& o.object@ == "file"@
    &&& o.bytes == f.bytes
    &&& o.created_at == f.created_at
    &&& o.filename@ == f.filename
    &&& o.purpose@ == f.purpose
}

impl FileRecord {
    /// The file object of this record.
    pub fn to_object(&self) -> (o: FileObject)
        ensures
            is_file_object(o, self@),
    {
        FileObject {
            id: self.id.as_str().to_owned(),
            object: "file".to_owned(),
            bytes: self.bytes,
            created_at: self.created_at,
            filename: self.filename.as_str().to_owned(),
            purpose: self.purpose.as_str().to_owned(),
        }
    }

    /// The type of the content, for a file of results.
    pub fn content_type(&self) -> (r: Option<&'static str>)
        ensures
            match r {
                Some(t) => self.kind != FileKind::Input && t@ == "application/jsonl"@,
                None => self.kind == FileKind::Input,
            },
    {
        match self.kind {
            FileKind::Input => None,
            _ => Some("application/jsonl"),
        }
    }
}

/// `o` is the batch object of a record with this progress.
pub open spec fn is_batch_object(o: BatchObject, r: BatchRecordView, counts: RequestCounts) -> bool {
    &&& o.id@ == r.id
    &&& o.object@ == "batch"@
    &&& o.endpoint@ == r.endpoint
    &&& o.input_file_id@ == r.input_file_id
    &&& o.completion_window@ == r.completion_window
    &&& o.status@ == r.status
    &&& opt_view(o.output_file_id) == r.output_file_id
    &&& opt_view(o.error_file_id) == r.error_file_id
    &&& o.created_at == r.created_at
    &&& o.in_progress_at == r.in_progress_at
    &&& o.completed_at == r.completed_at
    &&& o.cancelled_at == r.cancelled_at
    &&& o.request_counts == counts
}

/// The batch object of a record.
pub fn record_to_object(record: &BatchRecord, counts: RequestCounts) -> (o: BatchObject)
    ensures
        is_batch_object(o, record@, counts),
{
    BatchObject {
        id: record.id.as_str().to_owned(),
        object: "batch".to_owned(),
        endpoint: record.endpoint.as_str().to_owned(),
        input_file_id: record.input_file_id.as_str().to_owned(),
        completion_window: record.completion_window.as_str().to_owned(),
        status: record.status.as_str().to_owned(),
        output_file_id: duplicate_opt(&record.output_file_id),
        error_file_id: duplicate_opt(&record.error_file_id),
        created_at: record.created_at,
        in_progress_at: record.in_progress_at,
        completed_at: record.completed_at,
        cancelled_at: record.cancelled_at,
        request_counts: counts,
    }
}

/// The progress that queue counts say; none where they could not be read.
pub open spec fn progress_of(counts: Option<QueueCounts>) -> RequestCounts {
    match counts {
        Some(c) => RequestCounts { total: c.sum() as u64, completed: c.done, failed: c.dead },
        None => no_requests(),
    }
}

/// The counts, if there are any, add up within 64 bits.
pub open spec fn counts_fit(counts: Option<QueueCounts>) -> bool {
    counts matches Some(c) ==> c.sum() <= u64::MAX
}

/// The progress that queue counts say.
pub fn request_counts(counts: Option<QueueCounts>) -> (r: RequestCounts)
    requires
        counts_fit(counts),
    ensures
        r == progress_of(counts),
{
    match counts {
        Some(c) => RequestCounts { total: c.total(), completed: c.done, failed: c.dead },
        None => RequestCounts::default(),
    }
}

/// A record in JSON.
pub open spec fn record_json(r: BatchRecordView) -> JsonView {
    JsonView::Object(
        seq![
            ("cancelled_at"@, opt_int_json(r.cancelled_at)),
            ("completed_at"@, opt_int_json(r.completed_at)),
            ("completion_window"@, JsonView::Text(r.completion_window)),
            ("created_at"@, int_json(r.created_at)),
            ("endpoint"@, JsonView::Text(r.endpoint)),
            ("error_file_id"@, opt_text_json(r.error_file_id)),
            ("id"@, JsonView::Text(r.id)),
            ("in_progress_at"@, opt_int_json(r.in_progress_at)),
            ("input_file_id"@, JsonView::Text(r.input_file_id)),
            ("output_file_id"@, opt_text_json(r.output_file_id)),
            ("status"@, JsonView::Text(r.status)),
        ],
    )
}

/// A whole number that may be missing or null; nothing where it is anything else.
pub open spec fn nullable_int(j: JsonView, key: Seq<char>) -> Option<Option<i64>> {
    match opt_member(j, key) {
        None => Some(None),
        Some(_) => match int_at(j, key) {
            Some(n) => Some(Some(n)),
            None => None,
        },
    }
}

/// The record that a value describes.
pub open spec fn record_of(j: JsonView) -> Option<BatchRecordView> {
    record_fields(as_record(j, record_names(), 11))
}

/// The fields of the record of a batch, in their order.
pub open spec fn record_names() -> Seq<Seq<char>> {
    seq![
        "id"@,
        "endpoint"@,
        "input_file_id"@,
        "completion_window"@,
        "status"@,
        "created_at"@,
        "in_progress_at"@,
        "completed_at"@,
        "cancelled_at"@,
        "output_file_id"@,
        "error_file_id"@,
    ]
}

fn record_names_list() -> (r: Vec<String>)
    ensures
        views(r@) == record_names(),
{
    let r: Vec<String> = vec![
        "id".to_owned(),
        "endpoint".to_owned(),
        "input_file_id".to_owned(),
        "completion_window".to_owned(),
        "status".to_owned(),
        "created_at".to_owned(),
        "in_progress_at".to_owned(),
        "completed_at".to_owned(),
        "cancelled_at".to_owned(),
        "output_file_id".to_owned(),
        "error_file_id".to_owned(),
    ];
    assert(views(r@) == record_names());
    r
}

/// The fields of the record of a file, in their order.
pub open spec fn file_record_names() -> Seq<Seq<char>> {
    seq![
        "id"@,
        "filename"@,
        "bytes"@,
        "created_at"@,
        "purpose"@,
        "path"@,
        "kind"@,
    ]
}

fn file_record_names_list() -> (r: Vec<String>)
    ensures
        views(r@) == file_record_names(),
{
    let r: Vec<String> = vec![
        "id".to_owned(),
        "filename".to_owned(),
        "bytes".to_owned(),
        "created_at".to_owned(),
        "purpose".to_owned(),
        "path".to_owned(),
        "kind".to_owned(),
    ];
    assert(views(r@) == file_record_names());
    r
}

/// The record of a batch that an object describes.
pub open spec fn record_fields(j: JsonView) -> Option<BatchRecordView> {
    match (
        (j.str_at("id"@), j.str_at("endpoint"@), j.str_at("input_file_id"@)),
        (j.str_at("completion_window"@), j.str_at("status"@), int_at(j, "created_at"@)),
        (
            nullable_int(j, "in_progress_at"@),
            nullable_int(j, "completed_at"@),
            nullable_int(j, "cancelled_at"@),
        ),
        (nullable_text(j, "output_file_id"@), nullable_text(j, "error_file_id"@)),
    ) {
        (
            (Some(id), Some(endpoint), Some(input_file_id)),
            (Some(completion_window), Some(status), Some(created_at)),
            (Some(in_progress_at), Some(completed_at), Some(cancelled_at)),
            (Some(output_file_id), Some(error_file_id)),
        ) => Some(
            BatchRecordView {
                id,
                endpoint,
                input_file_id,
                completion_window,
                status,
                created_at,
                in_progress_at,
                completed_at,
                cancelled_at,
                output_file_id,
                error_file_id,
            },
        ),
        _ => None,
    }
}

/// The record of a file in JSON.
pub open spec fn file_record_json(f: FileRecordView) -> JsonView {
    JsonView::Object(
        seq![
            ("bytes"@, JsonView::Number(NumberView::Unsigned(f.bytes))),
            ("created_at"@, int_json(f.created_at)),
            ("filename"@, JsonView::Text(f.filename)),
            ("id"@, JsonView::Text(f.id)),
            ("kind"@, JsonView::Text(kind_name(f.kind))),
            ("path"@, JsonView::Text(f.path)),
            ("purpose"@, JsonView::Text(f.purpose)),
        ],
    )
}

/// The kind under a name.
pub open spec fn kind_at(j: JsonView, key: Seq<char>) -> Option<FileKind> {
    match j.str_at(key) {
        Some(t) => named_kind(t),
        None => None,
    }
}

/// The record of a file that a value describes.
pub open spec fn file_record_of(j: JsonView) -> Option<FileRecordView> {
    file_record_fields(as_record(j, file_record_names(), 7))
}

/// The record of a file that an object describes.
pub open spec fn file_record_fields(j: JsonView) -> Option<FileRecordView> {
    match (
        (j.str_at("id"@), j.str_at("filename"@), j.u64_at("bytes"@)),
        (int_at(j, "created_at"@), j.str_at("purpose"@), j.str_at("path"@)),
        kind_at(j, "kind"@),
    ) {
        (
            (Some(id), Some(filename), Some(bytes)),
            (Some(created_at), Some(purpose), Some(path)),
            Some(kind),
        ) => Some(FileRecordView { id, filename, bytes, created_at, purpose, path, kind }),
        _ => None,
    }
}

fn read_int(j: &Json, key: &str) -> (r: Option<i64>)
    ensures
        r == int_at(j@, key@),
{
    match j.get(key) {
        Some(v) => match v {
            Json::Number(Number::Unsigned(n)) => {
                if *n <= 0x7fff_ffff_ffff_ffff {
                    Some(*n as i64)
                } else {
                    None
                }
            },
            Json::Number(Number::Negative(n)) => Some(*n),
            _ => None,
        },
        None => None,
    }
}

fn read_opt_int(j: &Json, key: &str) -> (r: Option<Option<i64>>)
    ensures
        r == nullable_int(j@, key@),
{
    match j.get(key) {
        None => Some(None),
        Some(v) => {
            if v.is_null() {
                return Some(None);
            }
            match read_int(j, key) {
                Some(n) => Some(Some(n)),
                None => None,
            }
        },
    }
}

impl BatchRecord {
    /// This record in JSON.
    pub fn to_json(&self) -> (j: Json)
        ensures
            j@ == record_json(self@),
    {
        let members: Vec<(String, Json)> = vec![
            ("cancelled_at".to_owned(), opt_int_value(self.cancelled_at)),
            ("completed_at".to_owned(), opt_int_value(self.completed_at)),
            ("completion_window".to_owned(), text_value(self.completion_window.as_str())),
            ("created_at".to_owned(), int_value(self.created_at)),
            ("endpoint".to_owned(), text_value(self.endpoint.as_str())),
            ("error_file_id".to_owned(), opt_text_value(&self.error_file_id)),
            ("id".to_owned(), text_value(self.id.as_str())),
            ("in_progress_at".to_owned(), opt_int_value(self.in_progress_at)),
            ("input_file_id".to_owned(), text_value(self.input_file_id.as_str())),
            ("output_file_id".to_owned(), opt_text_value(&self.output_file_id)),
            ("status".to_owned(), text_value(self.status.as_str())),
        ];
        proof {
            lemma_object_view(members);
            assert(members_view(members@) == record_json(self@)->Object_0);
        }
        Json::Object(members)
    }

    /// The record that a value describes.
    pub fn from_json(j: &Json) -> (r: Option<BatchRecord>)
        ensures
            match r {
                Some(x) => record_of(j@) == Some(x@),
                None => record_of(j@) is None,
            },
    {
        match record_of_array(j, &record_names_list(), 11) {
            Some(record) => Self::from_fields(&record),
            None => Self::from_fields(j),
        }
    }

    fn from_fields(j: &Json) -> (r: Option<BatchRecord>)
        ensures
            match r {
                Some(x) => record_fields(j@) == Some(x@),
                None => record_fields(j@) is None,
            },
    {
        match (
            (j.str_at("id"), j.str_at("endpoint"), j.str_at("input_file_id")),
            (j.str_at("completion_window"), j.str_at("status"), read_int(j, "created_at")),
            (
                read_opt_int(j, "in_progress_at"),
                read_opt_int(j, "completed_at"),
                read_opt_int(j, "cancelled_at"),
            ),
            (opt_text(j, "output_file_id"), opt_text(j, "error_file_id")),
        ) {
            (
                (Some(id), Some(endpoint), Some(input_file_id)),
                (Some(completion_window), Some(status), Some(created_at)),
                (Some(in_progress_at), Some(completed_at), Some(cancelled_at)),
                (Some(output_file_id), Some(error_file_id)),
            ) => Some(
                BatchRecord {
                    id: id.to_owned(),
                    endpoint: endpoint.to_owned(),
                    input_file_id: input_file_id.to_owned(),
                    completion_window: completion_window.to_owned(),
                    status: status.to_owned(),
                    created_at,
                    in_progress_at,
                    completed_at,
                    cancelled_at,
                    output_file_id,
                    error_file_id,
                },
            ),
            _ => None,
        }
    }
}

impl FileRecord {
    /// This record in JSON.
    pub fn to_json(&self) -> (j: Json)
        ensures
            j@ == file_record_json(self@),
    {
        let members: Vec<(String, Json)> = vec![
            ("bytes".to_owned(), count_value(self.bytes)),
            ("created_at".to_owned(), int_value(self.created_at)),
            ("filename".to_owned(), text_value(self.filename.as_str())),
            ("id".to_owned(), text_value(self.id.as_str())),
            ("kind".to_owned(), text_value(self.kind.name())),
            ("path".to_owned(), text_value(self.path.as_str())),
            ("purpose".to_owned(), text_value(self.purpose.as_str())),
        ];
        proof {
            lemma_object_view(members);
            assert(members_view(members@) == file_record_json(self@)->Object_0);
        }
        Json::Object(members)
    }

    /// The record that a value describes.
    pub fn from_json(j: &Json) -> (r: Option<FileRecord>)
        ensures
            match r {
                Some(x) => file_record_of(j@) == Some(x@),
                None => file_record_of(j@) is None,
            },
    {
        match record_of_array(j, &file_record_names_list(), 7) {
            Some(record) => Self::from_fields(&record),
            None => Self::from_fields(j),
        }
    }

    fn from_fields(j: &Json) -> (r: Option<FileRecord>)
        ensures
            match r {
                Some(x) => file_record_fields(j@) == Some(x@),
                None => file_record_fields(j@) is None,
            },
    {
        let kind: Option<FileKind> = match j.str_at("kind") {
            Some(t) => FileKind::from_name(t),
            None => None,
        };
        match (
            (j.str_at("id"), j.str_at("filename"), j.u64_at("bytes")),
            (read_int(j, "created_at"), j.str_at("purpose"), j.str_at("path")),
            kind,
        ) {
            (
                (Some(id), Some(filename), Some(bytes)),
                (Some(created_at), Some(purpose), Some(path)),
                Some(kind),
            ) => Some(
                FileRecord {
                    id: id.to_owned(),
                    filename: filename.to_owned(),
                    bytes,
                    created_at,
                    purpose: purpose.to_owned(),
                    path: path.to_owned(),
                    kind,
                },
            ),
            _ => None,
        }
    }
}

/// The record of a batch is read back as it was written.
pub proof fn law_record_round_trip(r: BatchRecordView)
    ensures
        record_of(record_json(r)) == Some(r),
        canonical(record_json(r)),
{
    reveal_strlit("cancelled_at");
    reveal_strlit("completed_at");
    reveal_strlit("completion_window");
    reveal_strlit("created_at");
    reveal_strlit("endpoint");
    reveal_strlit("error_file_id");
    reveal_strlit("id");
    reveal_strlit("in_progress_at");
    reveal_strlit("input_file_id");
    reveal_strlit("output_file_id");
    reveal_strlit("status");
    lemma_lex_at("cancelled_at"@, "completed_at"@, 1);
    lemma_lex_at("completed_at"@, "completion_window"@, 7);
    lemma_lex_at("completion_window"@, "created_at"@, 1);
    lemma_lex_at("created_at"@, "endpoint"@, 0);
    lemma_lex_at("endpoint"@, "error_file_id"@, 1);
    lemma_lex_at("error_file_id"@, "id"@, 0);
    lemma_lex_at("id"@, "in_progress_at"@, 1);
    lemma_lex_at("in_progress_at"@, "input_file_id"@, 2);
    lemma_lex_at("input_file_id"@, "output_file_id"@, 0);
    lemma_lex_at("output_file_id"@, "status"@, 0);
    let m = record_json(r)->Object_0;
    assert(neighbours_ascend(m));
    lemma_neighbours(m);
    lemma_member_at(m, 0);
    lemma_member_at(m, 1);
    lemma_member_at(m, 2);
    lemma_member_at(m, 3);
    lemma_member_at(m, 4);
    lemma_member_at(m, 5);
    lemma_member_at(m, 6);
    lemma_member_at(m, 7);
    lemma_member_at(m, 8);
    lemma_member_at(m, 9);
    lemma_member_at(m, 10);
    assert forall|i: int| 0 <= i < m.len() implies canonical((#[trigger] m[i]).1) by {}
}

/// The record of a file is read back as it was written.
pub proof fn law_file_record_round_trip(f: FileRecordView)
    ensures
        file_record_of(file_record_json(f)) == Some(f),
        canonical(file_record_json(f)),
{
    reveal_strlit("bytes");
    reveal_strlit("created_at");
    reveal_strlit("filename");
    reveal_strlit("id");
    reveal_strlit("kind");
    reveal_strlit("path");
    reveal_strlit("purpose");
    reveal_strlit("Input");
    reveal_strlit("Output");
    reveal_strlit("Error");
    assert("Input"@[0] == 'I' && "Output"@[0] == 'O' && "Error"@[0] == 'E');
    lemma_lex_at("bytes"@, "created_at"@, 0);
    lemma_lex_at("created_at"@, "filename"@, 0);
    lemma_lex_at("filename"@, "id"@, 0);
    lemma_lex_at("id"@, "kind"@, 0);
    lemma_lex_at("kind"@, "path"@, 0);
    lemma_lex_at("path"@, "purpose"@, 1);
    let m = file_record_json(f)->Object_0;
    assert(neighbours_ascend(m));
    lemma_neighbours(m);
    lemma_member_at(m, 0);
    lemma_member_at(m, 1);
    lemma_member_at(m, 2);
    lemma_member_at(m, 3);
    lemma_member_at(m, 4);
    lemma_member_at(m, 5);
    lemma_member_at(m, 6);
    assert forall|i: int| 0 <= i < m.len() implies canonical((#[trigger] m[i]).1) by {}
}

/// A batch that still runs, or that nobody has closed.
pub open spec fn in_progress(r: BatchRecordView) -> bool {
    r.status == "in_progress"@
}

/// The record of a batch that is complete. Only one in progress changes.
pub open spec fn completed(
    r: BatchRecordView,
    now: i64,
    output_file_id: Option<Seq<char>>,
    error_file_id: Option<Seq<char>>,
) -> BatchRecordView {
    if in_progress(r) {
        BatchRecordView {
            status: "completed"@,
            completed_at: Some(now),
            output_file_id,
            error_file_id,
            ..r
        }
    } else {
        r
    }
}

/// The record of a batch whose run failed. Only one in progress changes.
pub open spec fn failed(r: BatchRecordView, now: i64) -> BatchRecordView {
    if in_progress(r) {
        BatchRecordView { status: "failed"@, completed_at: Some(now), ..r }
    } else {
        r
    }
}

/// The record of a batch that was cancelled. Only one in progress changes.
pub open spec fn cancelled(r: BatchRecordView, now: i64) -> BatchRecordView {
    if in_progress(r) {
        BatchRecordView { status: "cancelled"@, cancelled_at: Some(now), ..r }
    } else {
        r
    }
}

/// Nothing that closes a batch changes this record.
pub open spec fn stays_closed(
    r: BatchRecordView,
    now: i64,
    output_file_id: Option<Seq<char>>,
    error_file_id: Option<Seq<char>>,
) -> bool {
    &&& completed(r, now, output_file_id, error_file_id) == r
    &&& failed(r, now) == r
    &&& cancelled(r, now) == r
}

/// What ends a batch first stands: a batch that completed, failed or was cancelled is
/// changed by none of the three again.
pub proof fn law_first_end_stands(
    r: BatchRecordView,
    now: i64,
    later: i64,
    output_file_id: Option<Seq<char>>,
    error_file_id: Option<Seq<char>>,
)
    ensures
        stays_closed(
            completed(r, now, output_file_id, error_file_id),
            later,
            output_file_id,
            error_file_id,
        ),
        stays_closed(failed(r, now), later, output_file_id, error_file_id),
        stays_closed(cancelled(r, now), later, output_file_id, error_file_id),
{
    reveal_strlit("in_progress");
    reveal_strlit("completed");
    reveal_strlit("failed");
    reveal_strlit("cancelled");
    assert("in_progress"@.len() == 11);
}

/// A batch of the registry: its record, where its files are, whether its run was started
/// by this process, and whether that run is to stop.
pub struct BatchEntry {
    pub record: BatchRecord,
    pub dir: String,
    pub running: bool,
    pub cancel: bool,
}

/// The view of a [`BatchEntry`].
#[verifier::ext_equal]
pub struct BatchEntryView {
    pub record: BatchRecordView,
    pub dir: Seq<char>,
    pub running: bool,
    pub cancel: bool,
}

impl View for BatchEntry {
    type V = BatchEntryView;

    open spec fn view(&self) -> BatchEntryView {
        BatchEntryView {
            record: self.record@,
            dir: self.dir@,
            running: self.running,
            cancel: self.cancel,
        }
    }
}

impl BatchEntry {
    /// The checkpoint of the queue.
    pub fn ckpt_path(&self) -> (r: String)
        ensures
            r@ == below(self.dir@, "ckpt.db"@),
    {
        join_path(self.dir.as_str(), "ckpt.db")
    }

    /// The stored successes.
    pub fn out_path(&self) -> (r: String)
        ensures
            r@ == below(self.dir@, "out.jsonl"@),
    {
        join_path(self.dir.as_str(), "out.jsonl")
    }

    /// The stored failures.
    pub fn dead_path(&self) -> (r: String)
        ensures
            r@ == below(self.dir@, "out.jsonl.dead.jsonl"@),
    {
        join_path(self.dir.as_str(), "out.jsonl.dead.jsonl")
    }

    /// The successes in the shape of the API.
    pub fn output_reshaped_path(&self) -> (r: String)
        ensures
            r@ == below(self.dir@, "output.reshaped.jsonl"@),
    {
        join_path(self.dir.as_str(), "output.reshaped.jsonl")
    }

    /// The failures in the shape of the API.
    pub fn error_reshaped_path(&self) -> (r: String)
        ensures
            r@ == below(self.dir@, "error.reshaped.jsonl"@),
    {
        join_path(self.dir.as_str(), "error.reshaped.jsonl")
    }
}

/// The batches and files that the front door knows.
pub struct Registry {
    batches: Table<BatchEntry>,
    files: Table<FileRecord>,
}

/// A file of results that was written: its size, its place, and the id it is to have.
pub struct Minted {
    pub id: String,
    pub bytes: u64,
    pub path: String,
}

/// The record of a minted file.
pub open spec fn minted_record(m: Minted, batch_id: Seq<char>, kind: FileKind, now: i64) -> FileRecordView {
    FileRecordView {
        id: m.id@,
        filename: batch_id + "_"@ + kind_suffix(kind) + ".jsonl"@,
        bytes: m.bytes,
        created_at: now,
        purpose: kind_purpose(kind),
        path: m.path@,
        kind,
    }
}

/// The id under which a file of results is minted; none for a file that is missing or
/// empty.
pub open spec fn minted_id(m: Option<Minted>) -> Option<Seq<char>> {
    match m {
        Some(x) => if x.bytes > 0 {
            Some(x.id@)
        } else {
            None
        },
        None => None,
    }
}

/// The view of a file record that may be missing.
pub open spec fn file_view(f: Option<FileRecord>) -> Option<FileRecordView> {
    match f {
        Some(x) => Some(x@),
        None => None,
    }
}

/// The view of a batch that may be missing.
pub open spec fn entry_view(e: Option<BatchEntry>) -> Option<BatchEntryView> {
    match e {
        Some(x) => Some(x@),
        None => None,
    }
}

/// Why a batch is not created: the body is not what is asked for, or names no file.
/// `parsed` is the body read as JSON.
pub open spec fn create_refusal(
    parsed: Result<JsonView, Seq<char>>,
    known: spec_fn(Seq<char>) -> bool,
) -> Option<(u16, Seq<char>)> {
    match parsed {
        Err(e) => Some((400u16, "bad request body: "@ + e)),
        Ok(j) => match create_request_of(j) {
            None => Some((400u16, "bad request body: "@ + "not a batch request"@)),
            Some(r) => if known(r.input_file_id) {
                None
            } else {
                Some((404u16, "no such input_file_id: "@ + r.input_file_id))
            },
        },
    }
}

/// A batch that is just created.
pub open spec fn created(
    id: Seq<char>,
    request: crate::openai::CreateBatchView,
    now: i64,
) -> BatchRecordView {
    BatchRecordView {
        id,
        endpoint: request.endpoint,
        input_file_id: request.input_file_id,
        completion_window: match request.completion_window {
            Some(w) => w,
            None => "24h"@,
        },
        status: "in_progress"@,
        created_at: now,
        in_progress_at: Some(now),
        completed_at: None,
        cancelled_at: None,
        output_file_id: None,
        error_file_id: None,
    }
}

/// A batch left in progress by a process that is gone, whose queue is drained, is really
/// finished. One that was never hydrated is not.
pub open spec fn finished_unseen(e: BatchEntryView, counts: Option<QueueCounts>) -> bool {
    in_progress(e.record) && !e.running && (counts matches Some(c) && c.sum() > 0 && c.pending == 0
        && c.leased == 0)
}

impl Registry {
    /// The batch with an id.
    pub closed spec fn spec_batch(self, id: Seq<char>) -> Option<BatchEntryView> {
        entry_view(self.batches.at(id))
    }

    /// The file with an id.
    pub closed spec fn spec_file(self, id: Seq<char>) -> Option<FileRecordView> {
        file_view(self.files.at(id))
    }

    /// How many batches there are: the number of ids with a batch.
    pub open spec fn spec_batch_count(self) -> nat {
        Set::new(|id: Seq<char>| self.spec_batch(id) is Some).len()
    }

    /// The table has as many keys as there are batches.
    proof fn lemma_batch_count(self)
        ensures
            self.spec_batch_count() == self.batches.spec_len(),
    {
        assert(Set::new(|id: Seq<char>| self.spec_batch(id) is Some) =~= self.batches.spec_keys());
    }

    /// Where the same ids have a batch, there are as many.
    proof fn lemma_same_count(self, other: Registry)
        requires
            forall|id: Seq<char>|
                (#[trigger] self.spec_batch(id)) is Some <==> other.spec_batch(id) is Some,
        ensures
            self.spec_batch_count() == other.spec_batch_count(),
    {
        assert(Set::new(|id: Seq<char>| self.spec_batch(id) is Some) =~= Set::new(
            |id: Seq<char>| other.spec_batch(id) is Some,
        ));
    }

    /// A registry that knows nothing.
    pub fn new() -> (r: Self)
        ensures
            forall|id: Seq<char>| (#[trigger] r.spec_batch(id)) is None,
            forall|id: Seq<char>| (#[trigger] r.spec_file(id)) is None,
            r.spec_batch_count() == 0,
    {
        let r: Registry = Registry { batches: Table::new(), files: Table::new() };
        proof {
            r.lemma_batch_count();
        }
        r
    }

    /// How many batches there are.
    pub fn batch_count(&self) -> (n: usize)
        ensures
            n == self.spec_batch_count(),
    {
        proof {
            self.lemma_batch_count();
        }
        self.batches.len()
    }

    /// The batch with an id.
    pub fn batch(&self, id: &str) -> (r: Option<&BatchEntry>)
        ensures
            match r {
                Some(e) => self.spec_batch(id@) == Some(e@),
                None => self.spec_batch(id@) is None,
            },
    {
        self.batches.get(id)
    }

    /// The file with an id.
    pub fn file(&self, id: &str) -> (r: Option<&FileRecord>)
        ensures
            match r {
                Some(f) => self.spec_file(id@) == Some(f@),
                None => self.spec_file(id@) is None,
            },
    {
        self.files.get(id)
    }

    /// The ids of the batches, each once.
    pub fn batch_ids(&self) -> (r: Vec<String>)
        ensures
            views(r@).no_duplicates(),
            forall|id: Seq<char>| #[trigger]
                views(r@).contains(id) <==> self.spec_batch(id) is Some,
    {
        self.batches.keys()
    }

    /// The ids of the files, each once.
    pub fn file_ids(&self) -> (r: Vec<String>)
        ensures
            views(r@).no_duplicates(),
            forall|id: Seq<char>| #[trigger] views(r@).contains(id) <==> self.spec_file(id) is Some,
    {
        self.files.keys()
    }

    /// Takes in a file, under its id.
    pub fn add_file(&mut self, record: FileRecord)
        ensures
            forall|id: Seq<char>| #[trigger]
                final(self).spec_file(id) == if id == record.id@ {
                    Some(record@)
                } else {
                    old(self).spec_file(id)
                },
            forall|id: Seq<char>| #[trigger]
                final(self).spec_batch(id) == old(self).spec_batch(id),
            final(self).spec_batch_count() == old(self).spec_batch_count(),
    {
        let id: String = record.id.as_str().to_owned();
        self.files.insert(id.as_str(), record);
        proof {
            self.lemma_same_count(*old(self));
        }
    }

    /// Takes in a batch that an earlier process left behind.
    pub fn load_batch(&mut self, record: BatchRecord, dir: &str)
        ensures
            forall|id: Seq<char>| #[trigger]
                final(self).spec_batch(id) == if id == record.id@ {
                    Some(
                        BatchEntryView {
                            record: record@,
                            dir: dir@,
                            running: false,
                            cancel: false,
                        },
                    )
                } else {
                    old(self).spec_batch(id)
                },
            forall|id: Seq<char>| #[trigger] final(self).spec_file(id) == old(self).spec_file(id),
            final(self).spec_batch_count() == old(self).spec_batch_count() + if old(
                self,
            ).spec_batch(record.id@) is Some {
                0nat
            } else {
                1nat
            },
    {
        proof {
            self.lemma_batch_count();
        }
        let id: String = record.id.as_str().to_owned();
        self.batches.insert(
            id.as_str(),
            BatchEntry { record, dir: dir.to_owned(), running: false, cancel: false },
        );
        proof {
            self.lemma_batch_count();
        }
    }

    /// Takes in an upload under a fresh id.
    pub fn add_upload(&mut self, id: &str, filename: Option<String>, bytes: u64, now: i64, path: &str) -> (o:
        FileObject)
        ensures
            ({
                let record = FileRecordView {
                    id: id@,
                    filename: match opt_view(filename) {
                        Some(n) => n,
                        None => "batch.jsonl"@,
                    },
                    bytes,
                    created_at: now,
                    purpose: "batch"@,
                    path: path@,
                    kind: FileKind::Input,
                };
                &&& is_file_object(o, record)
                &&& forall|x: Seq<char>| #[trigger]
                    final(self).spec_file(x) == if x == id@ {
                        Some(record)
                    } else {
                        old(self).spec_file(x)
                    }
            }),
            forall|x: Seq<char>| #[trigger] final(self).spec_batch(x) == old(self).spec_batch(x),
            final(self).spec_batch_count() == old(self).spec_batch_count(),
    {
        let record: FileRecord = FileRecord {
            id: id.to_owned(),
            filename: match filename {
                Some(n) => n,
                None => "batch.jsonl".to_owned(),
            },
            bytes,
            created_at: now,
            purpose: "batch".to_owned(),
            path: path.to_owned(),
            kind: FileKind::Input,
        };
        let object: FileObject = record.to_object();
        self.add_file(record);
        object
    }

    /// What a request to create a batch asks for, and where its input is; or the status
    /// and message of the refusal. `parsed` is its body read as JSON.
    pub fn plan_parsed(&self, parsed: Result<Json, String>) -> (r: Result<
        (CreateBatchRequest, String),
        (u16, String),
    >)
        ensures
            match r {
                Ok((request, path)) => {
                    &&& create_refusal(
                        parse_view(parsed),
                        |id: Seq<char>| self.spec_file(id) is Some,
                    ) is None
                    &&& parsed is Ok && create_request_of(parsed->Ok_0@) == Some(request@)
                    &&& self.spec_file(request.input_file_id@) is Some
                    &&& path@ == self.spec_file(request.input_file_id@)->0.path
                },
                Err((code, msg)) => create_refusal(
                    parse_view(parsed),
                    |id: Seq<char>| self.spec_file(id) is Some,
                ) == Some((code, msg@)),
            },
    {
        let j: Json = match parsed {
            Ok(j) => j,
            Err(e) => {
                return Err((400, concat2("bad request body: ", e.as_str())));
            },
        };
        let request: CreateBatchRequest = match CreateBatchRequest::from_json(&j) {
            Some(x) => x,
            None => {
                return Err((400, concat2("bad request body: ", "not a batch request")));
            },
        };
        match self.files.get(request.input_file_id.as_str()) {
            Some(f) => {
                let path: String = f.path.as_str().to_owned();
                Ok((request, path))
            },
            None => Err((404, concat2("no such input_file_id: ", request.input_file_id.as_str()))),
        }
    }

    /// What a request to create a batch asks for, and where its input is; or the status
    /// and message of the refusal.
    pub fn plan_batch(&self, body: &str) -> (r: Result<(CreateBatchRequest, String), (u16, String)>)
        ensures
            match r {
                Ok((request, path)) => {
                    &&& json_parse(body@) is Ok
                    &&& create_request_of(json_parse(body@)->Ok_0) == Some(request@)
                    &&& self.spec_file(request.input_file_id@) is Some
                    &&& path@ == self.spec_file(request.input_file_id@)->0.path
                },
                Err((code, msg)) => create_refusal(
                    json_parse(body@),
                    |id: Seq<char>| self.spec_file(id) is Some,
                ) == Some((code, msg@)),
            },
    {
        self.plan_parsed(parse_json(body))
    }

    /// Creates a batch under a fresh id, in progress from now on.
    pub fn start_batch(&mut self, id: &str, dir: &str, request: &CreateBatchRequest, now: i64) -> (o:
        BatchObject)
        ensures
            is_batch_object(o, created(id@, request@, now), no_requests()),
            forall|x: Seq<char>| #[trigger]
                final(self).spec_batch(x) == if x == id@ {
                    Some(
                        BatchEntryView {
                            record: created(id@, request@, now),
                            dir: dir@,
                            running: true,
                            cancel: false,
                        },
                    )
                } else {
                    old(self).spec_batch(x)
                },
            forall|x: Seq<char>| #[trigger] final(self).spec_file(x) == old(self).spec_file(x),
            final(self).spec_batch_count() == old(self).spec_batch_count() + if old(
                self,
            ).spec_batch(id@) is Some {
                0nat
            } else {
                1nat
            },
    {
        proof {
            self.lemma_batch_count();
        }
        let record: BatchRecord = BatchRecord {
            id: id.to_owned(),
            endpoint: request.endpoint.as_str().to_owned(),
            input_file_id: request.input_file_id.as_str().to_owned(),
            completion_window: match &request.completion_window {
                Some(w) => w.as_str().to_owned(),
                None => "24h".to_owned(),
            },
            status: "in_progress".to_owned(),
            created_at: now,
            in_progress_at: Some(now),
            completed_at: None,
            cancelled_at: None,
            output_file_id: None,
            error_file_id: None,
        };
        let object: BatchObject = record_to_object(&record, RequestCounts::default());
        self.batches.insert(
            id,
            BatchEntry { record, dir: dir.to_owned(), running: true, cancel: false },
        );
        proof {
            self.lemma_batch_count();
        }
        object
    }

    /// Forgets a batch whose run could not be started.
    pub fn abandon_batch(&mut self, id: &str)
        ensures
            forall|x: Seq<char>| #[trigger]
                final(self).spec_batch(x) == if x == id@ {
                    None
                } else {
                    old(self).spec_batch(x)
                },
            forall|x: Seq<char>| #[trigger] final(self).spec_file(x) == old(self).spec_file(x),
            old(self).spec_batch_count() == final(self).spec_batch_count() + if old(
                self,
            ).spec_batch(id@) is Some {
                1nat
            } else {
                0nat
            },
    {
        proof {
            self.lemma_batch_count();
        }
        let _ = self.batches.remove(id);
        proof {
            self.lemma_batch_count();
        }
    }

    /// Whether a batch is known and in progress.
    pub fn is_in_progress(&self, id: &str) -> (r: bool)
        ensures
            r == (self.spec_batch(id@) is Some && in_progress(self.spec_batch(id@)->0.record)),
    {
        match self.batches.get(id) {
            Some(e) => str_eq(e.record.status.as_str(), "in_progress"),
            None => false,
        }
    }

    /// Registers a file of results; none where there is nothing in it.
    fn mint_result_file(&mut self, m: Option<Minted>, batch_id: &str, kind: FileKind, now: i64) -> (id:
        Option<String>)
        ensures
            opt_view(id) == minted_id(m),
            forall|x: Seq<char>| #[trigger]
                final(self).spec_file(x) == if minted_id(m) == Some(x) {
                    Some(minted_record(m->0, batch_id@, kind, now))
                } else {
                    old(self).spec_file(x)
                },
            forall|x: Seq<char>| #[trigger] final(self).spec_batch(x) == old(self).spec_batch(x),
    {
        match m {
            Some(x) => {
                if x.bytes == 0 {
                    return None;
                }
                let id: String = x.id.as_str().to_owned();
                let stem: String = concat3(batch_id, "_", kind.suffix());
                self.add_file(
                    FileRecord {
                        id: x.id,
                        filename: concat2(stem.as_str(), ".jsonl"),
                        bytes: x.bytes,
                        created_at: now,
                        purpose: kind.purpose().to_owned(),
                        path: x.path,
                        kind,
                    },
                );
                Some(id)
            },
            None => None,
        }
    }

    /// Closes a batch as complete, with the files of its results. Does nothing to a batch
    /// that is closed or not known. Says whether it did.
    pub fn finalize_completed(
        &mut self,
        id: &str,
        now: i64,
        output: Option<Minted>,
        error: Option<Minted>,
    ) -> (r: bool)
        ensures
            r == (old(self).spec_batch(id@) is Some && in_progress(
                old(self).spec_batch(id@)->0.record,
            )),
            forall|x: Seq<char>| #[trigger]
                final(self).spec_batch(x) == if r && x == id@ {
                    Some(
                        BatchEntryView {
                            record: completed(
                                old(self).spec_batch(x)->0.record,
                                now,
                                minted_id(output),
                                minted_id(error),
                            ),
                            ..old(self).spec_batch(x)->0
                        },
                    )
                } else {
                    old(self).spec_batch(x)
                },
            forall|x: Seq<char>| #[trigger]
                final(self).spec_file(x) == if r && minted_id(error) == Some(x) {
                    Some(minted_record(error->0, id@, FileKind::Error, now))
                } else if r && minted_id(output) == Some(x) {
                    Some(minted_record(output->0, id@, FileKind::Output, now))
                } else {
                    old(self).spec_file(x)
                },
    {
        if !self.is_in_progress(id) {
            return false;
        }
        let output_file_id: Option<String> = self.mint_result_file(
            output,
            id,
            FileKind::Output,
            now,
        );
        let ghost one = *self;
        let error_file_id: Option<String> = self.mint_result_file(error, id, FileKind::Error, now);
        let ghost two = *self;
        assert(one.spec_batch(id@) == old(self).spec_batch(id@));
        assert(two.spec_batch(id@) == one.spec_batch(id@));
        if let Some(entry) = self.batches.remove(id) {
            let mut e: BatchEntry = entry;
            e.record.status = "completed".to_owned();
            e.record.completed_at = Some(now);
            e.record.output_file_id = output_file_id;
            e.record.error_file_id = error_file_id;
            self.batches.insert(id, e);
        }
        proof {
            assert forall|x: Seq<char>| #[trigger] self.spec_batch(x) == if x == id@ {
                Some(
                    BatchEntryView {
                        record: completed(
                            old(self).spec_batch(x)->0.record,
                            now,
                            minted_id(output),
                            minted_id(error),
                        ),
                        ..old(self).spec_batch(x)->0
                    },
                )
            } else {
                old(self).spec_batch(x)
            } by {
                assert(one.spec_batch(x) == old(self).spec_batch(x));
                assert(two.spec_batch(x) == one.spec_batch(x));
            }
            assert forall|x: Seq<char>| #[trigger] self.spec_file(x) == if minted_id(error) == Some(
                x,
            ) {
                Some(minted_record(error->0, id@, FileKind::Error, now))
            } else if minted_id(output) == Some(x) {
                Some(minted_record(output->0, id@, FileKind::Output, now))
            } else {
                old(self).spec_file(x)
            } by {
                assert(self.spec_file(x) == two.spec_file(x));
                assert(one.spec_file(x) == one.spec_file(x));
            }
        }
        true
    }

    /// Closes a batch as failed. Does nothing to a batch that is closed or not known.
    /// Says whether it did.
    pub fn finalize_failed(&mut self, id: &str, now: i64) -> (r: bool)
        ensures
            r == (old(self).spec_batch(id@) is Some && in_progress(
                old(self).spec_batch(id@)->0.record,
            )),
            forall|x: Seq<char>| #[trigger]
                final(self).spec_batch(x) == if r && x == id@ {
                    Some(
                        BatchEntryView {
                            record: failed(old(self).spec_batch(x)->0.record, now),
                            ..old(self).spec_batch(x)->0
                        },
                    )
                } else {
                    old(self).spec_batch(x)
                },
            forall|x: Seq<char>| #[trigger] final(self).spec_file(x) == old(self).spec_file(x),
    {
        if !self.is_in_progress(id) {
            return false;
        }
        if let Some(entry) = self.batches.remove(id) {
            let mut e: BatchEntry = entry;
            e.record.status = "failed".to_owned();
            e.record.completed_at = Some(now);
            self.batches.insert(id, e);
        }
        true
    }

    /// Cancels a batch: its run is to stop, and it is closed at once. Does nothing to a
    /// batch that is closed. Says whether it did; nothing for a batch that is not known.
    pub fn cancel_batch(&mut self, id: &str, now: i64) -> (r: Option<bool>)
        ensures
            match r {
                None => old(self).spec_batch(id@) is None,
                Some(did) => old(self).spec_batch(id@) is Some && did == in_progress(
                    old(self).spec_batch(id@)->0.record,
                ),
            },
            forall|x: Seq<char>| #[trigger]
                final(self).spec_batch(x) == if r == Some(true) && x == id@ {
                    Some(
                        BatchEntryView {
                            record: cancelled(old(self).spec_batch(x)->0.record, now),
                            cancel: true,
                            ..old(self).spec_batch(x)->0
                        },
                    )
                } else {
                    old(self).spec_batch(x)
                },
            forall|x: Seq<char>| #[trigger] final(self).spec_file(x) == old(self).spec_file(x),
    {
        if self.batches.get(id).is_none() {
            return None;
        }
        if !self.is_in_progress(id) {
            return Some(false);
        }
        if let Some(entry) = self.batches.remove(id) {
            let mut e: BatchEntry = entry;
            e.cancel = true;
            e.record.status = "cancelled".to_owned();
            e.record.cancelled_at = Some(now);
            self.batches.insert(id, e);
        }
        Some(true)
    }

    /// Whether a read finds that the batch has finished unseen.
    pub fn finished_on_read(&self, id: &str, counts: Option<QueueCounts>) -> (r: bool)
        requires
            counts_fit(counts),
        ensures
            r == (self.spec_batch(id@) is Some && finished_unseen(
                self.spec_batch(id@)->0,
                counts,
            )),
    {
        match (self.batches.get(id), counts) {
            (Some(e), Some(c)) => str_eq(e.record.status.as_str(), "in_progress") && !e.running
                && c.total() > 0 && c.is_drained(),
            _ => false,
        }
    }

    /// The batch object of a batch with its progress.
    pub fn batch_object(&self, id: &str, counts: Option<QueueCounts>) -> (r: Option<BatchObject>)
        requires
            counts_fit(counts),
        ensures
            match r {
                Some(o) => self.spec_batch(id@) is Some && is_batch_object(
                    o,
                    self.spec_batch(id@)->0.record,
                    progress_of(counts),
                ),
                None => self.spec_batch(id@) is None,
            },
    {
        match self.batches.get(id) {
            Some(e) => Some(record_to_object(&e.record, request_counts(counts))),
            None => None,
        }
    }
}

/// A fresh id with a prefix.
pub open spec fn is_fresh_id(id: Seq<char>, prefix: Seq<char>) -> bool {
    exists|h: Seq<char>| #[trigger] crate::openai::is_hex_of(h, 12) && id == prefix + h
}

/// A fresh id for a file.
pub fn new_file_id() -> (id: String)
    ensures
        is_fresh_id(id@, "file-"@),
{
    let h: String = crate::openai::rand_hex(12);
    concat2("file-", h.as_str())
}

/// A fresh id for a batch.
pub fn new_batch_id() -> (id: String)
    ensures
        is_fresh_id(id@, "batch-"@),
{
    let h: String = crate::openai::rand_hex(12);
    concat2("batch-", h.as_str())
}

/// The answer to a question for liveness.
pub open spec fn health_json(batches: u64) -> JsonView {
    JsonView::Object(
        seq![
            ("batches"@, JsonView::Number(NumberView::Unsigned(batches))),
            ("status"@, JsonView::Text("ok"@)),
        ],
    )
}

/// The answer to a question for liveness.
pub fn health_text(batches: u64) -> (text: String)
    ensures
        text@ == crate::json::json_text(health_json(batches)),
{
    let members: Vec<(String, Json)> = vec![
        ("batches".to_owned(), count_value(batches)),
        ("status".to_owned(), text_value("ok")),
    ];
    proof {
        reveal_strlit("batches");
        reveal_strlit("status");
        lemma_object_view(members);
        let m = health_json(batches)->Object_0;
        assert(members_view(members@) == m);
        assert("batches"@[0] == 'b' && "status"@[0] == 's');
        assert(names_ascend(m));
        assert forall|i: int| 0 <= i < m.len() implies canonical((#[trigger] m[i]).1) by {}
    }
    crate::json::render_json(&Json::Object(members))
}

/// No batch is followed by a newer one.
pub open spec fn newest_come_first(data: Seq<BatchObject>) -> bool {
    forall|i: int, j: int|
        0 <= i < j < data.len() ==> (#[trigger] data[i]).created_at >= (#[trigger] data[
            j]).created_at
}

/// The batches, the newest first.
pub fn newest_first(data: Vec<BatchObject>) -> (r: Vec<BatchObject>)
    ensures
        newest_come_first(r@),
        r@.to_multiset() == data@.to_multiset(),
{
    let ghost all = data@;
    let mut out: Vec<BatchObject> = Vec::new();
    assert(all.take(0) == out@);
    for b in it: data
        invariant
            it.seq() == all,
            newest_come_first(out@),
            out@.to_multiset() == all.take(it.index()).to_multiset(),
    {
        let ghost k = it.index();
        let ghost before = out@;
        let n: usize = out.len();
        let mut i: usize = n;
        while i > 0 && out[i - 1].created_at < b.created_at
            invariant
                i <= n,
                n == out@.len(),
                forall|j: int| i <= j < n ==> (#[trigger] out@[j]).created_at < b.created_at,
            decreases i,
        {
            i = i - 1;
        }
        out.insert(i, b);
        proof {
            assert(out@ == before.insert(i as int, b));
            assert forall|x: int, y: int| 0 <= x < y < out@.len() implies (
            #[trigger] out@[x]).created_at >= (#[trigger] out@[y]).created_at by {
                let px = if x < i { x } else { x - 1 };
                let py = if y < i { y } else { y - 1 };
                if x != i {
                    assert(out@[x] == before[px]);
                }
                if y != i {
                    assert(out@[y] == before[py]);
                }
                if y == i && x < i - 1 {
                    assert(before[px].created_at >= before[i - 1].created_at);
                }
            }
            assert(all.take(k + 1) == all.take(k).push(all[k]));
            vstd::seq_lib::to_multiset_build(all.take(k), all[k]);
            vstd::seq_lib::to_multiset_insert(before, i as int, b);
        }
    }
    assert(all.take(all.len() as int) == all);
    out
}

/// The stored line has an output line.
pub open spec fn has_output(line: Seq<char>) -> bool {
    trim(line).len() > 0 && json_parse(line) is Ok && json_parse(line)->Ok_0.str_at("custom_id"@)
        is Some
}

/// The output lines are those of the stored lines that have one, in order.
pub open spec fn outputs_of(lines: Seq<Seq<char>>, outs: Seq<crate::openai::OutputLineView>) -> bool
    decreases lines.len(),
{
    if lines.len() == 0 {
        outs.len() == 0
    } else if has_output(lines.last()) {
        outs.len() > 0 && outputs_of(lines.drop_last(), outs.drop_last())
            && crate::openai::is_reshaped(json_parse(lines.last())->Ok_0, outs.last())
    } else {
        outputs_of(lines.drop_last(), outs)
    }
}

/// The text of output lines, each with its line end.
pub open spec fn output_text(outs: Seq<crate::openai::OutputLineView>) -> Seq<char>
    decreases outs.len(),
{
    if outs.len() == 0 {
        Seq::empty()
    } else {
        output_text(outs.drop_last()) + crate::json::json_text(
            crate::openai::output_json(outs.last()),
        ) + seq!['\n']
    }
}

/// The text is that of the output lines of the stored lines.
pub open spec fn is_output_text(lines: Seq<Seq<char>>, text: Seq<char>) -> bool {
    exists|outs: Seq<crate::openai::OutputLineView>| #[trigger]
        outputs_of(lines, outs) && text == output_text(outs)
}

/// No stored line has an output line.
pub open spec fn no_outputs(lines: Seq<Seq<char>>) -> bool {
    forall|i: int| 0 <= i < lines.len() ==> !has_output(#[trigger] lines[i])
}

/// The output file of stored lines; none where no line has an output. It is made once,
/// since the ids in it are drawn at random.
pub fn reshape_results_once(lines: &[String]) -> (r: Option<String>)
    ensures
        match r {
            Some(text) => is_output_text(views(lines@), text@) && !no_outputs(views(lines@)),
            None => no_outputs(views(lines@)),
        },
{
    let ghost all = views(lines@);
    let ghost mut outs: Seq<crate::openai::OutputLineView> = Seq::empty();
    let mut text: String = String::new();
    let mut any: bool = false;
    let mut i: usize = 0;
    assert(all.take(0) == Seq::<Seq<char>>::empty());
    while i < lines.len()
        invariant
            i <= lines@.len(),
            all == views(lines@),
            outputs_of(all.take(i as int), outs),
            text@ == output_text(outs),
            any == !no_outputs(all.take(i as int)),
        decreases lines@.len() - i,
    {
        let line: &str = lines[i].as_str();
        proof {
            assert(all.take(i + 1).drop_last() == all.take(i as int));
            assert(all.take(i + 1).last() == line@);
        }
        let reshaped: Option<OutputLine> = if is_blank(line) {
            None
        } else {
            reshape_result_line(line)
        };
        assert(reshaped is Some <==> has_output(line@));
        match reshaped {
            Some(o) => {
                let t: String = o.to_text();
                let ghost before = text@;
                text.append(t.as_str());
                text.push('\n');
                proof {
                    let next = outs.push(o@);
                    assert(next.drop_last() == outs);
                    assert(text@ == before + t@ + seq!['\n']);
                    outs = next;
                    assert(has_output(all.take(i + 1)[i as int]));
                }
                any = true;
            },
            None => {
                proof {
                    if !no_outputs(all.take(i as int)) {
                        let k = choose|k: int|
                            0 <= k < all.take(i as int).len() && has_output(
                                #[trigger] all.take(i as int)[k],
                            );
                        assert(all.take(i + 1)[k] == all.take(i as int)[k]);
                    } else {
                        assert forall|k: int| 0 <= k < all.take(i + 1).len() implies !has_output(
                            #[trigger] all.take(i + 1)[k],
                        ) by {
                            if k < i {
                                assert(all.take(i + 1)[k] == all.take(i as int)[k]);
                            }
                        }
                    }
                }
            },
        }
        i = i + 1;
    }
    assert(all.take(all.len() as int) == all);
    if any {
        Some(text)
    } else {
        None
    }
}

/// The progress of a batch counts its requests as they stand in its queue: the done ones
/// completed, the dead ones failed, and every one in the total. Once nothing waits and
/// nothing is in flight, all of them are one or the other.
pub proof fn law_progress_counts_the_queue(counts: Option<QueueCounts>, r: RequestCounts)
    requires
        counts_fit(counts),
        call_ensures(request_counts, (counts,), r),
    ensures
        counts matches Some(c) ==> r.completed == c.done && r.failed == c.dead && r.total == c.pending
            + c.leased + c.done + c.dead,
        counts matches Some(c) ==> c.pending == 0 && c.leased == 0 ==> r.total == r.completed
            + r.failed,
        counts is None ==> r.total == 0 && r.completed == 0 && r.failed == 0,
{
}

/// A batch is shown as it is kept, with the progress of its queue.
pub proof fn law_batches_are_shown_as_kept(
    reg: &Registry,
    id: &str,
    counts: Option<QueueCounts>,
    r: Option<BatchObject>,
)
    requires
        counts_fit(counts),
        call_ensures(Registry::batch_object, (reg, id, counts), r),
    ensures
        r is Some <==> reg.spec_batch(id@) is Some,
        r matches Some(o) ==> ({
            let kept = reg.spec_batch(id@)->0.record;
            &&& o.id@ == kept.id
            &&& o.object@ == "batch"@
            &&& o.endpoint@ == kept.endpoint
            &&& o.input_file_id@ == kept.input_file_id
            &&& o.completion_window@ == kept.completion_window
            &&& o.status@ == kept.status
            &&& opt_view(o.output_file_id) == kept.output_file_id
            &&& opt_view(o.error_file_id) == kept.error_file_id
            &&& o.created_at == kept.created_at
            &&& o.in_progress_at == kept.in_progress_at
            &&& o.completed_at == kept.completed_at
            &&& o.cancelled_at == kept.cancelled_at
        }),
        r matches Some(o) ==> counts matches Some(c) ==> o.request_counts.completed == c.done
            && o.request_counts.failed == c.dead && o.request_counts.total == c.pending + c.leased
            + c.done + c.dead,
        r matches Some(o) ==> counts is None ==> o.request_counts.completed == 0
            && o.request_counts.failed == 0 && o.request_counts.total == 0,
{
}

/// A batch that is created is in progress from that instant, for the file, endpoint and
/// window that were asked for, under the id it is answered with; nothing else changes.
pub proof fn law_created_batches_are_in_progress(
    before: Registry,
    after: Registry,
    id: &str,
    dir: &str,
    request: &CreateBatchRequest,
    now: i64,
    o: BatchObject,
)
    requires
        exists|m: &mut Registry|
            *m == before && *final(m) == after && #[trigger] call_ensures(
                Registry::start_batch,
                (m, id, dir, request, now),
                o,
            ),
    ensures
        after.spec_batch(id@) matches Some(e) && e.record.id == id@ && e.record.endpoint
            == request.endpoint@ && e.record.input_file_id == request.input_file_id@
            && e.record.status == "in_progress"@ && e.record.created_at == now
            && e.record.in_progress_at == Some(now) && e.record.completed_at is None
            && e.record.cancelled_at is None && e.record.output_file_id is None
            && e.record.error_file_id is None && e.dir == dir@ && e.running && !e.cancel
            && e.record.completion_window == match request.completion_window {
            Some(w) => w@,
            None => "24h"@,
        },
        o.id@ == id@,
        o.object@ == "batch"@,
        o.status@ == "in_progress"@,
        o.endpoint@ == request.endpoint@,
        o.input_file_id@ == request.input_file_id@,
        o.created_at == now,
        o.in_progress_at == Some(now),
        o.completed_at is None,
        o.output_file_id is None,
        o.request_counts.total == 0,
        forall|x: Seq<char>| x != id@ ==> #[trigger] after.spec_batch(x) == before.spec_batch(x),
        forall|x: Seq<char>| #[trigger] after.spec_file(x) == before.spec_file(x),
{
}

/// A batch is planned just for a body that names a file that is known, which is then its
/// input; a body that cannot be read is a bad request, and an unknown file is not found.
pub proof fn law_batches_need_a_known_file(
    reg: &Registry,
    parsed: Result<Json, String>,
    r: Result<(CreateBatchRequest, String), (u16, String)>,
)
    requires
        call_ensures(Registry::plan_parsed, (reg, parsed), r),
    ensures
        parsed is Err ==> r matches Err((400, _)),
        r matches Ok((request, path)) ==> (reg.spec_file(request.input_file_id@) matches Some(f)
            && path@ == f.path),
        parsed is Ok && parsed->Ok_0@ is Object ==> ({
            let j = parsed->Ok_0@;
            let file = j.str_at("input_file_id"@);
            &&& file is None || j.str_at("endpoint"@) is None ==> (r matches Err((400, _)))
            &&& r is Ok ==> file == Some(r->Ok_0.0.input_file_id@) && j.str_at("endpoint"@) == Some(
                r->Ok_0.0.endpoint@,
            )
            &&& file is Some && j.str_at("endpoint"@) is Some && j.get("completion_window"@) is None
                ==> (r is Ok <==> reg.spec_file(file->0) is Some)
            &&& file is Some && j.str_at("endpoint"@) is Some && j.get("completion_window"@) is None
                && r is Err ==> (r matches Err((404, _)))
        }),
{
}

/// A batch in progress that finishes is complete from that instant, with the file of its
/// successes and that of its failures, each where there is anything in it. Any other batch
/// stays as it is.
pub proof fn law_finished_batches_are_complete(
    before: Registry,
    after: Registry,
    id: &str,
    now: i64,
    output: Option<Minted>,
    error: Option<Minted>,
    r: bool,
)
    requires
        exists|m: &mut Registry|
            *m == before && *final(m) == after && #[trigger] call_ensures(
                Registry::finalize_completed,
                (m, id, now, output, error),
                r,
            ),
    ensures
        r <==> (before.spec_batch(id@) matches Some(e) && e.record.status == "in_progress"@),
        !r ==> (forall|x: Seq<char>| #[trigger] after.spec_batch(x) == before.spec_batch(x)),
        forall|x: Seq<char>| x != id@ ==> #[trigger] after.spec_batch(x) == before.spec_batch(x),
        r ==> ({
            let old = before.spec_batch(id@)->0;
            let new = after.spec_batch(id@)->0;
            &&& after.spec_batch(id@) is Some
            &&& new.record.status == "completed"@
            &&& new.record.completed_at == Some(now)
            &&& new.record.cancelled_at == old.record.cancelled_at
            &&& new.record.id == old.record.id
            &&& new.record.input_file_id == old.record.input_file_id
            &&& new.record.endpoint == old.record.endpoint
            &&& new.record.created_at == old.record.created_at
            &&& new.dir == old.dir
            &&& new.record.output_file_id is Some <==> output is Some && output->0.bytes > 0
            &&& new.record.error_file_id is Some <==> error is Some && error->0.bytes > 0
            &&& new.record.output_file_id is Some ==> new.record.output_file_id == Some(
                output->0.id@,
            )
            &&& new.record.error_file_id is Some ==> new.record.error_file_id == Some(error->0.id@)
        }),
        r && output is Some && output->0.bytes > 0 && (error is Some ==> error->0.id@
            != output->0.id@) ==> (after.spec_file(output->0.id@) matches Some(f) && f.path
            == output->0.path@ && f.bytes == output->0.bytes && f.kind == FileKind::Output && f.purpose
            == "batch_output"@ && f.created_at == now && f.id == output->0.id@),
        r && error is Some && error->0.bytes > 0 ==> (after.spec_file(error->0.id@) matches Some(f)
            && f.path == error->0.path@ && f.bytes == error->0.bytes && f.kind == FileKind::Error
            && f.purpose == "batch_error"@ && f.created_at == now && f.id == error->0.id@),
{
}

/// A batch in progress whose run fails is failed from that instant, and one that is
/// cancelled is cancelled and its run told to stop. Any other batch stays as it is.
pub proof fn law_failed_and_cancelled_batches_say_so(
    before: Registry,
    failed: Registry,
    cancelled: Registry,
    id: &str,
    now: i64,
    r: bool,
    c: Option<bool>,
)
    requires
        exists|m: &mut Registry|
            *m == before && *final(m) == failed && #[trigger] call_ensures(
                Registry::finalize_failed,
                (m, id, now),
                r,
            ),
        exists|m: &mut Registry|
            *m == before && *final(m) == cancelled && #[trigger] call_ensures(
                Registry::cancel_batch,
                (m, id, now),
                c,
            ),
    ensures
        r <==> (before.spec_batch(id@) matches Some(e) && e.record.status == "in_progress"@),
        c is None <==> before.spec_batch(id@) is None,
        c is Some ==> c == Some(r),
        !r ==> failed.spec_batch(id@) == before.spec_batch(id@),
        !r ==> cancelled.spec_batch(id@) == before.spec_batch(id@),
        r ==> ({
            let old = before.spec_batch(id@)->0;
            let f = failed.spec_batch(id@)->0;
            let x = cancelled.spec_batch(id@)->0;
            &&& failed.spec_batch(id@) is Some
            &&& f.record.status == "failed"@
            &&& f.record.completed_at == Some(now)
            &&& f.record.output_file_id == old.record.output_file_id
            &&& f.record.id == old.record.id
            &&& f.cancel == old.cancel
            &&& cancelled.spec_batch(id@) is Some
            &&& x.record.status == "cancelled"@
            &&& x.record.cancelled_at == Some(now)
            &&& x.record.completed_at == old.record.completed_at
            &&& x.record.id == old.record.id
            &&& x.cancel
        }),
        forall|x: Seq<char>| x != id@ ==> #[trigger] failed.spec_batch(x) == before.spec_batch(x),
        forall|x: Seq<char>| x != id@ ==> #[trigger] cancelled.spec_batch(x) == before.spec_batch(x),
{
}

/// A read finds a batch finished just where nobody runs it, it is still in progress, and
/// its queue held something of which nothing waits or is in flight.
pub proof fn law_reads_find_finished_batches(
    reg: &Registry,
    id: &str,
    counts: Option<QueueCounts>,
    r: bool,
)
    requires
        counts_fit(counts),
        call_ensures(Registry::finished_on_read, (reg, id, counts), r),
    ensures
        r <==> (reg.spec_batch(id@) matches Some(e) && !e.running && e.record.status
            == "in_progress"@ && (counts matches Some(c) && c.pending == 0 && c.leased == 0 && (c.done
            > 0 || c.dead > 0))),
{
}

/// An upload is kept under its id as an input, with its size, its place and the name it
/// was given, and is answered in the same words.
pub proof fn law_uploads_are_kept(
    before: Registry,
    after: Registry,
    id: &str,
    filename: Option<String>,
    bytes: u64,
    now: i64,
    path: &str,
    o: FileObject,
)
    requires
        exists|m: &mut Registry|
            *m == before && *final(m) == after && #[trigger] call_ensures(
                Registry::add_upload,
                (m, id, filename, bytes, now, path),
                o,
            ),
    ensures
        after.spec_file(id@) matches Some(f) && f.id == id@ && f.bytes == bytes && f.path == path@
            && f.created_at == now && f.kind == FileKind::Input && f.purpose == "batch"@ && f.filename
            == match filename {
            Some(n) => n@,
            None => "batch.jsonl"@,
        },
        o.id@ == id@,
        o.object@ == "file"@,
        o.bytes == bytes,
        o.created_at == now,
        o.purpose@ == "batch"@,
        filename matches Some(n) ==> o.filename@ == n@,
        forall|x: Seq<char>| x != id@ ==> #[trigger] after.spec_file(x) == before.spec_file(x),
        forall|x: Seq<char>| #[trigger] after.spec_batch(x) == before.spec_batch(x),
{
}

/// A file is shown as it is kept, and only a file of results has a content type.
pub proof fn law_files_are_shown_as_kept(f: &FileRecord, o: FileObject, t: Option<&'static str>)
    requires
        call_ensures(FileRecord::to_object, (f,), o),
        call_ensures(FileRecord::content_type, (f,), t),
    ensures
        o.id@ == f.id@,
        o.object@ == "file"@,
        o.bytes == f.bytes,
        o.created_at == f.created_at,
        o.filename@ == f.filename@,
        o.purpose@ == f.purpose@,
        f.kind == FileKind::Input ==> t is None,
        f.kind != FileKind::Input ==> (t matches Some(x) && x@ == "application/jsonl"@),
{
}

/// The kinds of files go by names, purposes and suffixes of their own.
pub proof fn law_kinds_of_files_are_told_apart(
    k: FileKind,
    name: &'static str,
    purpose: &'static str,
    suffix: &'static str,
    back: Option<FileKind>,
)
    requires
        call_ensures(FileKind::name, (k,), name),
        call_ensures(FileKind::purpose, (k,), purpose),
        call_ensures(FileKind::suffix, (k,), suffix),
        call_ensures(FileKind::from_name, (name,), back),
    ensures
        back == Some(k),
        name@ == "Input"@ <==> k == FileKind::Input,
        name@ == "Output"@ <==> k == FileKind::Output,
        name@ == "Error"@ <==> k == FileKind::Error,
        purpose@ == "batch"@ <==> k == FileKind::Input,
        purpose@ == "batch_output"@ <==> k == FileKind::Output,
        purpose@ == "batch_error"@ <==> k == FileKind::Error,
        suffix@ == "output"@ <==> k == FileKind::Output,
        suffix@ == "error"@ <==> k == FileKind::Error,
{
    reveal_strlit("Input");
    reveal_strlit("Output");
    reveal_strlit("Error");
    reveal_strlit("batch");
    reveal_strlit("batch_output");
    reveal_strlit("batch_error");
    reveal_strlit("input");
    reveal_strlit("output");
    reveal_strlit("error");
    assert("Input"@[0] == 'I' && "Output"@[0] == 'O' && "Error"@[0] == 'E');
    assert("batch"@.len() == 5 && "batch_output"@.len() == 12 && "batch_error"@.len() == 11);
    assert("input"@[0] == 'i' && "output"@[0] == 'o' && "error"@[0] == 'e');
}

/// Each file of a batch has a name of its own in the batch's directory.
pub proof fn law_files_of_a_batch_are_apart(
    e: &BatchEntry,
    ckpt: String,
    out: String,
    dead: String,
    output: String,
    error: String,
)
    requires
        call_ensures(BatchEntry::ckpt_path, (e,), ckpt),
        call_ensures(BatchEntry::out_path, (e,), out),
        call_ensures(BatchEntry::dead_path, (e,), dead),
        call_ensures(BatchEntry::output_reshaped_path, (e,), output),
        call_ensures(BatchEntry::error_reshaped_path, (e,), error),
    ensures
        e.dir@.len() > 0 && e.dir@.last() != '/' ==> ckpt@ == e.dir@ + "/"@ + "ckpt.db"@ && out@
            == e.dir@ + "/"@ + "out.jsonl"@ && dead@ == e.dir@ + "/"@ + "out.jsonl.dead.jsonl"@
            && output@ == e.dir@ + "/"@ + "output.reshaped.jsonl"@ && error@ == e.dir@ + "/"@
            + "error.reshaped.jsonl"@,
{
}

/// The ids that are drawn for files and batches say which they are for.
pub proof fn law_fresh_ids_say_what_for(f: String, b: String)
    requires
        call_ensures(new_file_id, (), f),
        call_ensures(new_batch_id, (), b),
    ensures
        exists|h: Seq<char>| #[trigger] crate::openai::is_hex_of(h, 12) && f@ == "file-"@ + h,
        exists|h: Seq<char>| #[trigger] crate::openai::is_hex_of(h, 12) && b@ == "batch-"@ + h,
{
}

/// Listing batches shows each of them once, the newest first.
pub proof fn law_lists_show_every_batch_newest_first(data: Vec<BatchObject>, r: Vec<BatchObject>)
    requires
        call_ensures(newest_first, (data,), r),
    ensures
        r@.len() == data@.len(),
        forall|i: int| 0 <= i < data@.len() ==> r@.contains(#[trigger] data@[i]),
        forall|i: int| 0 < i < r@.len() ==> (#[trigger] r@[i]).created_at <= r@[i - 1].created_at,
{
    data@.to_multiset_ensures();
    r@.to_multiset_ensures();
    assert forall|i: int| 0 <= i < data@.len() implies r@.contains(#[trigger] data@[i]) by {
        assert(data@.contains(data@[i]));
        assert(data@.to_multiset().count(data@[i]) > 0);
    }
    assert forall|i: int| 0 < i < r@.len() implies (#[trigger] r@[i]).created_at <= r@[i
        - 1].created_at by {
        assert(r@[i - 1].created_at >= r@[i].created_at);
    }
}

/// A file that is added is found under its id, and the other files and all batches stay.
/// A batch that is loaded is found under its id as it was kept, not running and not
/// cancelled; one that is abandoned is not found again.
pub proof fn law_what_is_kept_is_found(
    before: Registry,
    with_file: Registry,
    with_batch: Registry,
    without_batch: Registry,
    file: FileRecord,
    record: BatchRecord,
    dir: &str,
    id: &str,
    other: Seq<char>,
)
    requires
        exists|m: &mut Registry|
            *m == before && *final(m) == with_file && #[trigger] call_ensures(
                Registry::add_file,
                (m, file),
                (),
            ),
        exists|m: &mut Registry|
            *m == before && *final(m) == with_batch && #[trigger] call_ensures(
                Registry::load_batch,
                (m, record, dir),
                (),
            ),
        exists|m: &mut Registry|
            *m == before && *final(m) == without_batch && #[trigger] call_ensures(
                Registry::abandon_batch,
                (m, id),
                (),
            ),
    ensures
        with_file.spec_file(file.id@) == Some(file@),
        other != file.id@ ==> with_file.spec_file(other) == before.spec_file(other),
        with_file.spec_batch(other) == before.spec_batch(other),
        with_batch.spec_batch(record.id@) matches Some(e) && e.record == record@ && e.dir == dir@
            && !e.running && !e.cancel,
        other != record.id@ ==> with_batch.spec_batch(other) == before.spec_batch(other),
        with_batch.spec_file(other) == before.spec_file(other),
        without_batch.spec_batch(id@) is None,
        other != id@ ==> without_batch.spec_batch(other) == before.spec_batch(other),
        without_batch.spec_file(other) == before.spec_file(other),
{
}

/// A batch is in progress just where it is known and has neither ended nor failed nor been
/// cancelled.
pub proof fn law_progress_goes_by_the_record(reg: &Registry, id: &str, r: bool)
    requires
        call_ensures(Registry::is_in_progress, (reg, id), r),
    ensures
        r <==> reg.spec_batch(id@) is Some && reg.spec_batch(id@)->0.record.status
            == "in_progress"@,
{
}

/// The text of a request for a batch is read as JSON, and planned as the JSON is.
pub proof fn law_batch_requests_are_read_as_json(
    reg: &Registry,
    body: &str,
    r: Result<(CreateBatchRequest, String), (u16, String)>,
    parsed: Result<Json, String>,
    planned: Result<(CreateBatchRequest, String), (u16, String)>,
)
    requires
        call_ensures(Registry::plan_batch, (reg, body), r),
        call_ensures(crate::json::parse_json, (body,), parsed),
        call_ensures(Registry::plan_parsed, (reg, parsed), planned),
    ensures
        r is Ok <==> planned is Ok,
        r is Ok ==> r->Ok_0.0@ == planned->Ok_0.0@ && r->Ok_0.1@ == planned->Ok_0.1@,
        r is Err ==> r->Err_0.0 == planned->Err_0.0,
        json_parse(body@) is Err ==> r matches Err((400, _)),
{
}

/// The output file of a batch has one line for each stored line with an id, in their order
/// and under their ids, and no other; where there is no such line there is no file.
pub proof fn law_outputs_have_a_line_per_result(lines: &[String], r: Option<String>)
    requires
        call_ensures(reshape_results_once, (lines,), r),
    ensures
        r is None <==> ids_stored(views(lines@)).len() == 0,
        r matches Some(text) ==> exists|outs: Seq<crate::openai::OutputLineView>|
            text@ == #[trigger] output_text(outs) && outs.map_values(
                |o: crate::openai::OutputLineView| o.custom_id,
            ) == ids_stored(views(lines@)),
{
    let all = views(lines@);
    lemma_ids_are_stored(all);
    if r is Some {
        let outs = choose|outs: Seq<crate::openai::OutputLineView>| #[trigger]
            outputs_of(all, outs) && r->0@ == output_text(outs);
        lemma_outputs_have_ids(all, outs);
        assert(r->0@ == output_text(outs));
    }
}

/// The ids of the stored lines that can be read and have one, in order.
pub open spec fn ids_stored(lines: Seq<Seq<char>>) -> Seq<Seq<char>>
    decreases lines.len(),
{
    if lines.len() == 0 {
        Seq::empty()
    } else {
        let init = ids_stored(lines.drop_last());
        if trim(lines.last()).len() == 0 {
            init
        } else {
            match json_parse(lines.last()) {
                Ok(v) => match v.str_at("custom_id"@) {
                    Some(id) => init.push(id),
                    None => init,
                },
                Err(_) => init,
            }
        }
    }
}

proof fn lemma_ids_are_stored(lines: Seq<Seq<char>>)
    ensures
        no_outputs(lines) <==> ids_stored(lines).len() == 0,
    decreases lines.len(),
{
    if lines.len() > 0 {
        let init = lines.drop_last();
        lemma_ids_are_stored(init);
        assert(lines[lines.len() - 1] == lines.last());
        if no_outputs(lines) {
            assert forall|i: int| 0 <= i < init.len() implies !has_output(#[trigger] init[i]) by {
                assert(init[i] == lines[i]);
            }
            assert(!has_output(lines[lines.len() - 1]));
        }
        if no_outputs(init) && !has_output(lines.last()) {
            assert forall|i: int| 0 <= i < lines.len() implies !has_output(#[trigger] lines[i]) by {
                if i < init.len() {
                    assert(init[i] == lines[i]);
                }
            }
        }
    }
}

proof fn lemma_outputs_have_ids(lines: Seq<Seq<char>>, outs: Seq<crate::openai::OutputLineView>)
    requires
        outputs_of(lines, outs),
    ensures
        outs.map_values(|o: crate::openai::OutputLineView| o.custom_id) == ids_stored(lines),
    decreases lines.len(),
{
    let ids = outs.map_values(|o: crate::openai::OutputLineView| o.custom_id);
    if lines.len() > 0 {
        let init = lines.drop_last();
        if has_output(lines.last()) {
            lemma_outputs_have_ids(init, outs.drop_last());
            assert(ids == outs.drop_last().map_values(
                |o: crate::openai::OutputLineView| o.custom_id,
            ).push(outs.last().custom_id));
        } else {
            lemma_outputs_have_ids(init, outs);
        }
    } else {
        assert(ids == Seq::<Seq<char>>::empty());
    }
}

/// One more stored line adds its output line at the end of the output file.
pub proof fn law_output_texts_end_with_their_last_line(
    outs: Seq<crate::openai::OutputLineView>,
    o: crate::openai::OutputLineView,
)
    ensures
        output_text(Seq::<crate::openai::OutputLineView>::empty()).len() == 0,
        output_text(outs.push(o)) == output_text(outs) + crate::json::json_text(
            crate::openai::output_json(o),
        ).push('\n'),
{
    assert(outs.push(o).drop_last() == outs);
    let t = crate::json::json_text(crate::openai::output_json(o));
    assert(t + seq!['\n'] == t.push('\n'));
    assert(output_text(outs) + t + seq!['\n'] == output_text(outs) + t.push('\n'));
}


} // verus!

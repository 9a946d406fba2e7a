//! The wire shapes of the OpenAI Batch API.
//!
//! Field names and envelopes are exact, so that unmodified client code reads them. A
//! field that has no value yet is there as `null`, not left out.

use vstd::prelude::*;

use crate::import::lemma_get_canonical;
use crate::json::{
    as_record, canonical, json_parse, json_text, lemma_array_view, lemma_object_view, list_view,
    members_view, names_ascend, parse_json, record_of_array, render_json, Json, JsonView,
    Number, NumberView,
};
use crate::result::nullable_text;
use crate::text::{concat2, hex, hex_of, lemma_lex_transitive, lex_before, opt_view, views};

verus! {

/// `rand::RngCore::fill_bytes` on a buffer of `n` bytes.
#[verifier::external_body]
fn random_bytes(n: usize) -> (r: Vec<u8>)
    ensures
        r@.len() == n,
{
    let mut buf: Vec<u8> = vec![0u8; n];
    rand::RngCore::fill_bytes(&mut rand::thread_rng(), &mut buf);
    buf
}

/// `s` is the hexadecimal notation of `n` bytes.
pub open spec fn is_hex_of(s: Seq<char>, n: nat) -> bool {
    exists|bytes: Seq<u8>| bytes.len() == n && s == #[trigger] hex(bytes)
}

/// The hexadecimal notation of `bytes` random bytes.
pub fn rand_hex(bytes: usize) -> (r: String)
    ensures
        is_hex_of(r@, bytes as nat),
{
    let buf: Vec<u8> = random_bytes(bytes);
    hex_of(buf.as_slice())
}

/// The notation of bytes has two digits for each, every one a hexadecimal digit in lower
/// case.
pub proof fn law_hex_is_lower_case_digits(s: Seq<char>, n: nat)
    requires
        is_hex_of(s, n),
    ensures
        s.len() == 2 * n,
        forall|i: int|
            0 <= i < s.len() ==> ('0' <= (#[trigger] s[i]) <= '9') || ('a' <= s[i] <= 'f'),
{
    let bytes = choose|bytes: Seq<u8>| bytes.len() == n && s == #[trigger] hex(bytes);
    lemma_hex(bytes);
}

proof fn lemma_hex(bytes: Seq<u8>)
    ensures
        hex(bytes).len() == 2 * bytes.len(),
        forall|i: int|
            0 <= i < hex(bytes).len() ==> ('0' <= (#[trigger] hex(bytes)[i]) <= '9') || ('a'
                <= hex(bytes)[i] <= 'f'),
    decreases bytes.len(),
{
    if bytes.len() > 0 {
        lemma_hex(bytes.drop_last());
        let init = hex(bytes.drop_last());
        let s = hex(bytes);
        assert forall|i: int| 0 <= i < s.len() implies ('0' <= (#[trigger] s[i]) <= '9') || ('a'
            <= s[i] <= 'f') by {
            if i < init.len() {
                assert(s[i] == init[i]);
            }
        }
    }
}

/// A file of the API.
#[derive(Debug, Clone, PartialEq, Eq)]
pub struct FileObject {
    pub id: String,
    /// Always `file`.
    pub object: String,
    pub bytes: u64,
    pub created_at: i64,
    pub filename: String,
    /// `batch` for an input; `batch_output` or `batch_error` for results.
    pub purpose: String,
}

/// The progress of a batch.
#[derive(Debug, Clone, Copy, PartialEq, Eq, Structural)]
pub struct RequestCounts {
    pub total: u64,
    pub completed: u64,
    pub failed: u64,
}

/// No requests.
pub open spec fn no_requests() -> RequestCounts {
    RequestCounts { total: 0, completed: 0, failed: 0 }
}

impl Default for RequestCounts {
    fn default() -> (c: Self)
        ensures
            c == no_requests(),
    {
        RequestCounts { total: 0, completed: 0, failed: 0 }
    }
}

/// A batch of the API.
#[derive(Debug, Clone, PartialEq, Eq)]
pub struct BatchObject {
    pub id: String,
    /// Always `batch`.
    pub object: String,
    pub endpoint: String,
    pub input_file_id: String,
    pub completion_window: String,
    pub status: String,
    pub output_file_id: Option<String>,
    pub error_file_id: Option<String>,
    pub created_at: i64,
    pub in_progress_at: Option<i64>,
    pub completed_at: Option<i64>,
    pub cancelled_at: Option<i64>,
    pub request_counts: RequestCounts,
}

/// The envelope of a list.
#[derive(Debug, Clone, PartialEq, Eq)]
pub struct ListEnvelope<T> {
    /// Always `list`.
    pub object: String,
    pub data: Vec<T>,
}

impl<T> ListEnvelope<T> {
    /// The envelope of `data`.
    pub fn new(data: Vec<T>) -> (e: Self)
        ensures
            e.object@ == "list"@,
            e.data == data,
    {
        ListEnvelope { object: "list".to_owned(), data }
    }
}

/// The body of a request to create a batch. Other fields do not count.
#[derive(Debug, Clone, PartialEq, Eq)]
pub struct CreateBatchRequest {
    pub input_file_id: String,
    pub endpoint: String,
    pub completion_window: Option<String>,
}

/// The view of a [`CreateBatchRequest`].
#[verifier::ext_equal]
pub struct CreateBatchView {
    pub input_file_id: Seq<char>,
    pub endpoint: Seq<char>,
    pub completion_window: Option<Seq<char>>,
}

impl View for CreateBatchRequest {
    type V = CreateBatchView;

    open spec fn view(&self) -> CreateBatchView {
        CreateBatchView {
            input_file_id: self.input_file_id@,
            endpoint: self.endpoint@,
            completion_window: opt_view(self.completion_window),
        }
    }
}

/// The fields of a request to create a batch, in their order.
pub open spec fn request_names() -> Seq<Seq<char>> {
    seq![
        "input_file_id"@,
        "endpoint"@,
        "completion_window"@,
    ]
}

fn request_names_list() -> (r: Vec<String>)
    ensures
        views(r@) == request_names(),
{
    let r: Vec<String> = vec![
        "input_file_id".to_owned(),
        "endpoint".to_owned(),
        "completion_window".to_owned(),
    ];
    assert(views(r@) == request_names());
    r
}

/// The request that a value describes: an object, or an array of the fields, of which the
/// last may be missing.
pub open spec fn create_request_of(j: JsonView) -> Option<CreateBatchView> {
    request_fields(as_record(j, request_names(), 2))
}

/// The request that an object describes.
pub open spec fn request_fields(j: JsonView) -> Option<CreateBatchView> {
    match (
        j.str_at("input_file_id"@),
        j.str_at("endpoint"@),
        nullable_text(j, "completion_window"@),
    ) {
        (Some(input_file_id), Some(endpoint), Some(completion_window)) => Some(
            CreateBatchView { input_file_id, endpoint, completion_window },
        ),
        _ => None,
    }
}

/// A text that may be missing or null.
pub fn opt_text(j: &Json, key: &str) -> (r: Option<Option<String>>)
    ensures
        match r {
            Some(t) => nullable_text(j@, key@) == Some(opt_view(t)),
            None => nullable_text(j@, key@) is None,
        },
{
    match j.get(key) {
        None => Some(None),
        Some(v) => {
            if v.is_null() {
                return Some(None);
            }
            match v.as_str() {
                Some(t) => Some(Some(t.to_owned())),
                None => None,
            }
        },
    }
}

impl CreateBatchRequest {
    /// The request that a value describes.
    pub fn from_json(j: &Json) -> (r: Option<CreateBatchRequest>)
        ensures
            match r {
                Some(x) => create_request_of(j@) == Some(x@),
                None => create_request_of(j@) is None,
            },
    {
        match record_of_array(j, &request_names_list(), 2) {
            Some(record) => Self::from_fields(&record),
            None => Self::from_fields(j),
        }
    }

    fn from_fields(j: &Json) -> (r: Option<CreateBatchRequest>)
        ensures
            match r {
                Some(x) => request_fields(j@) == Some(x@),
                None => request_fields(j@) is None,
            },
    {
        match (
            j.str_at("input_file_id"),
            j.str_at("endpoint"),
            opt_text(j, "completion_window"),
        ) {
            (Some(input_file_id), Some(endpoint), Some(completion_window)) => Some(
                CreateBatchRequest {
                    input_file_id: input_file_id.to_owned(),
                    endpoint: endpoint.to_owned(),
                    completion_window,
                },
            ),
            _ => None,
        }
    }
}

/// A whole number in JSON.
pub open spec fn int_json(n: i64) -> JsonView {
    if n >= 0 {
        JsonView::Number(NumberView::Unsigned(n as u64))
    } else {
        JsonView::Number(NumberView::Negative(n))
    }
}

/// A whole number that may be missing in JSON.
pub open spec fn opt_int_json(n: Option<i64>) -> JsonView {
    match n {
        Some(x) => int_json(x),
        None => JsonView::Null,
    }
}

/// A text that may be missing in JSON.
pub open spec fn opt_text_json(t: Option<Seq<char>>) -> JsonView {
    match t {
        Some(x) => JsonView::Text(x),
        None => JsonView::Null,
    }
}

/// A whole number in JSON.
pub fn int_value(n: i64) -> (j: Json)
    ensures
        j@ == int_json(n),
{
    if n >= 0 {
        Json::Number(Number::Unsigned(n as u64))
    } else {
        Json::Number(Number::Negative(n))
    }
}

/// A whole number that may be missing in JSON.
pub fn opt_int_value(n: Option<i64>) -> (j: Json)
    ensures
        j@ == opt_int_json(n),
{
    match n {
        Some(x) => int_value(x),
        None => Json::Null,
    }
}

/// A text that may be missing in JSON.
pub fn opt_text_value(t: &Option<String>) -> (j: Json)
    ensures
        j@ == opt_text_json(opt_view(*t)),
{
    match t {
        Some(x) => Json::Text(x.as_str().to_owned()),
        None => Json::Null,
    }
}

/// A text in JSON.
pub fn text_value(t: &str) -> (j: Json)
    ensures
        j@ == JsonView::Text(t@),
{
    Json::Text(t.to_owned())
}

/// A count in JSON.
pub fn count_value(n: u64) -> (j: Json)
    ensures
        j@ == JsonView::Number(NumberView::Unsigned(n)),
{
    Json::Number(Number::Unsigned(n))
}

/// A file in JSON.
pub open spec fn file_json(f: FileObject) -> JsonView {
    JsonView::Object(
        seq![
            ("bytes"@, JsonView::Number(NumberView::Unsigned(f.bytes))),
            ("created_at"@, int_json(f.created_at)),
            ("filename"@, JsonView::Text(f.filename@)),
            ("id"@, JsonView::Text(f.id@)),
            ("object"@, JsonView::Text(f.object@)),
            ("purpose"@, JsonView::Text(f.purpose@)),
        ],
    )
}

/// Progress in JSON.
pub open spec fn counts_json(c: RequestCounts) -> JsonView {
    JsonView::Object(
        seq![
            ("completed"@, JsonView::Number(NumberView::Unsigned(c.completed))),
            ("failed"@, JsonView::Number(NumberView::Unsigned(c.failed))),
            ("total"@, JsonView::Number(NumberView::Unsigned(c.total))),
        ],
    )
}

/// A batch in JSON: what has no value yet is there as `null`.
pub open spec fn batch_json(b: BatchObject) -> JsonView {
    JsonView::Object(
        seq![
            ("cancelled_at"@, opt_int_json(b.cancelled_at)),
            ("completed_at"@, opt_int_json(b.completed_at)),
            ("completion_window"@, JsonView::Text(b.completion_window@)),
            ("created_at"@, int_json(b.created_at)),
            ("endpoint"@, JsonView::Text(b.endpoint@)),
            ("error_file_id"@, opt_text_json(opt_view(b.error_file_id))),
            ("id"@, JsonView::Text(b.id@)),
            ("in_progress_at"@, opt_int_json(b.in_progress_at)),
            ("input_file_id"@, JsonView::Text(b.input_file_id@)),
            ("object"@, JsonView::Text(b.object@)),
            ("output_file_id"@, opt_text_json(opt_view(b.output_file_id))),
            ("request_counts"@, counts_json(b.request_counts)),
            ("status"@, JsonView::Text(b.status@)),
        ],
    )
}

/// Texts that share a start are ordered by the first character in which they differ.
pub proof fn lemma_lex_at(a: Seq<char>, b: Seq<char>, k: int)
    requires
        0 <= k < a.len(),
        k < b.len(),
        a.take(k) =~= b.take(k),
        (a[k] as u32) < (b[k] as u32),
    ensures
        lex_before(a, b),
    decreases k,
{
    if k > 0 {
        assert(a[0] == a.take(k)[0]);
        assert(b[0] == b.take(k)[0]);
        assert(a.skip(1).take(k - 1) == a.take(k).skip(1));
        assert(b.skip(1).take(k - 1) == b.take(k).skip(1));
        lemma_lex_at(a.skip(1), b.skip(1), k - 1);
    }
}

/// Each member comes before the next.
pub open spec fn neighbours_ascend(m: Seq<(Seq<char>, JsonView)>) -> bool {
    forall|i: int, j: int|
        0 <= i < m.len() && j == i + 1 && j < m.len() ==> lex_before(
            #[trigger] m[i].0,
            #[trigger] m[j].0,
        )
}

/// Where each member comes before the next, all ascend.
pub proof fn lemma_neighbours(m: Seq<(Seq<char>, JsonView)>)
    requires
        neighbours_ascend(m),
    ensures
        names_ascend(m),
{
    assert forall|i: int, j: int| 0 <= i < j < m.len() implies lex_before(
        #[trigger] m[i].0,
        #[trigger] m[j].0,
    ) by {
        lemma_neighbours_apart(m, i, j);
    }
}

proof fn lemma_neighbours_apart(m: Seq<(Seq<char>, JsonView)>, i: int, j: int)
    requires
        neighbours_ascend(m),
        0 <= i < j < m.len(),
    ensures
        lex_before(m[i].0, m[j].0),
    decreases j - i,
{
    if j > i + 1 {
        lemma_neighbours_apart(m, i, j - 1);
        assert(lex_before(m[j - 1].0, m[j].0));
        lemma_lex_transitive(m[i].0, m[j - 1].0, m[j].0);
    } else {
        assert(j == i + 1);
        assert(lex_before(m[i].0, m[j].0));
    }
}

proof fn lemma_batch_names(b: BatchObject)
    ensures
        names_ascend(batch_json(b)->Object_0),
{
    reveal_strlit("cancelled_at");
    reveal_strlit("completed_at");
    reveal_strlit("completion_window");
    reveal_strlit("created_at");
    reveal_strlit("endpoint");
    reveal_strlit("error_file_id");
    reveal_strlit("id");
    reveal_strlit("in_progress_at");
    reveal_strlit("input_file_id");
    reveal_strlit("object");
    reveal_strlit("output_file_id");
    reveal_strlit("request_counts");
    reveal_strlit("status");
    assert("cancelled_at"@.take(1) == "completed_at"@.take(1));
    lemma_lex_at("cancelled_at"@, "completed_at"@, 1);
    assert("completed_at"@.take(7) == "completion_window"@.take(7));
    lemma_lex_at("completed_at"@, "completion_window"@, 7);
    assert("completion_window"@.take(1) == "created_at"@.take(1));
    lemma_lex_at("completion_window"@, "created_at"@, 1);
    lemma_lex_at("created_at"@, "endpoint"@, 0);
    assert("endpoint"@.take(1) == "error_file_id"@.take(1));
    lemma_lex_at("endpoint"@, "error_file_id"@, 1);
    lemma_lex_at("error_file_id"@, "id"@, 0);
    assert("id"@.take(1) == "in_progress_at"@.take(1));
    lemma_lex_at("id"@, "in_progress_at"@, 1);
    assert("in_progress_at"@.take(2) == "input_file_id"@.take(2));
    lemma_lex_at("in_progress_at"@, "input_file_id"@, 2);
    lemma_lex_at("input_file_id"@, "object"@, 0);
    assert("object"@.take(1) == "output_file_id"@.take(1));
    lemma_lex_at("object"@, "output_file_id"@, 1);
    lemma_lex_at("output_file_id"@, "request_counts"@, 0);
    lemma_lex_at("request_counts"@, "status"@, 0);
    let m = batch_json(b)->Object_0;
    assert(neighbours_ascend(m));
    lemma_neighbours(m);
}

proof fn lemma_counts_canonical(c: RequestCounts)
    ensures
        canonical(counts_json(c)),
{
    reveal_strlit("completed");
    reveal_strlit("failed");
    reveal_strlit("total");
    reveal_with_fuel(canonical, 2);
    let m = counts_json(c)->Object_0;
    assert("completed"@[0] == 'c' && "failed"@[0] == 'f' && "total"@[0] == 't');
    assert(names_ascend(m));
}

/// A batch is written in the one form in which it would be read.
pub proof fn law_batch_json_is_canonical(b: BatchObject)
    ensures
        canonical(batch_json(b)),
{
    lemma_batch_names(b);
    lemma_counts_canonical(b.request_counts);
    let m = batch_json(b)->Object_0;
    assert forall|i: int| 0 <= i < m.len() implies canonical((#[trigger] m[i]).1) by {
        if i == 11 {
            assert(m[i].1 == counts_json(b.request_counts));
        }
    }
}

/// Every field of a batch is there, `null` where it has no value.
pub proof fn law_batch_fields_are_never_left_out(b: BatchObject)
    ensures
        batch_json(b).get("output_file_id"@) == Some(opt_text_json(opt_view(b.output_file_id))),
        batch_json(b).get("error_file_id"@) == Some(opt_text_json(opt_view(b.error_file_id))),
        batch_json(b).get("in_progress_at"@) == Some(opt_int_json(b.in_progress_at)),
        batch_json(b).get("completed_at"@) == Some(opt_int_json(b.completed_at)),
        batch_json(b).get("cancelled_at"@) == Some(opt_int_json(b.cancelled_at)),
{
    lemma_batch_names(b);
    let m = batch_json(b)->Object_0;
    lemma_member_at(m, 10);
    lemma_member_at(m, 5);
    lemma_member_at(m, 7);
    lemma_member_at(m, 1);
    lemma_member_at(m, 0);
}

/// Among names that ascend, each finds its own member.
pub proof fn lemma_member_at(m: Seq<(Seq<char>, JsonView)>, i: int)
    requires
        names_ascend(m),
        0 <= i < m.len(),
    ensures
        crate::json::member(m, m[i].0) == Some(m[i].1),
    decreases i,
{
    if i > 0 {
        assert(lex_before(m[0].0, m[i].0));
        crate::text::lemma_lex_total(m[0].0, m[i].0);
        let rest = m.skip(1);
        assert forall|a: int, b: int| 0 <= a < b < rest.len() implies lex_before(
            #[trigger] rest[a].0,
            #[trigger] rest[b].0,
        ) by {
            assert(rest[a] == m[a + 1] && rest[b] == m[b + 1]);
        }
        assert(rest[i - 1] == m[i]);
        lemma_member_at(rest, i - 1);
    }
}

impl FileObject {
    /// This file in JSON.
    pub fn to_json(&self) -> (j: Json)
        ensures
            j@ == file_json(*self),
    {
        let members: Vec<(String, Json)> = vec![
            ("bytes".to_owned(), count_value(self.bytes)),
            ("created_at".to_owned(), int_value(self.created_at)),
            ("filename".to_owned(), text_value(self.filename.as_str())),
            ("id".to_owned(), text_value(self.id.as_str())),
            ("object".to_owned(), text_value(self.object.as_str())),
            ("purpose".to_owned(), text_value(self.purpose.as_str())),
        ];
        proof {
            lemma_object_view(members);
            assert(members_view(members@) == file_json(*self)->Object_0);
        }
        Json::Object(members)
    }

    /// This file as text.
    pub fn to_text(&self) -> (text: String)
        ensures
            text@ == json_text(file_json(*self)),
    {
        proof {
            reveal_strlit("bytes");
            reveal_strlit("created_at");
            reveal_strlit("filename");
            reveal_strlit("id");
            reveal_strlit("object");
            reveal_strlit("purpose");
            let m = file_json(*self)->Object_0;
            assert("bytes"@[0] == 'b' && "created_at"@[0] == 'c' && "filename"@[0] == 'f'
                && "id"@[0] == 'i' && "object"@[0] == 'o' && "purpose"@[0] == 'p');
            assert(names_ascend(m));
            assert forall|i: int| 0 <= i < m.len() implies canonical((#[trigger] m[i]).1) by {}
            assert(canonical(file_json(*self)));
        }
        render_json(&self.to_json())
    }
}

impl RequestCounts {
    /// This progress in JSON.
    pub fn to_json(&self) -> (j: Json)
        ensures
            j@ == counts_json(*self),
    {
        let members: Vec<(String, Json)> = vec![
            ("completed".to_owned(), count_value(self.completed)),
            ("failed".to_owned(), count_value(self.failed)),
            ("total".to_owned(), count_value(self.total)),
        ];
        proof {
            lemma_object_view(members);
            assert(members_view(members@) == counts_json(*self)->Object_0);
        }
        Json::Object(members)
    }
}

impl BatchObject {
    /// This batch in JSON.
    pub fn to_json(&self) -> (j: Json)
        ensures
            j@ == batch_json(*self),
    {
        let members: Vec<(String, Json)> = vec![
            ("cancelled_at".to_owned(), opt_int_value(self.cancelled_at)),
            ("completed_at".to_owned(), opt_int_value(self.completed_at)),
            ("completion_window".to_owned(), text_value(self.completion_window.as_str())),
            ("created_at".to_owned(), int_value(self.created_at)),
            ("endpoint".to_owned(), text_value(self.endpoint.as_str())),
            ("error_file_id".to_owned(), opt_text_value(&self.error_file_id)),
            ("id".to_owned(), text_value(self.id.as_str())),
            ("in_progress_at".to_owned(), opt_int_value(self.in_progress_at)),
            ("input_file_id".to_owned(), text_value(self.input_file_id.as_str())),
            ("object".to_owned(), text_value(self.object.as_str())),
            ("output_file_id".to_owned(), opt_text_value(&self.output_file_id)),
            ("request_counts".to_owned(), self.request_counts.to_json()),
            ("status".to_owned(), text_value(self.status.as_str())),
        ];
        proof {
            lemma_object_view(members);
            assert(members_view(members@) == batch_json(*self)->Object_0);
        }
        Json::Object(members)
    }

    /// This batch as text.
    pub fn to_text(&self) -> (text: String)
        ensures
            text@ == json_text(batch_json(*self)),
    {
        proof {
            law_batch_json_is_canonical(*self);
        }
        render_json(&self.to_json())
    }
}

/// Batches in JSON.
pub open spec fn batches_json(data: Seq<BatchObject>) -> Seq<JsonView> {
    data.map_values(|b: BatchObject| batch_json(b))
}

/// A list of batches in JSON.
pub open spec fn list_json(object: Seq<char>, data: Seq<BatchObject>) -> JsonView {
    JsonView::Object(
        seq![
            ("data"@, JsonView::Array(batches_json(data))),
            ("object"@, JsonView::Text(object)),
        ],
    )
}

impl ListEnvelope<BatchObject> {
    /// This list in JSON.
    pub fn to_json(&self) -> (j: Json)
        ensures
            j@ == list_json(self.object@, self.data@),
    {
        let ghost all = self.data@;
        let mut out: Vec<Json> = Vec::new();
        let mut i: usize = 0;
        assert(list_view(out@) == batches_json(all.take(0)));
        while i < self.data.len()
            invariant
                i <= self.data@.len(),
                all == self.data@,
                list_view(out@) == batches_json(all.take(i as int)),
            decreases self.data@.len() - i,
        {
            let ghost before = out@;
            out.push(self.data[i].to_json());
            proof {
                assert(list_view(out@) == list_view(before).push(batch_json(all[i as int])));
                assert(batches_json(all.take(i + 1)) == batches_json(all.take(i as int)).push(
                    batch_json(all[i as int]),
                ));
            }
            i = i + 1;
        }
        assert(all.take(all.len() as int) == all);
        proof {
            lemma_array_view(out);
        }
        let members: Vec<(String, Json)> = vec![
            ("data".to_owned(), Json::Array(out)),
            ("object".to_owned(), text_value(self.object.as_str())),
        ];
        proof {
            lemma_object_view(members);
            assert(members_view(members@) == list_json(self.object@, all)->Object_0);
        }
        Json::Object(members)
    }

    /// This list as text.
    pub fn to_text(&self) -> (text: String)
        ensures
            text@ == json_text(list_json(self.object@, self.data@)),
    {
        proof {
            reveal_strlit("data");
            reveal_strlit("object");
            let m = list_json(self.object@, self.data@)->Object_0;
            let list = batches_json(self.data@);
            assert("data"@[0] == 'd' && "object"@[0] == 'o');
            assert(names_ascend(m));
            assert forall|i: int| 0 <= i < list.len() implies canonical(#[trigger] list[i]) by {
                law_batch_json_is_canonical(self.data@[i]);
            }
            assert(canonical(JsonView::Array(list)));
            assert(canonical(JsonView::Text(self.object@)));
            assert forall|i: int| 0 <= i < m.len() implies canonical((#[trigger] m[i]).1) by {}
            assert(canonical(list_json(self.object@, self.data@)));
        }
        render_json(&self.to_json())
    }
}

/// One line of a batch's output: a success has a response and no error, a failure an
/// error and no response.
#[derive(Debug, Clone, PartialEq)]
pub struct OutputLine {
    /// `batch_req_` and hexadecimal digits.
    pub id: String,
    pub custom_id: String,
    pub response: Option<OutputResponse>,
    pub error: Option<Json>,
}

/// The response of an [`OutputLine`].
#[derive(Debug, Clone, PartialEq)]
pub struct OutputResponse {
    pub status_code: u16,
    pub request_id: String,
    pub body: Json,
}

/// The view of an [`OutputResponse`].
#[verifier::ext_equal]
pub struct OutputResponseView {
    pub status_code: u16,
    pub request_id: Seq<char>,
    pub body: JsonView,
}

/// The view of an [`OutputLine`].
#[verifier::ext_equal]
pub struct OutputLineView {
    pub id: Seq<char>,
    pub custom_id: Seq<char>,
    pub response: Option<OutputResponseView>,
    pub error: Option<JsonView>,
}

impl View for OutputResponse {
    type V = OutputResponseView;

    open spec fn view(&self) -> OutputResponseView {
        OutputResponseView {
            status_code: self.status_code,
            request_id: self.request_id@,
            body: self.body@,
        }
    }
}

impl View for OutputLine {
    type V = OutputLineView;

    open spec fn view(&self) -> OutputLineView {
        OutputLineView {
            id: self.id@,
            custom_id: self.custom_id@,
            response: match self.response {
                Some(r) => Some(r@),
                None => None,
            },
            error: match self.error {
                Some(e) => Some(e@),
                None => None,
            },
        }
    }
}

/// A value that is there and not `null`.
pub open spec fn some_value(j: Option<JsonView>) -> Option<JsonView> {
    match j {
        Some(JsonView::Null) => None,
        other => other,
    }
}

/// The response of a stored success. A status that is missing counts as 200, and a
/// request id that is missing is `request_id`.
pub open spec fn output_response(resp: JsonView, request_id: Seq<char>) -> OutputResponseView {
    OutputResponseView {
        status_code: match resp.u64_at("status_code"@) {
            Some(n) => (n as nat % 0x1_0000) as u16,
            None => 200,
        },
        request_id: match resp.str_at("request_id"@) {
            Some(t) => t,
            None => request_id,
        },
        body: match resp.get("body"@) {
            Some(b) => b,
            None => JsonView::Null,
        },
    }
}

/// The error of a line that has neither a response nor an error.
pub open spec fn no_outcome_json() -> JsonView {
    JsonView::Object(seq![("message"@, JsonView::Text("result had no response or error"@))])
}

/// The output line of a stored result, under the ids given; nothing for a value without
/// an id.
pub open spec fn reshaped(v: JsonView, id: Seq<char>, request_id: Seq<char>) -> Option<
    OutputLineView,
> {
    match v.str_at("custom_id"@) {
        Some(custom_id) => Some(
            match (some_value(v.get("response"@)), some_value(v.get("error"@))) {
                (Some(resp), _) => OutputLineView {
                    id,
                    custom_id,
                    response: Some(output_response(resp, request_id)),
                    error: None,
                },
                (None, Some(err)) => OutputLineView {
                    id,
                    custom_id,
                    response: None,
                    error: Some(err),
                },
                (None, None) => OutputLineView {
                    id,
                    custom_id,
                    response: None,
                    error: Some(no_outcome_json()),
                },
            },
        ),
        None => None,
    }
}

fn present<'a>(v: &'a Json, key: &str) -> (r: Option<&'a Json>)
    ensures
        match r {
            Some(j) => some_value(v@.get(key@)) == Some(j@),
            None => some_value(v@.get(key@)) is None,
        },
{
    match v.get(key) {
        Some(j) => {
            if j.is_null() {
                None
            } else {
                Some(j)
            }
        },
        None => None,
    }
}

fn no_outcome() -> (j: Json)
    ensures
        j@ == no_outcome_json(),
{
    let members: Vec<(String, Json)> = vec![
        ("message".to_owned(), text_value("result had no response or error")),
    ];
    proof {
        lemma_object_view(members);
        assert(members_view(members@) == no_outcome_json()->Object_0);
    }
    Json::Object(members)
}

/// The output line of a stored result, under the ids given.
pub fn reshape_value(v: &Json, id: String, request_id: String) -> (r: Option<OutputLine>)
    ensures
        match r {
            Some(o) => reshaped(v@, id@, request_id@) == Some(o@),
            None => reshaped(v@, id@, request_id@) is None,
        },
{
    let custom_id: String = match v.str_at("custom_id") {
        Some(t) => t.to_owned(),
        None => {
            return None;
        },
    };
    if let Some(resp) = present(v, "response") {
        let status_code: u16 = match resp.u64_at("status_code") {
            Some(n) => (n % 0x1_0000) as u16,
            None => 200,
        };
        let request_id: String = match resp.str_at("request_id") {
            Some(t) => t.to_owned(),
            None => request_id,
        };
        let body: Json = match resp.get("body") {
            Some(b) => b.duplicate(),
            None => Json::Null,
        };
        return Some(
            OutputLine {
                id,
                custom_id,
                response: Some(OutputResponse { status_code, request_id, body }),
                error: None,
            },
        );
    }
    let error: Json = match present(v, "error") {
        Some(e) => e.duplicate(),
        None => no_outcome(),
    };
    Some(OutputLine { id, custom_id, response: None, error: Some(error) })
}

/// The id of an output line.
pub open spec fn is_request_id(s: Seq<char>) -> bool {
    exists|h: Seq<char>| #[trigger] is_hex_of(h, 12) && s == "batch_req_"@ + h
}

/// A request id that stands in for one that is missing.
pub open spec fn is_made_up_id(s: Seq<char>) -> bool {
    exists|h: Seq<char>| #[trigger] is_hex_of(h, 12) && s == "req_"@ + h
}

/// Some output line of a stored result, under ids drawn at random.
pub open spec fn is_reshaped(v: JsonView, o: OutputLineView) -> bool {
    exists|id: Seq<char>, request_id: Seq<char>|
        is_request_id(id) && is_made_up_id(request_id) && #[trigger] reshaped(v, id, request_id)
            == Some(o)
}

/// The output line of a stored line; nothing for one that is torn or has no id.
pub fn reshape_result_line(line: &str) -> (r: Option<OutputLine>)
    ensures
        match r {
            Some(o) => json_parse(line@) is Ok && is_reshaped(json_parse(line@)->Ok_0, o@)
                && output_is_canonical(o@),
            None => json_parse(line@) is Err || json_parse(line@)->Ok_0.str_at("custom_id"@)
                is None,
        },
{
    let v: Json = match parse_json(line) {
        Ok(v) => v,
        Err(_) => {
            return None;
        },
    };
    let h1: String = rand_hex(12);
    let id: String = concat2("batch_req_", h1.as_str());
    let h2: String = rand_hex(12);
    let request_id: String = concat2("req_", h2.as_str());
    proof {
        assert(is_hex_of(h1@, 12) && id@ == "batch_req_"@ + h1@);
        assert(is_request_id(id@));
        assert(is_hex_of(h2@, 12) && request_id@ == "req_"@ + h2@);
        assert(is_made_up_id(request_id@));
    }
    let ghost a = id@;
    let ghost b = request_id@;
    let r: Option<OutputLine> = reshape_value(&v, id, request_id);
    proof {
        law_reshaped_is_canonical(v@, a, b);
        if r is Some {
            assert(reshaped(v@, a, b) == Some(r->0@));
        }
    }
    r
}

/// A response in JSON.
pub open spec fn output_response_json(r: OutputResponseView) -> JsonView {
    JsonView::Object(
        seq![
            ("body"@, r.body),
            ("request_id"@, JsonView::Text(r.request_id)),
            ("status_code"@, JsonView::Number(NumberView::Unsigned(r.status_code as u64))),
        ],
    )
}

/// An output line in JSON: the response and the error are always there, one of them
/// `null`.
pub open spec fn output_json(o: OutputLineView) -> JsonView {
    JsonView::Object(
        seq![
            ("custom_id"@, JsonView::Text(o.custom_id)),
            (
                "error"@,
                match o.error {
                    Some(e) => e,
                    None => JsonView::Null,
                },
            ),
            ("id"@, JsonView::Text(o.id)),
            (
                "response"@,
                match o.response {
                    Some(r) => output_response_json(r),
                    None => JsonView::Null,
                },
            ),
        ],
    )
}

/// What an output line holds of JSON is in the form in which JSON is read.
pub open spec fn output_is_canonical(o: OutputLineView) -> bool {
    &&& (o.response matches Some(r) ==> canonical(r.body))
    &&& (o.error matches Some(e) ==> canonical(e))
}

impl OutputLine {
    /// This line in JSON.
    pub fn to_json(&self) -> (j: Json)
        ensures
            j@ == output_json(self@),
    {
        let response: Json = match &self.response {
            Some(r) => {
                let fields: Vec<(String, Json)> = vec![
                    ("body".to_owned(), r.body.duplicate()),
                    ("request_id".to_owned(), text_value(r.request_id.as_str())),
                    ("status_code".to_owned(), count_value(r.status_code as u64)),
                ];
                proof {
                    lemma_object_view(fields);
                    assert(members_view(fields@) == output_response_json(r@)->Object_0);
                }
                Json::Object(fields)
            },
            None => Json::Null,
        };
        let error: Json = match &self.error {
            Some(e) => e.duplicate(),
            None => Json::Null,
        };
        let members: Vec<(String, Json)> = vec![
            ("custom_id".to_owned(), text_value(self.custom_id.as_str())),
            ("error".to_owned(), error),
            ("id".to_owned(), text_value(self.id.as_str())),
            ("response".to_owned(), response),
        ];
        proof {
            lemma_object_view(members);
            assert(members_view(members@) == output_json(self@)->Object_0);
        }
        Json::Object(members)
    }

    /// This line as text, without a line end.
    pub fn to_text(&self) -> (text: String)
        requires
            output_is_canonical(self@),
        ensures
            text@ == json_text(output_json(self@)),
            !text@.contains('\n'),
    {
        proof {
            lemma_output_canonical(self@);
        }
        render_json(&self.to_json())
    }
}

proof fn lemma_output_canonical(o: OutputLineView)
    requires
        output_is_canonical(o),
    ensures
        canonical(output_json(o)),
{
    reveal_strlit("custom_id");
    reveal_strlit("error");
    reveal_strlit("id");
    reveal_strlit("response");
    reveal_strlit("body");
    reveal_strlit("request_id");
    reveal_strlit("status_code");
    let m = output_json(o)->Object_0;
    assert("custom_id"@[0] == 'c' && "error"@[0] == 'e' && "id"@[0] == 'i' && "response"@[0]
        == 'r');
    assert(names_ascend(m));
    if let Some(r) = o.response {
        let f = output_response_json(r)->Object_0;
        assert("body"@[0] == 'b' && "request_id"@[0] == 'r' && "status_code"@[0] == 's');
        assert(names_ascend(f));
        assert(canonical(JsonView::Text(r.request_id)));
        assert forall|i: int| 0 <= i < f.len() implies canonical((#[trigger] f[i]).1) by {}
        assert(canonical(output_response_json(r)));
    }
    assert(canonical(JsonView::Null));
    assert(canonical(JsonView::Text(o.custom_id)));
    assert(canonical(JsonView::Text(o.id)));
    assert forall|i: int| 0 <= i < m.len() implies canonical((#[trigger] m[i]).1) by {}
}

/// What is reshaped from a canonical value is canonical.
pub proof fn law_reshaped_is_canonical(v: JsonView, id: Seq<char>, request_id: Seq<char>)
    requires
        canonical(v),
    ensures
        reshaped(v, id, request_id) matches Some(o) ==> output_is_canonical(o),
{
    lemma_get_canonical(v, "response"@);
    lemma_get_canonical(v, "error"@);
    if let Some(resp) = v.get("response"@) {
        lemma_get_canonical(resp, "body"@);
    }
    let m = no_outcome_json()->Object_0;
    assert(names_ascend(m));
    assert(canonical(m[0].1));
    assert(canonical(no_outcome_json()));
    assert(canonical(JsonView::Null));
}

/// An output line has either a response or an error, never both and never neither.
pub proof fn law_output_has_one_outcome(v: JsonView, id: Seq<char>, request_id: Seq<char>)
    ensures
        reshaped(v, id, request_id) matches Some(o) ==> (o.response is Some <==> o.error is None),
{
}

/// Whatever ids are drawn, an output line is of the id of its stored line, and says the
/// same of it.
pub proof fn law_reshape_keeps_the_outcome(
    v: JsonView,
    id: Seq<char>,
    request_id: Seq<char>,
    other_id: Seq<char>,
    other_request_id: Seq<char>,
)
    ensures
        (reshaped(v, id, request_id) is Some) == (reshaped(v, other_id, other_request_id) is Some),
        reshaped(v, id, request_id) matches Some(a) ==> (reshaped(
            v,
            other_id,
            other_request_id,
        ) matches Some(b) && a.custom_id == b.custom_id && a.error == b.error && (a.response is Some
            == b.response is Some)),
{
}

/// A file is written field by field under the names that the API gives them.
pub proof fn law_files_are_written_by_name(f: &FileObject, j: Json, text: String)
    requires
        call_ensures(FileObject::to_json, (f,), j),
        call_ensures(FileObject::to_text, (f,), text),
    ensures
        text@ == json_text(j@),
        j@.str_at("id"@) == Some(f.id@),
        j@.str_at("object"@) == Some(f.object@),
        j@.u64_at("bytes"@) == Some(f.bytes),
        j@.str_at("filename"@) == Some(f.filename@),
        j@.str_at("purpose"@) == Some(f.purpose@),
        f.created_at >= 0 ==> j@.u64_at("created_at"@) == Some(f.created_at as u64),
{
    reveal_strlit("bytes");
    reveal_strlit("created_at");
    reveal_strlit("filename");
    reveal_strlit("id");
    reveal_strlit("object");
    reveal_strlit("purpose");
    lemma_lex_at("bytes"@, "created_at"@, 0);
    lemma_lex_at("created_at"@, "filename"@, 0);
    lemma_lex_at("filename"@, "id"@, 0);
    lemma_lex_at("id"@, "object"@, 0);
    lemma_lex_at("object"@, "purpose"@, 0);
    let m = j@->Object_0;
    assert(neighbours_ascend(m));
    lemma_neighbours(m);
    lemma_member_at(m, 0);
    lemma_member_at(m, 1);
    lemma_member_at(m, 2);
    lemma_member_at(m, 3);
    lemma_member_at(m, 4);
    lemma_member_at(m, 5);
}

/// Progress is written field by field.
pub proof fn law_progress_is_written_by_name(c: &RequestCounts, j: Json)
    requires
        call_ensures(RequestCounts::to_json, (c,), j),
    ensures
        j@.u64_at("total"@) == Some(c.total),
        j@.u64_at("completed"@) == Some(c.completed),
        j@.u64_at("failed"@) == Some(c.failed),
{
    reveal_strlit("completed");
    reveal_strlit("failed");
    reveal_strlit("total");
    assert("completed"@[0] == 'c' && "failed"@[0] == 'f' && "total"@[0] == 't');
    let m = j@->Object_0;
    assert(names_ascend(m));
    lemma_member_at(m, 0);
    lemma_member_at(m, 1);
    lemma_member_at(m, 2);
}

/// A batch is written field by field under the names that the API gives them: an instant
/// or a file that it does not have yet is `null`.
pub proof fn law_batches_are_written_by_name(b: &BatchObject, j: Json, text: String)
    requires
        call_ensures(BatchObject::to_json, (b,), j),
        call_ensures(BatchObject::to_text, (b,), text),
    ensures
        text@ == json_text(j@),
        batch_reads(j@, *b),
{
    lemma_batch_reads(*b);
}

/// The value of a batch: each field under its name.
pub open spec fn batch_reads(j: JsonView, b: BatchObject) -> bool {
    &&& j.str_at("id"@) == Some(b.id@)
    &&& j.str_at("object"@) == Some(b.object@)
    &&& j.str_at("endpoint"@) == Some(b.endpoint@)
    &&& j.str_at("input_file_id"@) == Some(b.input_file_id@)
    &&& j.str_at("completion_window"@) == Some(b.completion_window@)
    &&& j.str_at("status"@) == Some(b.status@)
    &&& b.created_at >= 0 ==> j.u64_at("created_at"@) == Some(b.created_at as u64)
    &&& opt_instant(j, "in_progress_at"@, b.in_progress_at)
    &&& opt_instant(j, "completed_at"@, b.completed_at)
    &&& opt_instant(j, "cancelled_at"@, b.cancelled_at)
    &&& j.get("output_file_id"@) == Some(
        match b.output_file_id {
            Some(t) => JsonView::Text(t@),
            None => JsonView::Null,
        },
    )
    &&& j.get("error_file_id"@) == Some(
        match b.error_file_id {
            Some(t) => JsonView::Text(t@),
            None => JsonView::Null,
        },
    )
    &&& j.get("request_counts"@) is Some
    &&& j.get("request_counts"@)->0.u64_at("total"@) == Some(b.request_counts.total)
    &&& j.get("request_counts"@)->0.u64_at("completed"@) == Some(b.request_counts.completed)
    &&& j.get("request_counts"@)->0.u64_at("failed"@) == Some(b.request_counts.failed)
}

/// The instant under a name, or `null` where there is none.
pub open spec fn opt_instant(j: JsonView, key: Seq<char>, t: Option<i64>) -> bool {
    match t {
        Some(n) => n >= 0 ==> j.u64_at(key) == Some(n as u64),
        None => j.get(key) == Some(JsonView::Null),
    }
}

pub proof fn lemma_batch_reads(b: BatchObject)
    ensures
        batch_reads(batch_json(b), b),
{
    lemma_batch_names(b);
    let m = batch_json(b)->Object_0;
    lemma_member_at(m, 0);
    lemma_member_at(m, 1);
    lemma_member_at(m, 2);
    lemma_member_at(m, 3);
    lemma_member_at(m, 4);
    lemma_member_at(m, 5);
    lemma_member_at(m, 6);
    lemma_member_at(m, 7);
    lemma_member_at(m, 8);
    lemma_member_at(m, 9);
    lemma_member_at(m, 10);
    lemma_member_at(m, 11);
    lemma_member_at(m, 12);
    reveal_strlit("completed");
    reveal_strlit("failed");
    reveal_strlit("total");
    assert("completed"@[0] == 'c' && "failed"@[0] == 'f' && "total"@[0] == 't');
    let c = counts_json(b.request_counts)->Object_0;
    assert(names_ascend(c));
    lemma_member_at(c, 0);
    lemma_member_at(c, 1);
    lemma_member_at(c, 2);
}

/// A list holds each of its batches, in order.
pub proof fn law_lists_hold_their_batches(l: &ListEnvelope<BatchObject>, j: Json, text: String)
    requires
        call_ensures(ListEnvelope::<BatchObject>::to_json, (l,), j),
        call_ensures(ListEnvelope::<BatchObject>::to_text, (l,), text),
    ensures
        text@ == json_text(j@),
        list_reads(j@, l.object@, l.data@),
{
    lemma_list_reads(l.object@, l.data@);
}

/// The value of a list of batches: each batch, in order.
pub open spec fn list_reads(j: JsonView, object: Seq<char>, data: Seq<BatchObject>) -> bool {
    &&& j.str_at("object"@) == Some(object)
    &&& j.array_at("data"@) is Some
    &&& j.array_at("data"@)->0.len() == data.len()
    &&& forall|i: int|
        0 <= i < data.len() ==> batch_reads(j.array_at("data"@)->0[i], #[trigger] data[i])
}

pub proof fn lemma_list_reads(object: Seq<char>, data: Seq<BatchObject>)
    ensures
        list_reads(list_json(object, data), object, data),
{
    reveal_strlit("data");
    reveal_strlit("object");
    assert("data"@[0] == 'd' && "object"@[0] == 'o');
    let m = list_json(object, data)->Object_0;
    assert(names_ascend(m));
    lemma_member_at(m, 0);
    lemma_member_at(m, 1);
    assert forall|i: int| 0 <= i < data.len() implies batch_reads(
        list_json(object, data).array_at("data"@)->0[i],
        #[trigger] data[i],
    ) by {
        lemma_batch_reads(data[i]);
    }
}

/// The output line of a stored result tells its outcome: a response that is there is passed
/// on with its status, its request id and its body; else the error is; and a result with
/// neither is an error. A line without an id has no output.
pub proof fn law_outputs_tell_the_stored_outcome(
    v: &Json,
    id: String,
    request_id: String,
    r: Option<OutputLine>,
)
    requires
        call_ensures(reshape_value, (v, id, request_id), r),
    ensures
        r is Some <==> v@.str_at("custom_id"@) is Some,
        r matches Some(o) ==> ({
            let resp = v@.get("response"@);
            let err = v@.get("error"@);
            let answered = resp is Some && !(resp->0 is Null);
            &&& o.id@ == id@
            &&& v@.str_at("custom_id"@) == Some(o.custom_id@)
            &&& answered ==> o.error is None && o.response is Some && ({
                let out = o.response->0;
                &&& resp->0.get("body"@) is Some ==> out.body@ == resp->0.get("body"@)->0
                &&& resp->0.get("body"@) is None ==> out.body@ is Null
                &&& resp->0.u64_at("status_code"@) is Some && resp->0.u64_at("status_code"@)->0
                    <= u16::MAX ==> out.status_code == resp->0.u64_at("status_code"@)->0
                &&& resp->0.u64_at("status_code"@) is None ==> out.status_code == 200
                &&& resp->0.str_at("request_id"@) is Some ==> out.request_id@ == resp->0.str_at(
                    "request_id"@,
                )->0
                &&& resp->0.str_at("request_id"@) is None ==> out.request_id@ == request_id@
            })
            &&& !answered ==> o.response is None && o.error is Some
            &&& !answered && err is Some && !(err->0 is Null) ==> o.error->0@ == err->0
            &&& !answered && (err is None || err->0 is Null) ==> o.error->0@.str_at("message"@)
                is Some
        }),
{
    assert(no_outcome_json()->Object_0[0].0 == "message"@);
}

/// An output line is written field by field: its id, the id of its request, and the
/// response and the error, one of which is `null`.
pub proof fn law_outputs_are_written_by_name(o: &OutputLine, j: Json)
    requires
        call_ensures(OutputLine::to_json, (o,), j),
    ensures
        j@.str_at("id"@) == Some(o.id@),
        j@.str_at("custom_id"@) == Some(o.custom_id@),
        j@.get("error"@) == Some(
            match o.error {
                Some(e) => e@,
                None => JsonView::Null,
            },
        ),
        o.response is None ==> j@.get("response"@) == Some(JsonView::Null),
        o.response matches Some(r) ==> (j@.get("response"@) matches Some(x) && x.get("body"@) == Some(
            r.body@,
        ) && x.u64_at("status_code"@) == Some(r.status_code as u64) && x.str_at("request_id"@)
            == Some(r.request_id@)),
{
    reveal_strlit("custom_id");
    reveal_strlit("error");
    reveal_strlit("id");
    reveal_strlit("response");
    reveal_strlit("body");
    reveal_strlit("request_id");
    reveal_strlit("status_code");
    assert("custom_id"@[0] == 'c' && "error"@[0] == 'e' && "id"@[0] == 'i' && "response"@[0]
        == 'r');
    assert("body"@[0] == 'b' && "request_id"@[0] == 'r' && "status_code"@[0] == 's');
    let m = j@->Object_0;
    assert(names_ascend(m));
    lemma_member_at(m, 0);
    lemma_member_at(m, 1);
    lemma_member_at(m, 2);
    lemma_member_at(m, 3);
    if let Some(r) = o.response {
        let f = output_response_json(r@)->Object_0;
        assert(names_ascend(f));
        lemma_member_at(f, 0);
        lemma_member_at(f, 1);
        lemma_member_at(f, 2);
    }
}

/// A request to create a batch is read by the names of its fields; only the window may be
/// missing.
pub proof fn law_batch_requests_are_read_by_name(j: &Json, r: Option<CreateBatchRequest>)
    requires
        call_ensures(CreateBatchRequest::from_json, (j,), r),
        j@ is Object,
    ensures
        r matches Some(x) ==> j@.str_at("input_file_id"@) == Some(x.input_file_id@) && j@.str_at(
            "endpoint"@,
        ) == Some(x.endpoint@) && (x.completion_window matches Some(w) ==> j@.str_at(
            "completion_window"@,
        ) == Some(w@)) && (x.completion_window is None ==> (j@.get("completion_window"@) is None
            || j@.get("completion_window"@)->0 is Null)),
        j@.str_at("input_file_id"@) is Some && j@.str_at("endpoint"@) is Some && (j@.get(
            "completion_window"@,
        ) is None || j@.str_at("completion_window"@) is Some) ==> r is Some,
{
}

/// A stored line has an output line just where it can be read and has an id, and then it
/// is that of what it is read as, under ids that say what they are.
pub proof fn law_stored_lines_are_read_as_json(line: &str, r: Option<OutputLine>)
    requires
        call_ensures(reshape_result_line, (line,), r),
    ensures
        json_parse(line@) is Err ==> r is None,
        json_parse(line@) matches Ok(v) ==> ({
            &&& r is Some <==> v.str_at("custom_id"@) is Some
            &&& r is Some ==> v.str_at("custom_id"@) == Some(r->0.custom_id@)
            &&& r is Some ==> r->0.id@.len() == 34 && r->0.id@.take(10) == "batch_req_"@
            &&& r is Some && v.get("response"@) is Some && !(v.get("response"@)->0 is Null)
                ==> r->0.error is None && r->0.response is Some && (v.get("response"@)->0.get(
                "body"@,
            ) is Some ==> r->0.response->0.body@ == v.get("response"@)->0.get("body"@)->0)
            &&& r is Some && (v.get("response"@) is None || v.get("response"@)->0 is Null)
                ==> r->0.response is None && r->0.error is Some
        }),
{
    reveal_strlit("batch_req_");
    if r is Some {
        let o = r->0;
        let v = json_parse(line@)->Ok_0;
        let (id, request_id) = choose|id: Seq<char>, request_id: Seq<char>|
            is_request_id(id) && is_made_up_id(request_id) && #[trigger] reshaped(
                v,
                id,
                request_id,
            ) == Some(o@);
        let h = choose|h: Seq<char>| #[trigger] is_hex_of(h, 12) && id == "batch_req_"@ + h;
        law_hex_is_lower_case_digits(h, 12);
        assert(o.id@ == id);
        assert(o.id@.take(10) == "batch_req_"@);
    }
}


} // verus!

//! The handlers of the batch front door: what each answers, and what it changes.

use vstd::prelude::*;
use vstd::utf8::{decode_utf8, valid_utf8};

use crate::json::{json_parse, json_text, JsonView};
use crate::openai::{
    batch_json, create_request_of, file_json, list_json, no_requests, BatchObject,
    CreateBatchRequest, CreateBatchView, FileObject, ListEnvelope,
};
use crate::paths::{below, join_path};
use crate::queue::QueueCounts;
use crate::registry::{
    cancelled, counts_fit, create_refusal, created, health_json, health_text, in_progress,
    is_batch_object, is_file_object, newest_come_first, newest_first, progress_of, BatchEntryView, FileKind, FileRecordView,
    Registry,
};
use crate::server::{query_param, query_value};
use crate::text::{concat2, decode};

verus! {

/// An answer: its status, its body, and whether the body is JSON.
#[derive(Debug, Clone, PartialEq, Eq)]
pub struct Response {
    pub status: u16,
    pub body: String,
    pub json: bool,
}

/// The answer is a message.
pub open spec fn says(r: Response, status: u16, message: Seq<char>) -> bool {
    r.status == status && r.body@ == message && !r.json
}

/// The answer is a JSON text.
pub open spec fn carries(r: Response, text: Seq<char>) -> bool {
    r.status == 200 && r.body@ == text && r.json
}

/// An answer with a message.
pub fn respond_text(status: u16, message: &str) -> (r: Response)
    ensures
        says(r, status, message@),
{
    Response { status, body: message.to_owned(), json: false }
}

/// An answer with a JSON text.
pub fn respond_json(text: String) -> (r: Response)
    ensures
        carries(r, text@),
{
    Response { status: 200, body: text, json: true }
}

/// The answer to a question for liveness.
pub fn health(reg: &Registry) -> (r: Response)
    ensures
        carries(r, json_text(health_json(reg.spec_batch_count() as u64))),
{
    respond_json(health_text(reg.batch_count() as u64))
}

/// The answer is the text of a file object of a record.
pub open spec fn carries_file(r: Response, f: FileRecordView) -> bool {
    exists|o: FileObject| #[trigger] is_file_object(o, f) && carries(r, json_text(file_json(o)))
}

/// The answer is the text of a batch object of a record.
pub open spec fn carries_batch(
    r: Response,
    e: crate::registry::BatchRecordView,
    counts: crate::openai::RequestCounts,
) -> bool {
    exists|o: BatchObject| #[trigger]
        is_batch_object(o, e, counts) && carries(r, json_text(batch_json(o)))
}

/// Takes in an uploaded file whose bytes were written below `data_dir`. The name is that
/// of the query, if it has one.
pub fn upload_file(
    reg: &mut Registry,
    raw_url: &str,
    id: &str,
    bytes: u64,
    now: i64,
    path: &str,
) -> (r: Response)
    ensures
        ({
            let record = FileRecordView {
                id: id@,
                filename: match query_value(raw_url@, "filename"@) {
                    Some(n) => n,
                    None => "batch.jsonl"@,
                },
                bytes,
                created_at: now,
                purpose: "batch"@,
                path: path@,
                kind: FileKind::Input,
            };
            &&& carries_file(r, record)
            &&& forall|x: Seq<char>| #[trigger]
                final(reg).spec_file(x) == if x == id@ {
                    Some(record)
                } else {
                    old(reg).spec_file(x)
                }
        }),
        forall|x: Seq<char>| #[trigger] final(reg).spec_batch(x) == old(reg).spec_batch(x),
        final(reg).spec_file(id@) matches Some(f) && f.id == id@ && f.bytes == bytes && f.path
            == path@ && f.created_at == now && f.kind == FileKind::Input && f.purpose == "batch"@ && (
        query_value(raw_url@, "filename"@) matches Some(n) ==> f.filename == n) && (query_value(
            raw_url@,
            "filename"@,
        ) is None ==> f.filename == "batch.jsonl"@) && carries_file(r, f),
        forall|x: Seq<char>|
            x != id@ ==> #[trigger] final(reg).spec_file(x) == old(reg).spec_file(x),
{
    let filename: Option<String> = query_param(raw_url, "filename");
    let object: FileObject = reg.add_upload(id, filename, bytes, now, path);
    respond_json(object.to_text())
}

/// Where the bytes of an upload go.
pub fn upload_path(data_dir: &str, id: &str) -> (r: String)
    ensures
        r@ == below(below(data_dir@, "files"@), id@ + ".jsonl"@),
{
    let dir: String = join_path(data_dir, "files");
    join_path(dir.as_str(), concat2(id, ".jsonl").as_str())
}

/// Where the files of a batch go.
pub fn batch_dir(data_dir: &str, id: &str) -> (r: String)
    ensures
        r@ == below(below(data_dir@, "batches"@), id@),
{
    let dir: String = join_path(data_dir, "batches");
    join_path(dir.as_str(), id)
}

/// The answer to a question for a file.
pub fn file_object(reg: &Registry, id: &str) -> (r: Response)
    ensures
        match reg.spec_file(id@) {
            Some(f) => carries_file(r, f),
            None => says(r, 404, "no such file"@),
        },
{
    match reg.file(id) {
        Some(f) => {
            let o: FileObject = f.to_object();
            let text: String = o.to_text();
            assert(is_file_object(o, f@));
            respond_json(text)
        },
        None => respond_text(404, "no such file"),
    }
}

/// A batch that was created: its id, where its files go, and where its input is.
pub struct Started {
    pub id: String,
    pub dir: String,
    pub input_path: String,
}

/// The bytes of a body that was read, if it was not too long.
pub open spec fn body_bytes(body: Option<Vec<u8>>) -> Option<Seq<u8>> {
    match body {
        Some(b) => Some(b@),
        None => None,
    }
}

/// Why a request to create a batch is refused, if it is: its body is too long, is no
/// UTF-8, does not describe a batch, or names no known file.
pub open spec fn request_refusal(
    body: Option<Seq<u8>>,
    known: spec_fn(Seq<char>) -> bool,
) -> Option<(u16, Seq<char>)> {
    match body {
        None => Some((413u16, "request body exceeds the size limit"@)),
        Some(b) => if !valid_utf8(b) {
            Some((400u16, "bad request body: "@ + "not valid UTF-8"@))
        } else {
            create_refusal(json_parse(decode_utf8(b)), known)
        },
    }
}

/// What a body that is not refused asks for.
pub open spec fn requested(body: Option<Seq<u8>>) -> CreateBatchView {
    create_request_of(json_parse(decode_utf8(body->0))->Ok_0)->0
}

/// Creates a batch from the body of a request, as the capped read gives it, under a fresh
/// id. The answer is the batch in progress; a body that is too long, is no UTF-8, does
/// not describe a batch, or names no known file, is refused and changes nothing.
pub fn create_batch(
    reg: &mut Registry,
    body: Option<Vec<u8>>,
    id: &str,
    data_dir: &str,
    now: i64,
) -> (r: (Response, Option<Started>))
    ensures
        match request_refusal(body_bytes(body), |x: Seq<char>| old(reg).spec_file(x) is Some) {
            Some((status, message)) => {
                &&& r.1 is None
                &&& says(r.0, status, message)
                &&& *final(reg) == *old(reg)
            },
            None => {
                let request = requested(body_bytes(body));
                let record = created(id@, request, now);
                &&& carries_batch(r.0, record, no_requests())
                &&& r.1 matches Some(s) && s.id@ == id@ && s.dir@ == below(
                    below(data_dir@, "batches"@),
                    id@,
                ) && s.input_path@ == old(reg).spec_file(request.input_file_id)->0.path
                &&& old(reg).spec_file(request.input_file_id) is Some
                &&& forall|x: Seq<char>| #[trigger]
                    final(reg).spec_batch(x) == if x == id@ {
                        Some(
                            BatchEntryView {
                                record,
                                dir: below(below(data_dir@, "batches"@), id@),
                                running: true,
                                cancel: false,
                            },
                        )
                    } else {
                        old(reg).spec_batch(x)
                    }
            },
        },
        forall|x: Seq<char>| #[trigger] final(reg).spec_file(x) == old(reg).spec_file(x),
{
    let bytes: Vec<u8> = match body {
        Some(b) => b,
        None => {
            return (respond_text(413, "request body exceeds the size limit"), None);
        },
    };
    let text: String = match decode(bytes.as_slice()) {
        Some(t) => t,
        None => {
            let message: String = concat2("bad request body: ", "not valid UTF-8");
            return (respond_text(400, message.as_str()), None);
        },
    };
    let planned: Result<(CreateBatchRequest, String), (u16, String)> = reg.plan_batch(
        text.as_str(),
    );
    match planned {
        Ok((request, input_path)) => {
            let dir: String = batch_dir(data_dir, id);
            let object: BatchObject = reg.start_batch(id, dir.as_str(), &request, now);
            let text: String = object.to_text();
            assert(is_batch_object(object, created(id@, request@, now), no_requests()));
            (respond_json(text), Some(Started { id: id.to_owned(), dir, input_path }))
        },
        Err((status, message)) => (Response { status, body: message, json: false }, None),
    }
}

/// The refusal of an upload that the capped read found too long.
pub fn refuse_upload(body: &Option<Vec<u8>>) -> (r: Option<Response>)
    ensures
        match r {
            Some(x) => body is None && says(x, 413, "upload body exceeds the size limit"@),
            None => body is Some,
        },
{
    match body {
        Some(_) => None,
        None => Some(respond_text(413, "upload body exceeds the size limit")),
    }
}

/// The answer to a question for a batch with its progress.
pub fn get_batch(reg: &Registry, id: &str, counts: Option<QueueCounts>) -> (r: Response)
    requires
        counts_fit(counts),
    ensures
        match reg.spec_batch(id@) {
            Some(e) => carries_batch(r, e.record, progress_of(counts)),
            None => says(r, 404, "no such batch"@),
        },
{
    match reg.batch_object(id, counts) {
        Some(o) => {
            let text: String = o.to_text();
            assert(is_batch_object(o, reg.spec_batch(id@)->0.record, progress_of(counts)));
            respond_json(text)
        },
        None => respond_text(404, "no such batch"),
    }
}

/// `o` is the object of the batch with its progress.
pub open spec fn listed(reg: Registry, o: BatchObject, id: Seq<char>, counts: Option<QueueCounts>) -> bool {
    reg.spec_batch(id) is Some && is_batch_object(
        o,
        reg.spec_batch(id)->0.record,
        progress_of(counts),
    )
}

/// The objects of the batches that are still known, in the order of the question.
pub open spec fn lists(
    reg: Registry,
    asked: Seq<(String, Option<QueueCounts>)>,
    data: Seq<BatchObject>,
) -> bool
    decreases asked.len(),
{
    if asked.len() == 0 {
        data.len() == 0
    } else if reg.spec_batch(asked.last().0@) is Some {
        data.len() > 0 && lists(reg, asked.drop_last(), data.drop_last()) && listed(
            reg,
            data.last(),
            asked.last().0@,
            asked.last().1,
        )
    } else {
        lists(reg, asked.drop_last(), data)
    }
}

/// The answer lists the batches, the newest first.
pub open spec fn carries_list(
    r: Response,
    reg: Registry,
    asked: Seq<(String, Option<QueueCounts>)>,
) -> bool {
    exists|data: Seq<BatchObject>, sorted: Seq<BatchObject>|
        #![trigger data.to_multiset(), sorted.to_multiset()]
        lists(reg, asked, data) && newest_come_first(sorted) && sorted.to_multiset()
            == data.to_multiset() && carries(r, json_text(list_json("list"@, sorted)))
}

/// The answer to a question for all batches: those asked for, each with its progress,
/// the newest first.
pub fn list_batches(reg: &Registry, asked: &[(String, Option<QueueCounts>)]) -> (r: Response)
    requires
        forall|i: int| 0 <= i < asked@.len() ==> counts_fit((#[trigger] asked@[i]).1),
    ensures
        carries_list(r, *reg, asked@),
{
    let mut data: Vec<BatchObject> = Vec::new();
    let mut i: usize = 0;
    assert(asked@.take(0) == Seq::<(String, Option<QueueCounts>)>::empty());
    while i < asked.len()
        invariant
            i <= asked@.len(),
            forall|k: int| 0 <= k < asked@.len() ==> counts_fit((#[trigger] asked@[k]).1),
            lists(*reg, asked@.take(i as int), data@),
        decreases asked@.len() - i,
    {
        let ghost before = data@;
        proof {
            assert(asked@.take(i + 1).drop_last() == asked@.take(i as int));
            assert(counts_fit(asked@[i as int].1));
        }
        match reg.batch_object(asked[i].0.as_str(), asked[i].1) {
            Some(o) => {
                data.push(o);
                assert(data@.drop_last() == before);
            },
            None => {},
        }
        i = i + 1;
    }
    assert(asked@.take(asked@.len() as int) == asked@);
    let ghost all = data@;
    let env: ListEnvelope<BatchObject> = ListEnvelope::new(newest_first(data));
    let r: Response = respond_json(env.to_text());
    assert(lists(*reg, asked@, all) && newest_come_first(env.data@) && env.data@.to_multiset()
        == all.to_multiset());
    r
}

/// Cancels a batch that is in progress; a batch that has ended is left as it is. The
/// caller answers with the batch and its progress.
pub fn cancel_batch(reg: &mut Registry, id: &str, now: i64) -> (r: Option<Response>)
    ensures
        match r {
            Some(x) => old(reg).spec_batch(id@) is None && says(x, 404, "no such batch"@)
                && *final(reg) == *old(reg),
            None => old(reg).spec_batch(id@) is Some && ({
                let e = old(reg).spec_batch(id@)->0;
                forall|x: Seq<char>| #[trigger]
                    final(reg).spec_batch(x) == if x == id@ {
                        Some(
                            BatchEntryView {
                                record: cancelled(e.record, now),
                                cancel: e.cancel || in_progress(e.record),
                                ..e
                            },
                        )
                    } else {
                        old(reg).spec_batch(x)
                    }
            }),
        },
        forall|x: Seq<char>| #[trigger] final(reg).spec_file(x) == old(reg).spec_file(x),
        old(reg).spec_batch(id@) matches Some(e) ==> e.record.status == "in_progress"@ ==> (
        final(reg).spec_batch(id@) matches Some(f) && f.cancel && f.record.status == "cancelled"@
            && f.record.cancelled_at == Some(now) && f.record.completed_at
            == e.record.completed_at && f.record.id == e.record.id),
        old(reg).spec_batch(id@) matches Some(e) ==> e.record.status != "in_progress"@ ==> final(reg).spec_batch(id@) == Some(e),
{
    if reg.batch(id).is_none() {
        return Some(respond_text(404, "no such batch"));
    }
    let _ = reg.cancel_batch(id, now);
    None
}

/// Whoever asks for a batch is told of it as it is kept, field by field, with its progress:
/// the done requests completed, the dead ones failed, all of them in the total. A batch
/// that is not known is not found.
pub proof fn law_batches_are_answered_as_kept(
    reg: &Registry,
    id: &str,
    counts: Option<QueueCounts>,
    r: Response,
)
    requires
        counts_fit(counts),
        call_ensures(get_batch, (reg, id, counts), r),
    ensures
        reg.spec_batch(id@) is None ==> r.status == 404 && !r.json,
        reg.spec_batch(id@) matches Some(e) ==> r.status == 200 && r.json && exists|j: JsonView|
            r.body@ == #[trigger] json_text(j) && j.str_at("id"@) == Some(e.record.id) && j.str_at(
                "object"@,
            ) == Some("batch"@) && j.str_at("status"@) == Some(e.record.status) && j.str_at(
                "endpoint"@,
            ) == Some(e.record.endpoint) && j.str_at("input_file_id"@) == Some(
                e.record.input_file_id,
            ) && (e.record.output_file_id matches Some(f) ==> j.str_at("output_file_id"@) == Some(f))
                && (e.record.error_file_id matches Some(f) ==> j.str_at("error_file_id"@) == Some(f))
                && (j.get("request_counts"@) matches Some(c) && match counts {
                Some(n) => c.u64_at("completed"@) == Some(n.done) && c.u64_at("failed"@) == Some(
                    n.dead,
                ) && c.u64_at("total"@) == Some((n.pending + n.leased + n.done + n.dead) as u64),
                None => c.u64_at("completed"@) == Some(0u64) && c.u64_at("failed"@) == Some(0u64)
                    && c.u64_at("total"@) == Some(0u64),
            }),
{
    if let Some(e) = reg.spec_batch(id@) {
        let o = choose|o: BatchObject| #[trigger]
            is_batch_object(o, e.record, progress_of(counts)) && carries(
                r,
                json_text(batch_json(o)),
            );
        crate::openai::lemma_batch_reads(o);
        let j = batch_json(o);
        assert(r.body@ == json_text(j));
    }
}

/// Whoever asks for a file is told of it as it is kept; a file that is not known is not
/// found.
pub proof fn law_files_are_answered_as_kept(reg: &Registry, id: &str, r: Response)
    requires
        call_ensures(file_object, (reg, id), r),
    ensures
        reg.spec_file(id@) is None ==> r.status == 404 && !r.json,
        reg.spec_file(id@) matches Some(f) ==> r.status == 200 && r.json && exists|o: FileObject|
            o.id@ == f.id && o.bytes == f.bytes && o.filename@ == f.filename && o.purpose@
                == f.purpose && o.created_at == f.created_at && o.object@ == "file"@ && r.body@
                == json_text(#[trigger] file_json(o)),
{
    if let Some(f) = reg.spec_file(id@) {
        let o = choose|o: FileObject| #[trigger]
            is_file_object(o, f) && carries(r, json_text(file_json(o)));
        assert(r.body@ == json_text(file_json(o)));
    }
}

/// An upload is answered with its file, kept under its id with its size, its place, and the
/// name that the query gives it.
pub proof fn law_uploads_are_answered_and_kept(
    before: Registry,
    after: Registry,
    raw_url: &str,
    id: &str,
    bytes: u64,
    now: i64,
    path: &str,
    r: Response,
)
    requires
        exists|m: &mut Registry|
            *m == before && *final(m) == after && #[trigger] call_ensures(
                upload_file,
                (m, raw_url, id, bytes, now, path),
                r,
            ),
    ensures
        r.status == 200,
        r.json,
        after.spec_file(id@) matches Some(f) && f.id == id@ && f.bytes == bytes && f.path == path@
            && f.created_at == now && f.kind == FileKind::Input && f.purpose == "batch"@ && (
        query_value(raw_url@, "filename"@) matches Some(n) ==> f.filename == n) && (query_value(
            raw_url@,
            "filename"@,
        ) is None ==> f.filename == "batch.jsonl"@),
        forall|x: Seq<char>| x != id@ ==> #[trigger] after.spec_file(x) == before.spec_file(x),
        forall|x: Seq<char>| #[trigger] after.spec_batch(x) == before.spec_batch(x),
        exists|o: FileObject|
            o.id@ == id@ && o.bytes == bytes && o.object@ == "file"@ && o.purpose@ == "batch"@
                && r.body@ == json_text(#[trigger] file_json(o)),
{
    let f = after.spec_file(id@)->0;
    let o = choose|o: FileObject| #[trigger]
        is_file_object(o, f) && carries(r, json_text(file_json(o)));
    assert(r.body@ == json_text(file_json(o)));
}

/// A request to create a batch is answered with the batch in progress, which is then known
/// under its id and runs over the file it names; or it is refused, and nothing changes.
pub proof fn law_batches_are_created_or_refused(
    before: Registry,
    after: Registry,
    body: Option<Vec<u8>>,
    id: &str,
    data_dir: &str,
    now: i64,
    r: (Response, Option<Started>),
)
    requires
        exists|m: &mut Registry|
            *m == before && *final(m) == after && #[trigger] call_ensures(
                create_batch,
                (m, body, id, data_dir, now),
                r,
            ),
    ensures
        r.1 is Some <==> r.0.status == 200,
        r.1 is None ==> after == before && !r.0.json && (r.0.status == 400 || r.0.status == 404
            || r.0.status == 413),
        body is None ==> r.0.status == 413,
        r.1 matches Some(s) ==> r.0.json && s.id@ == id@ && (after.spec_batch(id@) matches Some(e)
            && e.running && !e.cancel && e.dir == s.dir@ && e.record.id == id@ && e.record.status
            == "in_progress"@ && e.record.created_at == now && e.record.in_progress_at == Some(now)
            && e.record.completed_at is None && e.record.output_file_id is None && (
        before.spec_file(e.record.input_file_id) matches Some(f) && s.input_path@ == f.path)),
        r.1 is Some ==> (forall|x: Seq<char>|
            x != id@ ==> #[trigger] after.spec_batch(x) == before.spec_batch(x)),
        forall|x: Seq<char>| #[trigger] after.spec_file(x) == before.spec_file(x),
{
}

/// Liveness is answered with the number of batches.
pub proof fn law_health_counts_batches(reg: &Registry, r: Response)
    requires
        call_ensures(health, (reg,), r),
    ensures
        r.status == 200,
        r.json,
        exists|j: JsonView|
            r.body@ == #[trigger] json_text(j) && j.str_at("status"@) == Some("ok"@) && j.u64_at(
                "batches"@,
            ) == Some(reg.spec_batch_count() as u64),
{
    reveal_strlit("batches");
    reveal_strlit("status");
    assert("batches"@[0] == 'b' && "status"@[0] == 's');
    let j = health_json(reg.spec_batch_count() as u64);
    let m = j->Object_0;
    reveal_with_fuel(crate::json::member, 3);
    assert(m.skip(1)[0] == m[1]);
    assert(r.body@ == json_text(j));
}

proof fn lemma_lists(reg: Registry, asked: Seq<(String, Option<QueueCounts>)>, data: Seq<BatchObject>)
    requires
        lists(reg, asked, data),
    ensures
        forall|i: int|
            0 <= i < asked.len() && reg.spec_batch((#[trigger] asked[i]).0@) is Some ==> exists|k: int|
                0 <= k < data.len() && is_batch_object(
                    #[trigger] data[k],
                    reg.spec_batch(asked[i].0@)->0.record,
                    progress_of(asked[i].1),
                ),
        data.len() <= asked.len(),
    decreases asked.len(),
{
    if asked.len() > 0 {
        let n = asked.len() - 1;
        let init = asked.drop_last();
        let known = reg.spec_batch(asked.last().0@) is Some;
        let rest = if known {
            data.drop_last()
        } else {
            data
        };
        lemma_lists(reg, init, rest);
        assert forall|i: int|
            0 <= i < asked.len() && reg.spec_batch((#[trigger] asked[i]).0@) is Some implies exists|
            k: int,
        |
            0 <= k < data.len() && is_batch_object(
                #[trigger] data[k],
                reg.spec_batch(asked[i].0@)->0.record,
                progress_of(asked[i].1),
            ) by {
            if i < n {
                assert(init[i] == asked[i]);
                let k = choose|k: int|
                    0 <= k < rest.len() && is_batch_object(
                        #[trigger] rest[k],
                        reg.spec_batch(asked[i].0@)->0.record,
                        progress_of(asked[i].1),
                    );
                assert(data[k] == rest[k]);
            } else {
                assert(is_batch_object(
                    data[data.len() - 1],
                    reg.spec_batch(asked[i].0@)->0.record,
                    progress_of(asked[i].1),
                ));
            }
        }
    }
}

/// The value tells of a batch as it is kept, with the progress of its queue.
pub open spec fn tells_of(
    b: JsonView,
    kept: crate::registry::BatchRecordView,
    counts: Option<QueueCounts>,
) -> bool {
    &&& b.str_at("id"@) == Some(kept.id)
    &&& b.str_at("status"@) == Some(kept.status)
    &&& b.str_at("input_file_id"@) == Some(kept.input_file_id)
    &&& b.get("request_counts"@) is Some
    &&& counts matches Some(c) ==> {
        let progress = b.get("request_counts"@)->0;
        &&& progress.u64_at("completed"@) == Some(c.done)
        &&& progress.u64_at("failed"@) == Some(c.dead)
        &&& progress.u64_at("total"@) == Some((c.pending + c.leased + c.done + c.dead) as u64)
    }
}

/// A list tells of every batch that is asked for and known, with its progress, the newest
/// first.
pub proof fn law_lists_tell_of_every_batch(
    reg: &Registry,
    asked: &[(String, Option<QueueCounts>)],
    r: Response,
    i: int,
)
    requires
        call_ensures(list_batches, (reg, asked), r),
        0 <= i < asked@.len(),
        reg.spec_batch(asked@[i].0@) is Some,
        counts_fit(asked@[i].1),
    ensures
        r.status == 200,
        r.json,
        exists|j: JsonView, k: int|
            r.body@ == #[trigger] json_text(j) && j.str_at("object"@) == Some("list"@) && j.array_at(
                "data"@,
            ) is Some && 0 <= k < j.array_at("data"@)->0.len() && tells_of(
                #[trigger] j.array_at("data"@)->0[k],
                reg.spec_batch(asked@[i].0@)->0.record,
                asked@[i].1,
            ),
{
    let (data, sorted) = choose|data: Seq<BatchObject>, sorted: Seq<BatchObject>|
        #![trigger data.to_multiset(), sorted.to_multiset()]
        lists(*reg, asked@, data) && newest_come_first(sorted) && sorted.to_multiset()
            == data.to_multiset() && carries(r, json_text(list_json("list"@, sorted)));
    lemma_lists(*reg, asked@, data);
    let kept = reg.spec_batch(asked@[i].0@)->0.record;
    let d = choose|k: int|
        0 <= k < data.len() && is_batch_object(
            #[trigger] data[k],
            kept,
            progress_of(asked@[i].1),
        );
    data.to_multiset_ensures();
    sorted.to_multiset_ensures();
    assert(data.contains(data[d]));
    assert(data.to_multiset().count(data[d]) > 0);
    assert(sorted.contains(data[d]));
    let k = choose|k: int| 0 <= k < sorted.len() && sorted[k] == data[d];
    crate::openai::lemma_list_reads("list"@, sorted);
    let j = list_json("list"@, sorted);
    assert(crate::openai::batch_reads(j.array_at("data"@)->0[k], sorted[k]));
    assert(r.body@ == json_text(j));
    assert(tells_of(j.array_at("data"@)->0[k], kept, asked@[i].1));
}

/// Answers are what they are made of: a message with its status, or a JSON text with
/// success; an upload whose body is over the limit is refused as too large.
pub proof fn law_answers_are_what_they_are_made_of(
    status: u16,
    message: &str,
    said: Response,
    text: String,
    carried: Response,
    body: &Option<Vec<u8>>,
    refusal: Option<Response>,
)
    requires
        call_ensures(respond_text, (status, message), said),
        call_ensures(respond_json, (text,), carried),
        call_ensures(refuse_upload, (body,), refusal),
    ensures
        said.status == status && said.body@ == message@ && !said.json,
        carried.status == 200 && carried.body@ == text@ && carried.json,
        *body is None <==> refusal is Some,
        refusal matches Some(x) ==> x.status == 413 && !x.json,
{
}

/// What is uploaded stands under its id among the files, and a batch has a directory of its
/// own among the batches, both below the data directory.
pub proof fn law_data_stands_under_its_id(
    data_dir: &str,
    id: &str,
    file: String,
    batch: String,
)
    requires
        call_ensures(upload_path, (data_dir, id), file),
        call_ensures(batch_dir, (data_dir, id), batch),
    ensures
        data_dir@.len() > 0 && data_dir@.last() != '/' ==> file@ == data_dir@ + "/files/"@ + id@
            + ".jsonl"@,
        data_dir@.len() > 0 && data_dir@.last() != '/' ==> batch@ == data_dir@ + "/batches/"@
            + id@,
{
    reveal_strlit("/");
    reveal_strlit("files");
    reveal_strlit("/files/");
    reveal_strlit("batches");
    reveal_strlit("/batches/");
    if data_dir@.len() > 0 && data_dir@.last() != '/' {
        let f = below(data_dir@, "files"@);
        let b = below(data_dir@, "batches"@);
        assert(f.last() == 's' && b.last() == 's');
        assert(f + "/"@ == data_dir@ + "/files/"@);
        assert(b + "/"@ == data_dir@ + "/batches/"@);
        assert(file@ == data_dir@ + "/files/"@ + id@ + ".jsonl"@);
    }
}


/// A request for a batch that is no UTF-8, or no JSON, is a bad one; one that is read and
/// names a known file starts a batch.
pub proof fn law_batch_bodies_are_read(
    before: Registry,
    after: Registry,
    bytes: Vec<u8>,
    id: &str,
    data_dir: &str,
    now: i64,
    r: (Response, Option<Started>),
    planned: Result<(crate::openai::CreateBatchRequest, String), (u16, String)>,
    text: &str,
)
    requires
        exists|m: &mut Registry|
            *m == before && *final(m) == after && #[trigger] call_ensures(
                create_batch,
                (m, Some(bytes), id, data_dir, now),
                r,
            ),
        valid_utf8(bytes@) ==> text@ == decode_utf8(bytes@),
        call_ensures(Registry::plan_batch, (&before, text), planned),
    ensures
        !valid_utf8(bytes@) ==> r.0.status == 400 && r.1 is None,
        valid_utf8(bytes@) ==> (r.1 is Some <==> planned is Ok),
        valid_utf8(bytes@) && planned is Err ==> r.0.status == planned->Err_0.0,
        valid_utf8(bytes@) && planned is Ok ==> r.1 is Some && r.1->0.input_path@
            == planned->Ok_0.1@,
{
}


} // verus!

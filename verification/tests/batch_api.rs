use forge::front_door::{
    batch_dir, cancel_batch, create_batch, file_object, get_batch, health, list_batches,
    refuse_upload, upload_file, upload_path,
};
use forge::json::{parse_json, Json};
use forge::openai::{
    rand_hex, reshape_result_line, BatchObject, CreateBatchRequest, FileObject, ListEnvelope,
    RequestCounts,
};
use forge::queue::QueueCounts;
use forge::registry::{
    new_batch_id, new_file_id, newest_first, reshape_results_once, BatchRecord, FileRecord, Minted,
    Registry,
};
use forge::server::{
    bearer_matches, constant_time_eq, header_value, path_of, query_param, read_body_capped,
    route_request, Route,
};

fn json(text: &str) -> Json {
    parse_json(text).unwrap()
}

#[test]
fn records_of_a_batch_may_stand_as_arrays() {
    let r = CreateBatchRequest::from_json(&json(r#"["file-1", "/v1/embeddings"]"#)).unwrap();
    assert_eq!((r.input_file_id.as_str(), r.completion_window), ("file-1", None));
    assert!(CreateBatchRequest::from_json(&json(r#"["file-1"]"#)).is_none());
    let f = r#"["file-1", "in.jsonl", 10, 3, "batch", "/d/in", "Input"]"#;
    assert_eq!(FileRecord::from_json(&json(f)).unwrap().bytes, 10);
    let b = r#"["b", "/v1", "f", "24h", "completed", 1, 2, null, null, "out", null]"#;
    let b = BatchRecord::from_json(&json(b)).unwrap();
    assert_eq!((b.in_progress_at, b.completed_at), (Some(2), None));
    assert_eq!(b.output_file_id.as_deref(), Some("out"));
    assert!(BatchRecord::from_json(&json(r#"["b", "/v1", "f"]"#)).is_none());
}

#[test]
fn bearer_match_logic() {
    assert!(bearer_matches(Some("Bearer sk-123"), "sk-123"));
    assert!(!bearer_matches(Some("Bearer sk-123"), "sk-999"));
    assert!(!bearer_matches(Some("sk-123"), "sk-123"));
    assert!(!bearer_matches(None, "sk-123"));
}

#[test]
fn constant_time_eq_matches_regular_equality() {
    assert!(constant_time_eq(b"sk-123", b"sk-123"));
    assert!(!constant_time_eq(b"sk-123", b"sk-999"));
    assert!(!constant_time_eq(b"short", b"much-longer"));
    assert!(!constant_time_eq(b"", b"x"));
    assert!(constant_time_eq(b"", b""));
}

#[test]
fn query_param_extraction() {
    assert_eq!(
        query_param("/v1/files?filename=my.jsonl", "filename"),
        Some("my.jsonl".to_string())
    );
    assert_eq!(query_param("/v1/files", "filename"), None);
    assert_eq!(query_param("/v1/files?a=1&b=2", "b"), Some("2".to_string()));
}

#[test]
fn rand_hex_is_hex_of_expected_len() {
    let h = rand_hex(12);
    assert_eq!(h.len(), 24);
    assert!(h.chars().all(|c| c.is_ascii_hexdigit()));
    assert_ne!(h, rand_hex(12));
}

#[test]
fn read_body_capped_allows_exactly_the_limit() {
    let data = vec![b'x'; 10];
    let out = read_body_capped(data.as_slice(), 10);
    assert_eq!(out, Some(data));
}

#[test]
fn read_body_capped_rejects_one_byte_over() {
    let data = vec![b'x'; 11];
    let out = read_body_capped(data.as_slice(), 10);
    assert_eq!(out, None, "a body one byte over the cap must be rejected");
}

#[test]
fn headers_are_found_by_name_in_any_case() {
    let headers = vec![
        ("Content-Type".to_string(), "a".to_string()),
        ("authorization".to_string(), "Bearer k".to_string()),
    ];
    assert_eq!(header_value(&headers, "Authorization").as_deref(), Some("Bearer k"));
    assert_eq!(header_value(&headers, "X-Other"), None);
    assert_eq!(path_of("/v1/files?a=1"), "/v1/files");
}

#[test]
fn batch_object_renders_nullable_fields_as_null() {
    let b = BatchObject {
        id: "batch-abc".into(),
        object: "batch".into(),
        endpoint: "/v1/chat/completions".into(),
        input_file_id: "file-xyz".into(),
        completion_window: "24h".into(),
        status: "in_progress".into(),
        output_file_id: None,
        error_file_id: None,
        created_at: 100,
        in_progress_at: Some(101),
        completed_at: None,
        cancelled_at: None,
        request_counts: RequestCounts { total: 3, completed: 1, failed: 0 },
    };
    let v = json(&b.to_text());
    assert_eq!(v.str_at("object"), Some("batch"));
    assert!(v.get("output_file_id").is_some());
    assert!(v.get("output_file_id").unwrap().is_null());
    assert!(v.get("completed_at").unwrap().is_null());
    assert_eq!(v.u64_at("in_progress_at"), Some(101));
    assert_eq!(v.get("request_counts").unwrap().u64_at("total"), Some(3));
    assert_eq!(v.get("request_counts").unwrap().u64_at("completed"), Some(1));
}

#[test]
fn file_object_shape() {
    let f = FileObject {
        id: "file-1".into(),
        object: "file".into(),
        bytes: 42,
        created_at: 7,
        filename: "batch.jsonl".into(),
        purpose: "batch".into(),
    };
    let v = json(&f.to_text());
    assert_eq!(v.str_at("object"), Some("file"));
    assert_eq!(v.str_at("purpose"), Some("batch"));
    assert_eq!(v.u64_at("bytes"), Some(42));
}

fn batch(id: &str, created_at: i64) -> BatchObject {
    BatchObject {
        id: id.into(),
        object: "batch".into(),
        endpoint: "/v1/chat/completions".into(),
        input_file_id: "file-xyz".into(),
        completion_window: "24h".into(),
        status: "in_progress".into(),
        output_file_id: None,
        error_file_id: None,
        created_at,
        in_progress_at: None,
        completed_at: None,
        cancelled_at: None,
        request_counts: RequestCounts::default(),
    }
}

#[test]
fn list_envelope_shape() {
    let env = ListEnvelope::new(vec![batch("batch-1", 1)]);
    let v = json(&env.to_text());
    assert_eq!(v.str_at("object"), Some("list"));
    assert_eq!(v.get("data").unwrap().as_array().unwrap()[0].str_at("id"), Some("batch-1"));
}

#[test]
fn the_newest_batch_is_listed_first() {
    let ids: Vec<String> = newest_first(vec![batch("a", 1), batch("b", 3), batch("c", 2)])
        .into_iter()
        .map(|b| b.id)
        .collect();
    assert_eq!(ids, ["b", "c", "a"]);
}

const DONE: &str = r#"{"custom_id": "req-1",
    "response": { "status_code": 200, "body": { "choices": [] } },
    "usage": { "prompt_tokens": 3, "completion_tokens": 1, "total_tokens": 4 },
    "worker_id": "w0", "latency_ms": 5, "attempt": 1, "completed_at": 0}"#;

#[test]
fn reshape_success_line_into_openai_shape() {
    let out = reshape_result_line(DONE).unwrap();
    assert!(out.id.starts_with("batch_req_"));
    assert_eq!(out.custom_id, "req-1");
    assert!(out.error.is_none());
    let resp = out.response.unwrap();
    assert_eq!(resp.status_code, 200);
    assert!(!resp.request_id.is_empty());
    assert_eq!(resp.body.get("choices"), Some(&json("[]")));
}

#[test]
fn reshape_dead_line_into_openai_error_shape() {
    let line = r#"{"custom_id": "req-2",
        "error": { "code": "worker_error", "message": "always 500" },
        "usage": { "prompt_tokens": 0, "completion_tokens": 0, "total_tokens": 0 },
        "worker_id": "w0", "latency_ms": 0, "attempt": 5, "completed_at": 0}"#;
    let out = reshape_result_line(line).unwrap();
    assert_eq!(out.custom_id, "req-2");
    assert!(out.response.is_none());
    let err = out.error.unwrap();
    assert_eq!(err.str_at("message"), Some("always 500"));
}

#[test]
fn reshape_skips_line_without_custom_id() {
    assert!(reshape_result_line("{\"oops\": true}").is_none());
    assert!(reshape_result_line("not json").is_none());
}

#[test]
fn create_batch_request_parses_and_defaults_window() {
    let r = CreateBatchRequest::from_json(&json(
        r#"{"input_file_id":"file-1","endpoint":"/v1/chat/completions","metadata":{"k":"v"}}"#,
    ))
    .unwrap();
    assert_eq!(r.input_file_id, "file-1");
    assert_eq!(r.endpoint, "/v1/chat/completions");
    assert!(r.completion_window.is_none());
}

fn counts(pending: u64, done: u64, dead: u64) -> Option<QueueCounts> {
    Some(QueueCounts { pending, leased: 0, done, dead })
}

/// Uploads a file and creates a batch on it. Returns the batch's id.
fn started(reg: &mut Registry, now: i64) -> String {
    let file_id = new_file_id();
    assert!(file_id.starts_with("file-"));
    let path = upload_path("data", &file_id);
    let r = upload_file(reg, "/v1/files?filename=in.jsonl", &file_id, 120, now, &path);
    assert_eq!(r.status, 200);
    let file = json(&r.body);
    assert_eq!(file.str_at("object"), Some("file"));
    assert_eq!(file.str_at("purpose"), Some("batch"));
    assert_eq!(file.str_at("filename"), Some("in.jsonl"));

    let batch_id = new_batch_id();
    assert!(batch_id.starts_with("batch-"));
    let body = format!(
        "{{\"input_file_id\":\"{file_id}\",\"endpoint\":\"/v1/chat/completions\",\"completion_window\":\"24h\"}}"
    );
    let (r, started) = create_batch(reg, Some(body.into_bytes()), &batch_id, "data", now);
    let s = started.unwrap();
    assert_eq!(s.dir, batch_dir("data", &batch_id));
    assert_eq!(s.input_path, path);
    let created = json(&r.body);
    assert_eq!(created.str_at("object"), Some("batch"));
    assert_eq!(created.str_at("status"), Some("in_progress"));
    assert!(created.get("output_file_id").unwrap().is_null());
    batch_id
}

#[test]
fn full_openai_batch_flow_against_a_mock_worker() {
    let mut reg = Registry::new();
    let id = started(&mut reg, 100);
    assert!(!reg.finished_on_read(&id, counts(0, 6, 0)), "its supervisor still runs");

    let lines: Vec<String> =
        (0..6).map(|i| DONE.replace("req-1", &format!("req-{i}")).replace('\n', " ")).collect();
    let text = reshape_results_once(&lines).unwrap();
    let mut seen: Vec<String> = Vec::new();
    for l in text.lines() {
        let v = json(l);
        assert!(v.str_at("id").unwrap().starts_with("batch_req_"));
        assert!(v.get("error").unwrap().is_null());
        assert_eq!(v.get("response").unwrap().u64_at("status_code"), Some(200));
        seen.push(v.str_at("custom_id").unwrap().to_string());
    }
    let expected: Vec<String> = (0..6).map(|i| format!("req-{i}")).collect();
    assert_eq!(seen, expected, "every custom_id present in the output");

    let out_id = new_file_id();
    let path = reg.batch(&id).unwrap().output_reshaped_path();
    let output = Minted { id: out_id.clone(), bytes: text.len() as u64, path };
    assert!(reg.finalize_completed(&id, 200, Some(output), None));

    let r = get_batch(&reg, &id, counts(0, 6, 0));
    assert_eq!(r.status, 200);
    let batch = json(&r.body);
    assert_eq!(batch.str_at("status"), Some("completed"));
    assert_eq!(batch.get("request_counts").unwrap().u64_at("total"), Some(6));
    assert_eq!(batch.get("request_counts").unwrap().u64_at("completed"), Some(6));
    assert_eq!(batch.get("request_counts").unwrap().u64_at("failed"), Some(0));
    assert_eq!(batch.u64_at("completed_at"), Some(200));
    assert_eq!(batch.str_at("output_file_id"), Some(out_id.as_str()));
    assert!(batch.get("error_file_id").unwrap().is_null(), "no dead items → no error file");
    assert_eq!(file_object(&reg, &out_id).status, 200);
    assert_eq!(file_object(&reg, "file-nope").status, 404);

    let list = json(&list_batches(&reg, &[(id.clone(), counts(0, 6, 0))]).body);
    assert_eq!(list.str_at("object"), Some("list"));
    assert!(list
        .get("data")
        .unwrap()
        .as_array()
        .unwrap()
        .iter()
        .any(|b| b.str_at("id") == Some(id.as_str())));
}

#[test]
fn the_first_end_of_a_batch_stands() {
    let mut reg = Registry::new();
    let id = started(&mut reg, 100);
    assert!(reg.finalize_failed(&id, 150));
    assert!(!reg.finalize_completed(&id, 200, None, None));
    let batch = json(&get_batch(&reg, &id, counts(0, 6, 0)).body);
    assert_eq!(batch.str_at("status"), Some("failed"));
}

#[test]
fn cancel_returns_live_counts_not_a_hardcoded_zero() {
    let mut reg = Registry::new();
    let id = started(&mut reg, 100);
    assert!(cancel_batch(&mut reg, &id, 300).is_none());
    assert!(reg.batch(&id).unwrap().cancel);
    let cancelled = json(&get_batch(&reg, &id, counts(3, 1, 0)).body);
    assert_eq!(cancelled.get("request_counts").unwrap().u64_at("total"), Some(4));
    assert_eq!(cancelled.str_at("status"), Some("cancelled"));
    assert_eq!(cancel_batch(&mut reg, "batch-nope", 300).map(|r| r.status), Some(404));
}

#[test]
fn health_is_open_but_everything_else_needs_the_key() {
    let key = Some("sk-secret");
    assert_eq!(route_request("GET", "/v1/health", None, key), Route::Health);
    let h = health(&Registry::new());
    assert_eq!(h.status, 200);
    assert_eq!(json(&h.body).str_at("status"), Some("ok"));
    assert_eq!(route_request("GET", "/v1/batches", None, key), Route::Unauthorized);
    assert_eq!(
        route_request("GET", "/v1/batches", Some("Bearer sk-secret"), key),
        Route::ListBatches
    );
    assert_eq!(
        route_request("GET", "/v1/batches", Some("Bearer sk-nope"), key),
        Route::Unauthorized
    );
}

#[test]
fn each_route_is_told_apart() {
    let r = |m: &str, u: &str| route_request(m, u, None, None);
    assert_eq!(r("POST", "/v1/files?filename=a"), Route::UploadFile);
    assert_eq!(r("GET", "/v1/files/f/content"), Route::FileContent("f".into()));
    assert_eq!(r("GET", "/v1/files/f"), Route::FileInfo("f".into()));
    assert_eq!(r("POST", "/v1/batches"), Route::CreateBatch);
    assert_eq!(r("GET", "/v1/batches"), Route::ListBatches);
    assert_eq!(r("POST", "/v1/batches/b/cancel"), Route::CancelBatch("b".into()));
    assert_eq!(r("GET", "/v1/batches/b"), Route::GetBatch("b".into()));
    assert_eq!(r("DELETE", "/v1/batches/b"), Route::NotFound);
}

#[test]
fn batches_survive_a_restart_and_relist() {
    let mut first = Registry::new();
    let id = started(&mut first, 100);
    let output = Minted { id: "file-out".into(), bytes: 9, path: "data/out".into() };
    assert!(first.finalize_completed(&id, 200, Some(output), None));
    let record = first.batch(&id).unwrap().record.to_json();
    let file = first.file("file-out").unwrap().to_json();

    let mut again = Registry::new();
    again.load_batch(BatchRecord::from_json(&record).unwrap(), "data/batches/x");
    again.add_file(FileRecord::from_json(&file).unwrap());
    let b = json(&get_batch(&again, &id, counts(0, 1, 0)).body);
    assert_eq!(b.str_at("status"), Some("completed"), "completed batch survived restart");
    assert_eq!(b.get("request_counts").unwrap().u64_at("completed"), Some(1));
    assert_eq!(again.file("file-out").unwrap().path, "data/out");
}

#[test]
fn a_batch_that_finished_before_a_restart_is_seen_on_read() {
    let mut first = Registry::new();
    let id = started(&mut first, 100);
    let record = first.batch(&id).unwrap().record.to_json();
    let mut again = Registry::new();
    again.load_batch(BatchRecord::from_json(&record).unwrap(), "data/batches/x");
    assert!(!again.finished_on_read(&id, counts(1, 5, 0)));
    assert!(again.finished_on_read(&id, counts(0, 6, 0)));
    assert!(!again.finished_on_read(&id, counts(0, 0, 0)));
    assert!(!again.finished_on_read(&id, None));
}

#[test]
fn a_batch_without_its_file_is_refused() {
    let mut reg = Registry::new();
    let body = r#"{"input_file_id":"file-x","endpoint":"/v1/chat/completions"}"#;
    let (r, s) = create_batch(&mut reg, Some(body.into()), "batch-1", "data", 0);
    assert!(s.is_none());
    assert_eq!(r.status, 404);
    let (r, _) = create_batch(&mut reg, Some(b"{".to_vec()), "batch-1", "data", 0);
    assert_eq!(r.status, 400);
    assert_eq!(reg.batch_count(), 0);
}

#[test]
fn a_request_body_that_cannot_be_read_is_refused() {
    let mut reg = Registry::new();
    let over = read_body_capped(&[b'x'; 5], 4);
    let (r, s) = create_batch(&mut reg, over, "batch-1", "data", 0);
    assert!(s.is_none());
    assert_eq!((r.status, r.body.as_str()), (413, "request body exceeds the size limit"));
    let (r, s) = create_batch(&mut reg, Some(b"{\"\xff\"}".to_vec()), "batch-1", "data", 0);
    assert!(s.is_none());
    assert_eq!((r.status, r.body.as_str()), (400, "bad request body: not valid UTF-8"));
    assert_eq!(reg.batch_count(), 0);
}

#[test]
fn an_upload_over_its_limit_is_refused() {
    let r = refuse_upload(&None).unwrap();
    assert_eq!((r.status, r.body.as_str()), (413, "upload body exceeds the size limit"));
    assert!(refuse_upload(&Some(b"\xff".to_vec())).is_none());
}

#[test]
fn each_batch_is_counted_once() {
    let mut reg = Registry::new();
    assert_eq!(reg.batch_count(), 0);
    let a = started(&mut reg, 1);
    let b = started(&mut reg, 2);
    assert_eq!(reg.batch_count(), 2);
    let record = reg.batch(&a).unwrap().record.to_json();
    reg.load_batch(BatchRecord::from_json(&record).unwrap(), "data/batches/a");
    assert_eq!(reg.batch_count(), 2, "a batch that is known is replaced");
    reg.abandon_batch(&b);
    reg.abandon_batch(&b);
    assert_eq!(reg.batch_count(), 1);
}

#[test]
fn a_cancelled_batch_keeps_its_files() {
    let mut reg = Registry::new();
    let id = started(&mut reg, 1);
    let before = reg.batch(&id).unwrap().dir.clone();
    assert!(cancel_batch(&mut reg, &id, 5).is_none());
    let b = reg.batch(&id).unwrap();
    assert_eq!((b.dir.as_str(), b.running, b.cancel), (before.as_str(), true, true));
    let input = reg.batch(&id).unwrap().record.input_file_id.clone();
    assert!(reg.file(&input).is_some());
}

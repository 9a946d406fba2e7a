use forge::cli::object_job_id;
use forge::cost::UsageTotals;
use forge::error::ForgeError;
use forge::json::parse_json;
use forge::objstore::{
    add_object, dump_line, file_name, parse_out_url, scheme_env_opt, single_run, Kind, ObjStore,
};
use forge::paths::same_file;
use forge::result::result_of_json;
use forge::rows::{
    check_export, export_rows, forge_schema, ColumnType, ParquetOpts, ParquetStore, RowBuffer,
};
use forge::store::{
    dead_letter_path, ends_mid_line, frame, key_of_line, sum_usage, Append, JsonlStore, Sink,
};
use forge::types::ItemResult;
use forge::verify::{verify_completeness, VerifyConfig};

fn ok_line(id: &str) -> String {
    format!(
        "{{\"custom_id\":\"{id}\",\"response\":{{\"status_code\":200,\"body\":{{\"choices\":[]}}}},\"usage\":{{\"prompt_tokens\":3,\"completion_tokens\":1,\"total_tokens\":4}},\"worker_id\":\"w0\",\"latency_ms\":5,\"attempt\":1,\"completed_at\":0}}"
    )
}

fn dead_line(id: &str) -> String {
    format!(
        "{{\"custom_id\":\"{id}\",\"error\":{{\"code\":\"boom\",\"message\":\"always 500\"}},\"usage\":{{\"prompt_tokens\":0,\"completion_tokens\":0,\"total_tokens\":0}},\"worker_id\":\"w0\",\"latency_ms\":5,\"attempt\":1,\"completed_at\":0}}"
    )
}

fn result(line: &str) -> ItemResult {
    result_of_json(&parse_json(line).unwrap()).unwrap()
}

/// The two files of a store.
#[derive(Default)]
struct Files {
    out: String,
    dead: String,
}

impl Files {
    fn lines(text: &str) -> Vec<String> {
        text.lines().map(str::to_string).collect()
    }

    fn open(&self) -> JsonlStore {
        let mut s = JsonlStore::new("results.jsonl");
        s.ensure_loaded(&Self::lines(&self.out), &Self::lines(&self.dead));
        s
    }

    fn write(&mut self, s: &mut JsonlStore, id: &str, a: Option<Append>) {
        if let Some(a) = a {
            match a.sink {
                Sink::Results => self.out.push_str(&a.text),
                Sink::DeadLetters => self.dead.push_str(&a.text),
            }
            s.appended(id);
        }
    }

    fn put(&mut self, s: &mut JsonlStore, id: &str) {
        let torn = ends_mid_line(self.out.as_bytes().last().copied());
        let a = s.put(&result(&ok_line(id)), torn);
        self.write(s, id, a);
    }

    fn dead_letter(&mut self, s: &mut JsonlStore, id: &str) {
        let torn = ends_mid_line(self.dead.as_bytes().last().copied());
        let a = s.dead_letter(&result(&dead_line(id)), torn);
        self.write(s, id, a);
    }
}

#[test]
fn dead_letter_path_is_sibling() {
    let s = JsonlStore::new("results.jsonl");
    assert_eq!(s.out_path(), "results.jsonl");
    assert_eq!(s.dead_path(), "results.jsonl.dead.jsonl");
    assert_eq!(dead_letter_path("d/r"), "d/r.dead.jsonl");
}

#[test]
fn lib_put_is_idempotent_and_dedups() {
    let mut f = Files::default();
    let mut s = f.open();
    f.put(&mut s, "a");
    f.put(&mut s, "a");
    f.put(&mut s, "b");

    assert_eq!(s.emitted_ids().len(), 2);
    assert_eq!(f.out.lines().count(), 2, "duplicate must not append a line");
}

#[test]
fn sum_usage_totals_tokens_over_results() {
    let mut f = Files::default();
    let mut s = f.open();
    f.put(&mut s, "a");
    f.put(&mut s, "b");
    f.out.push_str("{\"oops\": true}\n");

    let totals = sum_usage(&Files::lines(&f.out)).unwrap();
    assert_eq!(totals.items, 2);
    assert_eq!(totals.prompt_tokens, 6);
    assert_eq!(totals.completion_tokens, 2);
    assert_eq!(totals.total_tokens(), 8);

    assert_eq!(sum_usage(&[]), Some(UsageTotals::default()));
}

#[test]
fn usage_beyond_a_counter_is_refused_not_wrapped() {
    let big = format!(
        "{{\"custom_id\":\"x\",\"response\":{{\"status_code\":200,\"body\":{{}}}},\"usage\":{{\"prompt_tokens\":{},\"completion_tokens\":0,\"total_tokens\":0}},\"worker_id\":\"w\",\"latency_ms\":0,\"attempt\":1,\"completed_at\":0}}",
        u64::MAX
    );
    assert!(sum_usage(&[big.clone()]).is_some());
    assert_eq!(sum_usage(&[big.clone(), big]), None);
}

#[test]
fn torn_last_line_does_not_corrupt_next_record() {
    let mut f = Files::default();
    f.out = format!("{}\n{{\"custom_id\":\"b\",\"resp", ok_line("a"));

    let mut s = f.open();
    assert!(s.emitted_ids().contains("a"));
    f.put(&mut s, "b");

    let mut ids: Vec<String> = f.out.lines().filter_map(key_of_line).collect();
    ids.sort();
    assert_eq!(ids, vec!["a".to_string(), "b".to_string()]);
}

#[test]
fn a_record_is_one_line() {
    assert_eq!(frame(false, "x"), "x\n");
    assert_eq!(frame(true, "x"), "\nx\n");
    assert!(!ends_mid_line(None));
    assert!(!ends_mid_line(Some(b'\n')));
    assert!(ends_mid_line(Some(b'}')));
}

#[test]
fn resume_dedups_from_existing_file() {
    let mut f = Files::default();
    f.out = format!("{}\n", ok_line("a"));

    let mut s = f.open();
    f.put(&mut s, "a");
    f.put(&mut s, "c");

    assert_eq!(f.out.lines().count(), 2);
    let ids = s.emitted_ids();
    assert!(ids.contains("a") && ids.contains("c"));
}

#[test]
fn dead_letter_writes_sibling_and_blocks_later_success() {
    let mut f = Files::default();
    let mut s = f.open();
    f.dead_letter(&mut s, "x");
    f.put(&mut s, "x");

    assert_eq!(f.out.lines().count(), 0, "no success line for a dead-lettered id");
    assert_eq!(f.dead.lines().count(), 1);
}

/// The objects of a bucket, by their paths.
#[derive(Default)]
struct Bucket(Vec<(String, String)>);

impl Bucket {
    fn create(&mut self, path: &str, text: &str) {
        if !self.0.iter().any(|(p, _)| p == path) {
            self.0.push((path.to_string(), text.to_string()));
        }
    }

    fn under(&self, prefix: &str) -> Vec<&(String, String)> {
        let dir = format!("{prefix}/");
        self.0.iter().filter(|(p, _)| p.starts_with(&dir)).collect()
    }

    fn open(&self, job: &str) -> ObjStore {
        let mut s = ObjStore::new(job);
        for (p, _) in self.under(&s.manifest_prefix()) {
            s.note_marker(p);
        }
        s.set_loaded();
        s
    }

    fn emit(&mut self, s: &mut ObjStore, id: &str, kind: Kind, text: &str) {
        if let Some(puts) = s.emit(id, kind) {
            self.create(&puts.result, text);
            self.create(&puts.marker, "");
            s.emitted(id);
        }
    }
}

fn object(id: &str) -> String {
    format!(
        "{{\"custom_id\":\"{id}\",\"response\":{{\"status_code\":200,\"body\":{{\"choices\":[{{\"message\":{{\"content\":\"ok\"}}}}]}}}},\"usage\":{{\"prompt_tokens\":3,\"completion_tokens\":4,\"total_tokens\":7}},\"worker_id\":\"gpu1\",\"latency_ms\":5,\"attempt\":1,\"completed_at\":42}}"
    )
}

fn dead_object(id: &str) -> String {
    format!(
        "{{\"custom_id\":\"{id}\",\"error\":{{\"code\":\"worker_error\",\"message\":\"boom\"}},\"usage\":{{\"prompt_tokens\":3,\"completion_tokens\":4,\"total_tokens\":7}},\"worker_id\":\"gpu1\",\"latency_ms\":5,\"attempt\":1,\"completed_at\":42}}"
    )
}

#[test]
fn object_store_backend_put_is_idempotent_and_dedups() {
    let mut b = Bucket::default();
    let mut s = b.open("job1");
    b.emit(&mut s, "a", Kind::Done, &object("a"));
    b.emit(&mut s, "a", Kind::Done, &object("a"));
    b.emit(&mut s, "b", Kind::Done, &object("b"));

    assert_eq!(s.emitted_ids().len(), 2);
    assert!(s.emitted_ids().contains("a") && s.emitted_ids().contains("b"));
    assert_eq!(b.under("results/job1/done").len(), 2);
}

#[test]
fn resume_reads_manifest_not_the_result_objects() {
    let mut b = Bucket::default();
    let mut s = b.open("job2");
    for id in ["x", "y", "z"] {
        b.emit(&mut s, id, Kind::Done, &object(id));
    }
    for i in 0..1000 {
        b.create(&format!("results/job2/done/stray{i:04}.json"), "");
    }

    let s2 = b.open("job2");
    let emitted = s2.emitted_ids();
    assert_eq!(emitted.len(), 3, "O(emitted) from the manifest, not O(objects)");
    assert!(emitted.contains("x") && emitted.contains("y") && emitted.contains("z"));
}

#[test]
fn dead_letter_is_terminal_and_blocks_a_later_success() {
    let mut b = Bucket::default();
    let mut s = b.open("job3");
    b.emit(&mut s, "p", Kind::Dead, &dead_object("p"));
    b.emit(&mut s, "p", Kind::Done, &object("p"));

    assert_eq!(b.under("results/job3/dead").len(), 1);
    assert_eq!(b.under("results/job3/done").len(), 0);
    assert_eq!(s.emitted_ids().len(), 1);
}

#[test]
fn concurrent_writes_of_same_id_emit_once() {
    let mut b = Bucket::default();
    let mut one = b.open("job4");
    let mut two = b.open("job4");
    b.emit(&mut one, "dup", Kind::Done, &object("dup"));
    b.emit(&mut two, "dup", Kind::Done, &object("dup"));
    assert_eq!(b.under("results/job4/done").len(), 1);
    assert_eq!(one.emitted_ids().len(), 1);
}

#[test]
fn objstore_from_out_opens_and_writes() {
    assert_eq!(parse_out_url("memory:///").unwrap(), "memory");
    assert_eq!(parse_out_url("S3://bucket/p").unwrap(), "s3");
    assert!(matches!(parse_out_url("not a url"), Err(ForgeError::Config(_))));
}

#[test]
fn sum_usage_counts_done_and_dump_lists_all_terminal_ids() {
    let mut b = Bucket::default();
    let mut s = b.open("jobc");
    b.emit(&mut s, "a", Kind::Done, &object("a"));
    b.emit(&mut s, "b", Kind::Done, &object("b"));
    b.emit(&mut s, "c", Kind::Dead, &dead_object("c"));

    let mut totals = UsageTotals::default();
    for (_, text) in b.under(&s.kind_prefix(Kind::Done)) {
        assert!(add_object(&mut totals, text));
    }
    assert_eq!(totals.total_tokens(), 14);

    let dumped: Vec<String> =
        b.under(&s.manifest_prefix()).iter().filter_map(|(p, _)| dump_line(p)).collect();
    assert_eq!(dumped.len(), 3);
    assert!(dumped.iter().any(|l| l.contains("\"custom_id\":\"c\"")));
}

#[test]
fn open_run_discovers_the_single_job() {
    let one = single_run("file:///d", "d/results", &["myjob".to_string()]);
    assert_eq!(one.unwrap(), "myjob");
    assert!(single_run("file:///d", "d/results", &[]).is_err());
    let two = single_run("file:///d", "d/results", &["a".to_string(), "b".to_string()]);
    assert!(matches!(two, Err(ForgeError::Store(_))));
}

#[test]
fn from_url_parses_each_scheme() {
    assert_eq!(ObjStore::at_job("", "j").prefix(), "results/j");
    assert!(ObjStore::at_job("tmp/forge-out", "j").prefix().ends_with("results/j"));
    assert_eq!(ObjStore::at_job("tmp/forge-out", "j").prefix(), "tmp/forge-out/results/j");
}

#[test]
fn object_paths_are_percent_encoded() {
    let s = ObjStore::new("a b#c");
    assert_eq!(s.result_path("id", Kind::Done), "results/a b%23c/done/id.json");
    assert_eq!(s.manifest_marker("id"), "results/a b%23c/_manifest/id");
    assert_eq!(file_name(&s.manifest_marker("id")).as_deref(), Some("id"));
}

#[test]
fn only_a_cloud_scheme_reads_the_cloud_environment() {
    assert!(scheme_env_opt("s3", "AWS_REGION"));
    assert!(scheme_env_opt("gs", "GOOGLE_BUCKET"));
    assert!(scheme_env_opt("az", "AZURE_STORAGE_ACCOUNT_NAME"));
    assert!(scheme_env_opt("s3", "aws_region"));
    assert!(!scheme_env_opt("s3", "REGION"));
    assert!(!scheme_env_opt("memory", "AWS_REGION"));
    assert!(!scheme_env_opt("file", "AWS_REGION"));
}

#[test]
fn exporter_roundtrips_rows_and_columns() {
    let lines: Vec<String> = ["a", "b", "c"].map(object).to_vec();
    let (groups, rows) = export_rows(&lines, &ParquetOpts::default());
    assert_eq!(rows, 3);
    let total: usize = groups.iter().map(|g| g.len()).sum();
    assert_eq!(total, 3);
    let ids: Vec<String> = groups.iter().flat_map(|g| g.custom_id.clone()).collect();
    assert_eq!(ids, vec!["a", "b", "c"]);
    assert_eq!(groups[0].total_tokens[0], 7);
    assert_eq!(groups[0].status_code[0], Some(200));
    assert_eq!(groups[0].completed_at[0], 42);
    assert_eq!(
        groups[0].body_json[0].as_deref(),
        Some("{\"choices\":[{\"message\":{\"content\":\"ok\"}}]}")
    );
}

#[test]
fn dead_letter_row_has_null_status_and_populated_error() {
    let mut s = ParquetStore::new("o.parquet");
    assert!(s.append(&result(&dead_object("x"))).unwrap().is_none());
    let b = s.finalize().unwrap();
    assert_eq!(b.status_code[0], None, "status_code null on a dead-letter");
    assert_eq!(b.body_json[0], None, "body_json null on a dead-letter");
    assert_eq!(b.error_code[0].as_deref(), Some("worker_error"));
    assert_eq!(b.error_message[0].as_deref(), Some("boom"));
}

#[test]
fn store_put_is_idempotent_within_process() {
    let mut s = ParquetStore::new("o.parquet");
    s.append(&result(&object("a"))).unwrap();
    s.append(&result(&object("a"))).unwrap();
    s.append(&result(&object("b"))).unwrap();
    assert_eq!(s.emitted_ids().len(), 2);
    assert_eq!(s.finalize().unwrap().len(), 2);
    assert!(
        matches!(s.append(&result(&object("c"))), Err(ForgeError::Store(_))),
        "a finished file takes no more rows"
    );
}

#[test]
fn bounded_memory_flushes_row_groups() {
    let lines: Vec<String> = (0..5).map(|i| object(&format!("id{i}"))).collect();
    let opts = ParquetOpts { row_group_rows: 2 };
    let (groups, rows) = export_rows(&lines, &opts);
    assert_eq!(rows, 5);
    let sizes: Vec<usize> = groups.iter().map(RowBuffer::len).collect();
    assert_eq!(sizes, [2, 2, 1]);
}

#[test]
fn a_result_may_stand_as_an_array() {
    let read = |t: &str| result_of_json(&parse_json(t).unwrap());
    let r = read(r#"["c", [200, null, {"a": 1}], null, [3, 1, 4], "w0", 5, 1, 0]"#).unwrap();
    assert_eq!(r.custom_id, "c");
    assert_eq!(r.response.unwrap().status_code, 200);
    assert_eq!(r.usage.total_tokens, 4);
    let r = read(r#"["c", null, ["boom", "late"], [3, 1, 4], "w0", 5, 1, 0]"#).unwrap();
    assert_eq!(r.error.unwrap().message, "late");
    assert!(read(r#"["c", null, null, [3, 1, 4], "w0", 5, 1]"#).is_none());
    assert!(read(r#"["c", [200, null], null, [3, 1, 4], "w0", 5, 1, 0]"#).is_none());
}

#[test]
fn paths_are_compared_by_their_parts() {
    let same = |a: &str, b: &str| same_file(a, b, None, None);
    assert!(same("a//b", "a/b"));
    assert!(same("a/./b/", "a/b"));
    assert!(!same("./a", "a"), "a leading dot counts");
    assert!(!same("/a", "a"));
    assert!(!same("a/../b", "b"));
    assert!(same_file("x", "y", Some("/d/x"), Some("/d/x")));
    assert!(!same_file("x", "y", Some("/d/x"), None));
}

#[test]
fn export_refuses_to_overwrite_its_input() {
    assert!(check_export("r.jsonl", "r.jsonl", None, None).is_err());
    assert!(check_export("r.jsonl", "r.parquet", None, None).is_ok());
}

#[test]
fn the_schema_has_one_column_per_field() {
    let cols = forge_schema();
    assert_eq!(cols.len(), 12);
    assert_eq!(cols[0].name, "custom_id");
    assert!(!cols[0].nullable);
    assert_eq!(cols[1].name, "status_code");
    assert!(cols[1].nullable && matches!(cols[1].kind, ColumnType::Int32));
}

#[test]
fn local_filesystem_parity() {
    let mut b = Bucket::default();
    let mut s = b.open("j");
    b.emit(&mut s, "a", Kind::Done, &object("a"));
    b.emit(&mut s, "a", Kind::Done, &object("a"));
    b.emit(&mut s, "b", Kind::Dead, &dead_object("b"));

    let s2 = b.open("j");
    let emitted = s2.emitted_ids();
    assert_eq!(emitted.len(), 2);
    assert!(emitted.contains("a") && emitted.contains("b"));
}

#[test]
fn run_and_resume_to_object_store() {
    const N: usize = 8;
    let job = object_job_id("/tmp/forge/state.db");
    assert_eq!(job, "state");
    let ids: Vec<String> = (0..N).map(|i| format!("req-{i:04}")).collect();
    let mut b = Bucket::default();
    let mut s = b.open(&job);
    for id in &ids {
        b.emit(&mut s, id, Kind::Done, &ok_line(id));
    }
    assert_eq!(b.under("results/state/done").len(), N, "one done object per custom_id");

    let mut resumed = b.open(&job);
    for id in &ids {
        b.emit(&mut resumed, id, Kind::Done, &ok_line(id));
    }
    assert_eq!(b.under("results/state/done").len(), N, "resume added no duplicate objects");

    let mut totals = UsageTotals::default();
    for (_, text) in b.under(&s.kind_prefix(Kind::Done)) {
        assert!(add_object(&mut totals, text));
    }
    assert_eq!(totals.items, N as u64);
    assert_eq!(totals.total_tokens(), (N * 4) as u64);

    let input: Vec<Vec<u8>> = ids
        .iter()
        .map(|id| format!("{{\"custom_id\":\"{id}\",\"body\":{{}}}}").into_bytes())
        .collect();
    let dumped: Vec<Vec<u8>> = b
        .under(&s.manifest_prefix())
        .iter()
        .filter_map(|(p, _)| dump_line(p).map(String::into_bytes))
        .collect();
    let (report, _) = verify_completeness(&input, &dumped, None, &VerifyConfig::default());
    assert!(report.is_complete());
}

#[test]
fn a_result_is_read_back_from_its_line() {
    for line in [ok_line("a"), dead_line("b")] {
        let r = result(&line);
        let written = r.to_line();
        assert!(!written.contains('\n'));
        assert_eq!(result(&written), r);
        assert_eq!(key_of_line(&written), Some(r.custom_id.clone()));
    }
    let mut r = result(&ok_line("c\\nd"));
    r.response.as_mut().unwrap().request_id = Some("req".into());
    assert_eq!(result(&r.to_line()), r);
    assert_eq!(
        result(&dead_line("b")).to_line(),
        "{\"attempt\":1,\"completed_at\":0,\"custom_id\":\"b\",\"error\":{\"code\":\"boom\",\"message\":\"always 500\"},\"latency_ms\":5,\"usage\":{\"cached_tokens\":0,\"completion_tokens\":0,\"prompt_tokens\":0,\"reasoning_tokens\":0,\"total_tokens\":0},\"worker_id\":\"w0\"}"
    );
}

#[test]
fn each_id_is_written_by_its_first_call_over_restarts() {
    let mut f = Files::default();
    let mut s = f.open();
    f.dead_letter(&mut s, "x");
    f.put(&mut s, "y");
    f.put(&mut s, "x");
    s = f.open();
    f.dead_letter(&mut s, "y");
    f.put(&mut s, "z");
    f.out.push_str("{\"custom_id\":\"torn");
    s = f.open();
    f.put(&mut s, "torn");
    f.put(&mut s, "z");
    f.dead_letter(&mut s, "torn");
    let ids = |text: &str| text.lines().filter_map(key_of_line).collect::<Vec<_>>();
    assert_eq!(ids(&f.out), vec!["y", "z", "torn"]);
    assert_eq!(ids(&f.dead), vec!["x"]);
}

use forge::bucket::{bucket_jsonl, bucket_key, bucket_of};
use forge::import::{check_import, import_batch, normalize_line};
use forge::ingest::{
    ingest_jsonl, ingest_jsonl_with_rejects, reject_record, resume_from, IngestStats,
};
use forge::item::{parse_line, valid_custom_id};
use forge::json::{parse_json, Json};
use forge::sqlite::SqliteQueue;
use forge::state::ItemState;
use forge::types::EndpointKind;
use forge::verify::{scan_line, verify_completeness, Found, VerifyConfig, VerifyReport};

#[test]
fn parses_openai_batch_line() {
    let line = r#"{"custom_id":"req-1","method":"POST","url":"/v1/chat/completions","body":{"model":"m","messages":[]}}"#;
    let item = parse_line(line).unwrap();
    assert_eq!(item.custom_id, "req-1");
    assert_eq!(item.status, ItemState::Pending);
    assert_eq!(item.attempts, 0);
}

#[test]
fn accepts_bedrock_record_id_alias() {
    let line = r#"{"recordId":"rec-9","body":{"input":"hi"}}"#;
    let item = parse_line(line).unwrap();
    assert_eq!(item.custom_id, "rec-9");
    assert_eq!(item.method, "POST");
}

#[test]
fn custom_id_charset() {
    assert!(valid_custom_id("req-001"));
    assert!(valid_custom_id("a_B-9"));
    assert!(!valid_custom_id(""));
    assert!(!valid_custom_id("has space"));
    assert!(!valid_custom_id("emoji😀"));
    assert!(!valid_custom_id(&"x".repeat(65)));
    assert!(valid_custom_id(&"x".repeat(64)));
}

#[test]
fn parse_good_line() {
    let line = r#"{"custom_id":"req-1","body":{"input":"hello"}}"#;
    let item = parse_line(line).unwrap();
    assert_eq!(item.custom_id, "req-1");
}

#[test]
fn parse_rejects_bad_id() {
    let line = r#"{"custom_id":"bad id","body":{}}"#;
    assert!(parse_line(line).is_err());
}

/// The lines of a text, each with its line end.
fn raw(text: &str) -> Vec<Vec<u8>> {
    text.split_inclusive('\n').map(|l| l.as_bytes().to_vec()).collect()
}

fn text(raw: &[u8]) -> &str {
    std::str::from_utf8(raw).unwrap()
}

/// Ingests a file's text, seeking past what an earlier ingest hydrated.
fn ingest(queue: &mut SqliteQueue, text: &str) -> IngestStats {
    let (offset, line) = resume_from(queue.hydrated_through(), text.len() as u64);
    ingest_jsonl(queue, &raw(&text[offset as usize..]), (offset, line))
}

#[test]
fn ingest_routes_rejects_to_sidecar_and_hydrates_good_lines() {
    let input = "{\"custom_id\":\"req-1\",\"body\":{\"input\":\"hi\"}}\n\
                 {not json}\n\
                 {\"custom_id\":\"bad id\",\"body\":{}}\n\
                 \n";
    let mut queue = SqliteQueue::open_in_memory(7);
    let (stats, rejects) = ingest_jsonl_with_rejects(&mut queue, &raw(input), (0, 0));

    assert_eq!(stats.lines_read, 3, "blank line is skipped, not counted");
    assert_eq!(stats.hydrated, 1, "only the one valid line hydrates");
    assert_eq!(stats.rejected, 2, "malformed JSON + bad custom_id");
    assert_eq!(queue.counts().pending, 1);

    assert_eq!(rejects.len(), 2, "one record per rejected line");
    let first = parse_json(&reject_record(&rejects[0])).unwrap();
    assert_eq!(first.u64_at("line_no"), Some(2));
    assert_eq!(first.str_at("input"), Some("{not json}"));
    assert!(first.str_at("error").unwrap().contains("json"));
}

#[test]
fn a_line_that_is_not_text_is_set_aside() {
    let lines = vec![
        b"{\"custom_id\":\"a\",\"body\":{}}\n".to_vec(),
        b"\xffx\n".to_vec(),
        b"{\"custom_id\":\"b\",\"body\":{}}\n".to_vec(),
    ];
    let total: u64 = lines.iter().map(|l| l.len() as u64).sum();
    let mut queue = SqliteQueue::open_in_memory(7);
    let (stats, rejects) = ingest_jsonl_with_rejects(&mut queue, &lines, (0, 0));
    assert_eq!((stats.lines_read, stats.hydrated, stats.rejected), (3, 2, 1));
    assert_eq!(queue.counts().pending, 2);
    assert_eq!(queue.hydrated_through(), Some((total, 3)));
    let record = parse_json(&reject_record(&rejects[0])).unwrap();
    assert_eq!(record.u64_at("line_no"), Some(2));
    assert_eq!(record.str_at("input"), Some("\u{fffd}x"));
    assert_eq!(record.str_at("error"), Some("ingest: line is not valid UTF-8"));
}

fn item_lines(n: usize) -> Vec<String> {
    (0..n)
        .map(|i| format!("{{\"custom_id\":\"req-{i:04}\",\"body\":{{\"input\":\"hi\"}}}}"))
        .collect()
}

#[test]
fn reingest_of_fully_hydrated_input_seeks_to_eof() {
    let input = item_lines(20).join("\n") + "\n";
    let mut queue = SqliteQueue::open_in_memory(7);
    let first = ingest(&mut queue, &input);
    assert_eq!(first.hydrated, 20);
    assert_eq!(first.lines_read, 20);

    assert_eq!(queue.hydrated_through(), Some((input.len() as u64, 20)));

    let second = ingest(&mut queue, &input);
    assert_eq!(second.lines_read, 0, "re-ingest seeks past the hydrated prefix");
    assert_eq!(second.hydrated, 0);
    assert_eq!(queue.counts().pending, 20, "no duplicates");
}

#[test]
fn interrupted_ingest_resumes_from_the_recorded_offset() {
    let lines = item_lines(20);
    let full = lines.join("\n") + "\n";
    let partial = lines[..8].join("\n") + "\n";

    let mut queue = SqliteQueue::open_in_memory(7);
    let a = ingest(&mut queue, &partial);
    assert_eq!(a.hydrated, 8);
    assert_eq!(queue.counts().pending, 8);

    let b = ingest(&mut queue, &full);
    assert_eq!(b.lines_read, 12, "only the un-hydrated tail is read");
    assert_eq!(b.hydrated, 12);
    assert_eq!(queue.counts().pending, 20, "all 20 present, none duplicated");
}

#[test]
fn a_shorter_replaced_input_rescans_instead_of_seeking_past_eof() {
    let big = item_lines(20).join("\n") + "\n";
    let small: String =
        (0..5).map(|i| format!("{{\"custom_id\":\"s{i}\",\"body\":{{}}}}\n")).collect();

    let mut queue = SqliteQueue::open_in_memory(7);
    assert_eq!(ingest(&mut queue, &big).hydrated, 20);

    let b = ingest(&mut queue, &small);
    assert_eq!(b.lines_read, 5, "rescanned the whole shorter file, not zero");
    assert_eq!(b.hydrated, 5, "the new ids were hydrated, not silently dropped");
    assert_eq!(queue.counts().pending, 25);
}

#[test]
fn clean_ingest_leaves_no_sidecar() {
    let mut queue = SqliteQueue::open_in_memory(7);
    let (stats, rejects) = ingest_jsonl_with_rejects(
        &mut queue,
        &raw("{\"custom_id\":\"req-1\",\"body\":{}}\n"),
        (0, 0),
    );
    assert_eq!(stats.rejected, 0);
    assert!(rejects.is_empty(), "no reject file when nothing is rejected");
}

#[test]
fn more_than_one_batch_of_lines_hydrates() {
    let input = item_lines(2_500).join("\n") + "\n";
    let mut queue = SqliteQueue::open_in_memory(7);
    let stats = ingest(&mut queue, &input);
    assert_eq!((stats.lines_read, stats.hydrated, stats.rejected), (2_500, 2_500, 0));
    assert_eq!(queue.hydrated_through(), Some((input.len() as u64, 2_500)));
}

#[test]
fn what_is_imported_can_be_ingested() {
    let source = lines(
        "{\"custom_id\":\"a\",\"params\":{\"model\":\"m\",\"messages\":[{\"n\":1.5}]}}\n\
         {\"recordId\":\"b\",\"modelInput\":{\"t\":[[]]}}\n\
         {\"custom_id\":\"a\",\"body\":{}}\n\
         not json\n\
         {\"custom_id\":\"c\",\"body\":{\"x\":\"\\n\"}}\n",
    );
    let (stats, written, aside) = import_batch(&source, EndpointKind::Chat);
    assert_eq!((stats.written, stats.duplicates, stats.rejected), (3, 1, 1));
    assert_eq!(aside.len(), 2);
    let items: Vec<_> = written.iter().map(|l| parse_line(l).unwrap()).collect();
    let ids: Vec<&str> = items.iter().map(|i| i.custom_id.as_str()).collect();
    assert_eq!(ids, vec!["a", "b", "c"]);
    assert_eq!(items[0].body.str_at("model"), Some("m"));
    assert!(items.iter().all(|i| i.status == ItemState::Pending && i.attempts == 0));
    let mut queue = SqliteQueue::open_in_memory(7);
    let input: String = written.iter().map(|l| format!("{l}\n")).collect();
    assert_eq!(ingest(&mut queue, &input).hydrated, 3);
}

fn lines(text: &str) -> Vec<Vec<u8>> {
    text.lines().map(|l| l.as_bytes().to_vec()).collect()
}

#[test]
fn import_normalizes_all_three_shapes() {
    let input = "{\"custom_id\":\"a\",\"method\":\"POST\",\"url\":\"/v1/chat/completions\",\"body\":{\"messages\":[]}}\n\
         {\"custom_id\":\"b\",\"params\":{\"messages\":[{\"role\":\"user\",\"content\":\"hi\"}]}}\n\
         {\"recordId\":\"c\",\"modelInput\":{\"input\":\"embed me\"}}\n\
         {\"custom_id\":\"d\",\"note\":\"no body here\"}\n\
         {\"custom_id\":\"a\",\"body\":{\"messages\":[]}}\n";

    let (stats, out, rejects) = import_batch(&lines(input), EndpointKind::Chat);
    assert_eq!(stats.lines_read, 5);
    assert_eq!(stats.written, 3, "a, b, c");
    assert_eq!(stats.rejected, 1, "d has no body");
    assert_eq!(stats.duplicates, 1, "the second a");

    let out_lines: Vec<Json> = out.iter().map(|l| parse_json(l).unwrap()).collect();
    assert_eq!(out_lines.len(), 3);
    let b = out_lines.iter().find(|v| v.str_at("custom_id") == Some("b")).unwrap();
    assert_eq!(b.str_at("url"), Some("/v1/chat/completions"));
    assert_eq!(b.str_at("method"), Some("POST"));
    assert!(b.get("body").unwrap().get("messages").unwrap().as_array().is_some());
    let c = out_lines.iter().find(|v| v.str_at("custom_id") == Some("c")).unwrap();
    assert_eq!(c.str_at("url"), Some("/v1/embeddings"));
    assert_eq!(c.get("body").unwrap().str_at("input"), Some("embed me"));

    let records: Vec<Json> =
        rejects.iter().map(|r| parse_json(&reject_record(r)).unwrap()).collect();
    assert_eq!(records.len(), 2);
    assert!(records.iter().any(|r| r.str_at("error").unwrap().contains("body")));
    assert!(records.iter().any(|r| r.str_at("error") == Some("duplicate custom_id")));

    for l in &out {
        parse_line(l).unwrap();
    }
}

#[test]
fn import_rejects_invalid_custom_id() {
    let (stats, _, _) = import_batch(
        &lines("{\"custom_id\":\"has space\",\"body\":{}}\n"),
        EndpointKind::Chat,
    );
    assert_eq!(stats.written, 0);
    assert_eq!(stats.rejected, 1);
}

#[test]
fn import_sets_a_line_that_is_not_text_aside() {
    let source = [b"{\"custom_id\":\"a\",\"body\":{}}".to_vec(), b"\xffx".to_vec()];
    let (stats, written, aside) = import_batch(&source, EndpointKind::Chat);
    assert_eq!((stats.lines_read, stats.written, stats.rejected), (2, 1, 1));
    assert_eq!(written.len(), 1);
    assert_eq!((aside[0].line_no, aside[0].input.as_str()), (2, "\u{fffd}x"));
    assert_eq!(aside[0].error, "ingest: line is not valid UTF-8");
}

#[test]
fn import_refuses_to_overwrite_its_input() {
    assert!(check_import("a.jsonl", "a.jsonl", None, None).is_err());
    assert!(check_import("a.jsonl", "./a.jsonl", Some("/d/a.jsonl"), Some("/d/a.jsonl")).is_err());
    assert!(check_import("a.jsonl", "b.jsonl", Some("/d/a.jsonl"), None).is_ok());
}

#[test]
fn an_imported_line_keeps_its_body() {
    let n = normalize_line(r#"{"custom_id":"x","body":{"prompt":"p"}}"#, EndpointKind::Chat);
    let n = n.unwrap();
    assert_eq!(n.custom_id, "x");
    assert_eq!(n.record.str_at("url"), Some("/v1/completions"));
    assert_eq!(n.record.get("body").unwrap().str_at("prompt"), Some("p"));
}

#[test]
fn buckets_group_shared_prefixes_contiguously() {
    let mut input = Vec::new();
    for i in 0..6 {
        let sys = if i % 2 == 0 { "SYSTEM-A" } else { "SYSTEM-B" };
        input.extend(lines(&format!(
            "{{\"custom_id\":\"req-{i}\",\"method\":\"POST\",\"url\":\"/v1/chat/completions\",\"body\":{{\"model\":\"m\",\"messages\":[{{\"role\":\"system\",\"content\":\"{sys}\"}},{{\"role\":\"user\",\"content\":\"q{i}\"}}]}}}}"
        )));
    }
    let (out, stats) = bucket_jsonl(&input, 64);
    assert_eq!(stats.lines, 6);
    assert_eq!(stats.buckets_used, 2);

    let sys_seq: Vec<&str> =
        out.iter().map(|l| if text(l).contains("SYSTEM-A") { "A" } else { "B" }).collect();
    let transitions = sys_seq.windows(2).filter(|w| w[0] != w[1]).count();
    assert_eq!(transitions, 1, "prefixes must be grouped, got {sys_seq:?}");
    assert_eq!(out.len(), 6);
}

#[test]
fn malformed_lines_survive_to_the_tail() {
    let input = [
        "not json",
        "{\"custom_id\":\"ok\",\"method\":\"POST\",\"url\":\"/v1/chat/completions\",\"body\":{\"model\":\"m\",\"messages\":[]}}",
        "{\"custom_id\":\"keyed\",\"body\":{\"messages\":[{\"role\":\"user\",\"content\":\"q\"}]}}",
    ]
    .map(|l| l.as_bytes().to_vec());
    let (out, stats) = bucket_jsonl(&input[..2], 16);
    assert_eq!(stats.lines, 2);
    assert!(out.contains(&b"not json".to_vec()), "malformed line must not be dropped");
    let (out, _) = bucket_jsonl(&input, 16);
    assert_eq!(out.last(), Some(&input[0]));
}

#[test]
fn a_line_that_is_not_text_goes_through_to_the_last_bucket() {
    let input = [
        b"\xff".to_vec(),
        b"{\"custom_id\":\"ok\",\"body\":{\"model\":\"m\"}}".to_vec(),
        b" ".to_vec(),
    ];
    let (out, stats) = bucket_jsonl(&input, 16);
    assert_eq!(out, vec![input[1].clone(), input[0].clone()]);
    assert_eq!((stats.lines, stats.buckets_used), (2, 2));
}

#[test]
fn the_prefix_is_the_system_prompt_then_the_first_user_turn() {
    let key = |messages: &str| {
        bucket_key(&format!("{{\"custom_id\":\"c\",\"body\":{{\"messages\":{messages}}}}}"))
    };
    let sys = key(r#"[{"role":"user","content":"u"},{"role":"system","content":"s"}]"#).unwrap();
    assert_eq!(
        key(r#"[{"role":"assistant","content":"x"},{"role":"user","content":"u"}]"#),
        key(r#"[{"role":"user","content":"u"}]"#)
    );
    assert_eq!(sys, "\0s");
    assert_eq!(key("[]").as_deref(), Some("\0"));
    assert_eq!(bucket_key("not json"), None);
}

#[test]
fn the_bucket_of_a_key_is_its_fnv_hash() {
    assert_eq!(bucket_of("", 64), (0xcbf29ce484222325u64 % 64) as usize);
    assert_eq!(bucket_of("a", 64), (0xaf63dc4c8601ec8cu64 % 64) as usize);
    assert_eq!(bucket_of("foobar", 251), (0x85944171f73967e8u64 % 251) as usize);
}

fn input_line(id: &str) -> Vec<u8> {
    format!(r#"{{"custom_id":"{id}","method":"POST","url":"","body":{{}}}}"#).into_bytes()
}

fn result_line(id: &str) -> Vec<u8> {
    format!(r#"{{"custom_id":"{id}","response":{{"status_code":200,"body":{{}}}}}}"#).into_bytes()
}

#[test]
fn reports_missing_extra_duplicate() {
    let input = ["a", "b", "c", "c", "d"].map(input_line);
    let results = ["a", "z"].map(result_line);
    let dead = ["b"].map(result_line);

    let (rep, _) = verify_completeness(&input, &results, Some(&dead), &VerifyConfig::default());

    assert_eq!(rep.input_ids, 4, "a,b,c,d distinct");
    assert_eq!(rep.duplicate_input, 1, "the second c");
    assert_eq!(rep.emitted_ids, 3, "a,b,z");
    assert_eq!(rep.missing, 2, "c and d");
    assert_eq!(rep.extra, 1, "z");
    assert!(!rep.is_complete());
    let mut sample = rep.missing_sample.clone();
    sample.sort();
    assert_eq!(sample, vec!["c".to_string(), "d".to_string()]);
}

#[test]
fn complete_run_is_zero_missing_and_writes_no_sidecar() {
    let input = ["a", "b", "c"].map(input_line);
    let results = ["a", "b"].map(result_line);
    let dead = ["c"].map(result_line);

    let cfg = VerifyConfig { missing_out: Some("missing.txt".into()), ..Default::default() };
    let (rep, missing) = verify_completeness(&input, &results, Some(&dead), &cfg);
    assert!(rep.is_complete());
    assert_eq!(rep.missing, 0);
    assert_eq!(rep.extra, 0);
    assert!(missing.is_empty(), "no sidecar when nothing is missing");
}

#[test]
fn missing_sidecar_lists_every_gap() {
    let input = ["a", "b", "c"].map(input_line);
    let results = ["a"].map(result_line);

    let cfg = VerifyConfig { missing_out: Some("missing.txt".into()), ..Default::default() };
    let (rep, missing) = verify_completeness(&input, &results, None, &cfg);
    assert_eq!(rep.missing, 2);
    assert_eq!(missing, vec!["b".to_string(), "c".to_string()]);
}

#[test]
fn rejects_invalid_input_id_without_aborting() {
    let input = [
        input_line("a"),
        br#"{"custom_id":"has space","body":{}}"#.to_vec(),
        b"{not json}".to_vec(),
        input_line("b"),
    ];
    let results = ["a", "b"].map(result_line);

    let (rep, _) = verify_completeness(&input, &results, None, &VerifyConfig::default());
    assert_eq!(rep.rejected_input, 2, "bad id + torn line");
    assert_eq!(rep.input_ids, 2, "only a,b counted");
    assert!(rep.is_complete(), "the two valid ids are both present");
}

#[test]
fn bounded_memory_spills_and_matches_single_buffer() {
    let n = 5_000;
    let input: Vec<Vec<u8>> = (0..n).map(|i| input_line(&format!("id{i:05}"))).collect();
    let results: Vec<Vec<u8>> =
        (0..n - 3).map(|i| result_line(&format!("id{i:05}"))).collect();

    let tiny = VerifyConfig { run_capacity: 4, missing_out: None };
    let (small, _) = verify_completeness(&input, &results, None, &tiny);
    let (big, _) = verify_completeness(&input, &results, None, &VerifyConfig::default());

    assert!(
        small.runs_spilled > 2,
        "tiny capacity must spill many runs, got {}",
        small.runs_spilled
    );
    assert_eq!(big.runs_spilled, 2, "default capacity fits each side in one run");
    assert_eq!(small.input_ids, n as u64);
    assert_eq!(small.missing, 3);
    assert_eq!(small.missing, big.missing, "result independent of buffer size");
    assert_eq!(small.input_ids, big.input_ids);
}

#[test]
fn results_in_any_order_are_the_same_run() {
    let input = ["b", "a", "c"].map(input_line);
    let (rep, _) =
        verify_completeness(&input, &["c", "b", "a"].map(result_line), None, &VerifyConfig {
            run_capacity: 1,
            missing_out: None,
        });
    assert!(rep.is_complete());
    assert_eq!((rep.input_ids, rep.emitted_ids), (3, 3));
}

#[test]
fn a_sample_of_the_missing_is_bounded() {
    let input: Vec<Vec<u8>> = (0..250).map(|i| input_line(&format!("id{i:05}"))).collect();
    let (rep, missing) = verify_completeness(&input, &[], None, &VerifyConfig::default());
    assert_eq!(rep.missing, 250);
    assert_eq!(rep.missing_sample.len(), 100);
    assert_eq!(missing.len(), 250);
}

#[test]
fn an_empty_report_is_complete() {
    assert!(VerifyReport::empty(0).is_complete());
    assert!(matches!(scan_line(b"  ", true), Found::Blank));
    assert!(matches!(scan_line(br#"{"x":1}"#, true), Found::Nothing));
    assert!(matches!(scan_line(br#"{"custom_id":"bad id"}"#, true), Found::Nothing));
    assert!(matches!(scan_line(br#"{"custom_id":"bad id"}"#, false), Found::Id(_)));
}

#[test]
fn a_torn_character_does_not_stop_a_sweep() {
    let input = [input_line("a"), b"{\"custom_id\":\"b\",\"body\":\"\xff\"}".to_vec()];
    let results = [result_line("a"), b"{\"custom_id\":\"c\xc3".to_vec()];
    let (rep, _) = verify_completeness(&input, &results, None, &VerifyConfig::default());
    assert_eq!((rep.input_ids, rep.emitted_ids, rep.rejected_input), (1, 1, 1));
    assert!(rep.is_complete());
}

#[test]
fn a_checkpoint_stands_behind_each_full_batch() {
    let text = item_lines(1_500).join("\n") + "\n";
    let mut queue = SqliteQueue::open_in_memory(7);
    ingest(&mut queue, &text);
    let head = item_lines(1_000).join("\n") + "\n";
    let mut short = SqliteQueue::open_in_memory(7);
    ingest(&mut short, &head);
    assert_eq!(short.hydrated_through(), Some((head.len() as u64, 1_000)));
    assert_eq!(queue.hydrated_through(), Some((text.len() as u64, 1_500)));
}

#[test]
fn an_invalid_id_is_quoted_in_its_error() {
    let e = parse_line(r#"{"custom_id":"a\"b","body":{}}"#).unwrap_err();
    assert_eq!(
        e.to_string(),
        "ingest: invalid custom_id \"a\\\"b\" (expected ^[a-zA-Z0-9_-]{1,64}$)"
    );
}

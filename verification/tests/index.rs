use agentledger::index::{
    db_path, needs_schema, offset_value, output_column, read_call, row_to_json, rows_to_json,
    run_detail, scan_end, stored_offset, stored_run, sync, upsert_llm_call, upsert_run, CallRow,
    Cell, EventBatch, RunRow, SyncReport,
};
use agentledger::ledger::next_event;
use agentledger::record::{EvalRecord, GitSnapshot, RunMetrics, RunRecord};
use agentledger::scan::{new_lines, start_offset, NewLine, Scan};
use std::collections::BTreeMap;

fn sample_run(id: &str) -> RunRecord {
    RunRecord {
        id: id.to_string(),
        task: "t".to_string(),
        agent: "a".to_string(),
        command: vec!["true".to_string()],
        repo: "/repo".to_string(),
        started_at: "2026-01-01T00:00:00Z".to_string(),
        ended_at: "2026-01-01T00:00:01Z".to_string(),
        duration_ms: 1000,
        exit_code: Some(0),
        status: "passed".to_string(),
        source_precision: "observed".to_string(),
        stdout_path: String::new(),
        stderr_path: String::new(),
        stdout_preview: String::new(),
        stderr_preview: String::new(),
        git: GitSnapshot {
            is_git_repo: false,
            base_commit: None,
            dirty_before: false,
            dirty_after: false,
            diffstat: None,
        },
        evals: vec![],
        metrics: RunMetrics::default(),
        llm_error_calls: 0,
    }
}

fn parse(text: &str) -> serde_json::Value {
    serde_json::from_str(text).expect("json")
}

fn call_line(id: &str, run_id: &str, total_tokens: u64, ttft_ms: u64) -> String {
    let mut metrics = serde_json::Map::new();
    metrics.insert("input_tokens".to_string(), serde_json::Value::from(total_tokens / 2));
    metrics.insert("output_tokens".to_string(), serde_json::Value::from(total_tokens / 2));
    metrics.insert("total_tokens".to_string(), serde_json::Value::from(total_tokens));
    metrics.insert("cost_usd".to_string(), serde_json::Value::from(0.001));
    metrics.insert("ttft_ms".to_string(), serde_json::Value::from(ttft_ms));
    let mut line = serde_json::Map::new();
    line.insert("id".to_string(), serde_json::Value::from(id));
    line.insert("run_id".to_string(), serde_json::Value::from(run_id));
    line.insert("model".to_string(), serde_json::Value::from("mock"));
    line.insert("status".to_string(), serde_json::Value::from(200));
    line.insert("duration_ms".to_string(), serde_json::Value::from(1000));
    line.insert("metrics".to_string(), serde_json::Value::Object(metrics));
    serde_json::Value::Object(line).to_string()
}

/// A ledger and its index in memory. A line of the events is the number of its run.
struct Store {
    versions: Vec<RunRecord>,
    events: Vec<u8>,
    calls: Vec<u8>,
    offsets: BTreeMap<&'static str, i64>,
    llm_calls: BTreeMap<String, CallRow>,
    conn: rusqlite::Connection,
}

impl Store {
    fn new() -> Store {
        let conn = rusqlite::Connection::open_in_memory().expect("open");
        conn.execute_batch(
            "CREATE TABLE runs (id TEXT PRIMARY KEY, status TEXT, eval_count INTEGER, eval_status TEXT)",
        )
        .expect("create");
        Store {
            versions: Vec::new(),
            events: Vec::new(),
            calls: Vec::new(),
            offsets: BTreeMap::new(),
            llm_calls: BTreeMap::new(),
            conn,
        }
    }

    fn append_run_event(&mut self, run: RunRecord) {
        let line = format!("{}\n", self.versions.len());
        self.events.extend_from_slice(line.as_bytes());
        self.versions.push(run);
    }

    fn write_llm_call(&mut self, id: &str, run_id: &str, total_tokens: u64, ttft_ms: u64) {
        let line = call_line(id, run_id, total_tokens, ttft_ms);
        self.calls.extend_from_slice(line.as_bytes());
        self.calls.push(b'\n');
    }

    fn scan(&self, file: &'static str, content: &[u8]) -> Option<Scan> {
        let stored = stored_offset(self.offsets.get(file).copied());
        let start = start_offset(content.len() as u64, stored)?;
        Some(new_lines(&content[start as usize..], start))
    }

    fn sync(&mut self) -> SyncReport {
        let events = self.scan("events.ndjson", &self.events).map(|scan| EventBatch {
            runs: scan
                .lines
                .iter()
                .map(|line| {
                    let index: usize = line.text.parse().expect("number");
                    (self.versions[index].clone(), "{}".to_string())
                })
                .collect(),
            end: scan_end(&scan).expect("utf-8"),
        });
        let calls = self.scan("llm_calls.ndjson", &self.calls);
        let plan = sync("/root", false, events, calls.as_ref()).expect("sync");
        for row in plan.runs {
            self.conn
                .execute(
                    "INSERT OR REPLACE INTO runs VALUES (?1, ?2, ?3, ?4)",
                    (row.id, row.status, row.eval_count, row.eval_status),
                )
                .expect("insert");
        }
        for row in plan.calls {
            self.llm_calls.insert(row.id.clone(), row);
        }
        if let Some(offset) = plan.events_offset {
            self.offsets.insert("events.ndjson", offset);
        }
        if let Some(offset) = plan.calls_offset {
            self.offsets.insert("llm_calls.ndjson", offset);
        }
        plan.report
    }

    fn query(&self, sql: &str) -> Vec<serde_json::Value> {
        let mut stmt = self.conn.prepare(sql).expect("prepare");
        let names = stmt.column_names().map(|name| name.to_string()).collect::<Vec<_>>();
        let mut rows = stmt.query([]).expect("query");
        let mut all = Vec::new();
        while let Some(row) = rows.next().expect("row") {
            let mut cells = Vec::new();
            for index in 0..names.len() {
                cells.push(match row.get_ref(index).expect("value") {
                    rusqlite::types::ValueRef::Null => Cell::Null,
                    rusqlite::types::ValueRef::Integer(i) => Cell::Integer(i),
                    rusqlite::types::ValueRef::Real(x) => Cell::Real(serde_json::Value::from(x)),
                    rusqlite::types::ValueRef::Text(text) => Cell::Text(text.to_vec()),
                    rusqlite::types::ValueRef::Blob(blob) => Cell::Blob(blob.len()),
                });
            }
            all.push(cells);
        }
        rows_to_json(&names, all)
    }
}

#[test]
fn sync_is_incremental_and_idempotent() {
    let mut store = Store::new();
    store.append_run_event(sample_run("run-1"));
    store.write_llm_call("call-1", "run-1", 10, 120);

    let first = store.sync();
    assert_eq!(first.runs_upserted, 1);
    assert_eq!(first.llm_calls_upserted, 1);

    // Nothing new appended: pure no-op.
    let second = store.sync();
    assert_eq!(second.runs_upserted, 0);
    assert_eq!(second.llm_calls_upserted, 0);

    // Incremental catch-up from the stored offset.
    store.append_run_event(sample_run("run-2"));
    store.write_llm_call("call-2", "run-2", 20, 80);
    let third = store.sync();
    assert_eq!(third.runs_upserted, 1);
    assert_eq!(third.llm_calls_upserted, 1);
    assert_eq!(third.db_path, "/root/.agentledger/ledger.db");

    let rows = store.query("SELECT count(*) AS n FROM runs");
    assert_eq!(rows[0]["n"], serde_json::Value::from(2));
    assert_eq!(store.llm_calls["call-2"].total_tokens, Some(20));
    assert_eq!(store.llm_calls["call-2"].ttft_ms, Some(80));
    assert_eq!(store.llm_calls["call-2"].cost_usd, Some("0.001".to_string()));
}

#[test]
fn latest_run_version_wins_after_reappend() {
    let mut store = Store::new();
    store.append_run_event(sample_run("run-1"));

    // A post-hoc eval appends an updated version of the same run.
    let mut updated = sample_run("run-1");
    updated.status = "failed".to_string();
    updated.evals.push(EvalRecord {
        command: "exit 1".to_string(),
        exit_code: Some(1),
        duration_ms: 5,
        status: "failed".to_string(),
        stdout_preview: String::new(),
        stderr_preview: String::new(),
    });
    store.append_run_event(updated);

    store.sync();
    let rows =
        store.query("SELECT status, eval_count, eval_status FROM runs WHERE id = 'run-1'");
    assert_eq!(rows.len(), 1);
    assert_eq!(rows[0]["status"], serde_json::Value::from("failed"));
    assert_eq!(rows[0]["eval_count"], serde_json::Value::from(1));
    assert_eq!(rows[0]["eval_status"], serde_json::Value::from("failed"));
}

#[test]
fn index_stands_in_the_ledger() {
    assert_eq!(db_path("/tmp/x", false), "/tmp/x/.agentledger/ledger.db");
    assert_eq!(db_path("/tmp/x/", false), "/tmp/x/.agentledger/ledger.db");
    assert_eq!(db_path("", false), ".agentledger/ledger.db");
    assert_eq!(db_path(".", false), "./.agentledger/ledger.db");
    assert_eq!(db_path("x\\", false), "x\\/.agentledger/ledger.db");
    assert_eq!(db_path("C:", false), "C:/.agentledger/ledger.db");
}

#[test]
fn path_of_the_index_is_written_as_the_system_writes_it() {
    assert_eq!(db_path(r"C:\x", true), r"C:\x\.agentledger\ledger.db");
    assert_eq!(db_path(r"C:\", true), r"C:\.agentledger\ledger.db");
    assert_eq!(db_path("x/", true), r"x/.agentledger\ledger.db");
    assert_eq!(db_path("c:", true), r"c:.agentledger\ledger.db");
    assert_eq!(db_path("1:", true), r"1:\.agentledger\ledger.db");
    assert_eq!(db_path("", true), r".agentledger\ledger.db");
}

#[test]
fn tables_are_made_for_an_older_index() {
    assert!(needs_schema(0));
    assert!(needs_schema(-1));
    assert!(needs_schema(1));
    assert!(!needs_schema(2));
    assert!(!needs_schema(3));
}

#[test]
fn offsets_are_kept_as_they_are() {
    assert_eq!(stored_offset(None), 0);
    assert_eq!(stored_offset(Some(17)), 17);
    for offset in [0, 1, 4096, u64::MAX] {
        assert_eq!(stored_offset(Some(offset_value(offset))), offset);
    }
}

#[test]
fn new_lines_are_found_once() {
    let first = b"one\n\n  two \r\npart";
    let scan = new_lines(first, 0);
    assert_eq!(
        scan.lines,
        vec![
            NewLine { text: "one".to_string(), offset: 0 },
            NewLine { text: "two".to_string(), offset: 5 },
        ]
    );
    assert_eq!(scan.end, Some(13));

    let second = b"one\n\n  two \r\npartly\nlast\n";
    assert_eq!(start_offset(second.len() as u64, 13), Some(13));
    let rest = new_lines(&second[13..], 13);
    assert_eq!(
        rest.lines,
        vec![
            NewLine { text: "partly".to_string(), offset: 13 },
            NewLine { text: "last".to_string(), offset: 20 },
        ]
    );
    assert_eq!(rest.end, Some(25));

    let mut both = scan.lines;
    both.extend(rest.lines);
    assert_eq!(new_lines(second, 0), Scan { lines: both, end: Some(25) });
    assert_eq!(start_offset(25, 25), None);
}

#[test]
fn shorter_file_is_scanned_from_its_start() {
    assert_eq!(start_offset(10, 25), Some(0));
    assert_eq!(start_offset(0, 25), Some(0));
    assert_eq!(start_offset(0, 0), None);
    assert_eq!(start_offset(1, 0), Some(0));
}

#[test]
fn later_call_with_an_id_takes_its_place() {
    let mut store = Store::new();
    store.write_llm_call("same", "run-1", 10, 120);
    store.write_llm_call("other", "run-1", 20, 120);
    store.write_llm_call("same", "run-2", 30, 120);
    assert_eq!(store.sync().llm_calls_upserted, 3);
    assert_eq!(store.llm_calls.len(), 2);
    assert_eq!(store.llm_calls["same"].run_id.as_deref(), Some("run-2"));

    // An index that is made at once holds what one that caught up holds.
    store.write_llm_call("other", "run-3", 40, 120);
    store.sync();
    let mut anew = Store::new();
    anew.calls = store.calls.clone();
    assert_eq!(anew.sync().llm_calls_upserted, 4);
    assert_eq!(anew.llm_calls, store.llm_calls);
}

#[test]
fn emptied_file_is_indexed_from_its_start() {
    let mut store = Store::new();
    store.write_llm_call("old-call", "run-1", 10, 120);
    assert_eq!(store.sync().llm_calls_upserted, 1);
    let old_size = store.calls.len();

    store.calls.clear();
    assert_eq!(store.sync().llm_calls_upserted, 0);
    assert_eq!(store.offsets["llm_calls.ndjson"], 0);

    store.write_llm_call("new-call-1", "run-1", 10, 120);
    store.write_llm_call("new-call-2", "run-1", 10, 120);
    assert!(store.calls.len() > old_size);
    assert_eq!(store.sync().llm_calls_upserted, 2);
    assert!(store.llm_calls.contains_key("new-call-1"));
    assert!(store.llm_calls.contains_key("new-call-2"));
}

#[test]
fn bytes_that_are_no_text_end_a_scan() {
    let scan = new_lines(b"good\nb\xffd\nlost\n", 0);
    assert_eq!(scan.lines.len(), 1);
    assert_eq!(scan.end, None);
    assert_eq!(
        scan_end(&scan),
        Err("stream did not contain valid UTF-8".to_string())
    );
    assert_eq!(new_lines(b"good\nb\xff", 0).end, None);
    assert_eq!(
        sync("/r", false, None, Some(&new_lines(b"{}\nb\xffd\n", 0))),
        Err("stream did not contain valid UTF-8".to_string())
    );
    let first = sync("/r", false, None, Some(&scan)).expect_err("no json");
    assert!(first.contains("expected"), "{first}");
    assert_eq!(new_lines("é\n".as_bytes(), 7).lines[0].text, "é");
}

#[test]
fn line_that_is_no_json_stops_the_sync() {
    let scan = new_lines(b"{\"id\":\"a\"}\nnonsense\n", 0);
    assert_eq!(scan.end, Some(20));
    let err = sync("/r", false, None, Some(&scan)).expect_err("bad line");
    assert!(err.contains("line 1"), "{err}");
    let err = read_call(&scan.lines[1]).expect_err("bad line");
    assert!(err.contains("expected"), "{err}");
    assert_eq!(read_call(&scan.lines[0]).expect("good line").id, "a");
}

#[test]
fn call_without_an_id_goes_by_its_offset() {
    let line = NewLine { text: "{\"model\":\"m\"}".to_string(), offset: 4096 };
    let row = read_call(&line).expect("row");
    assert_eq!(row.id, "offset-4096");
    assert_eq!(row.model.as_deref(), Some("m"));
}

#[test]
fn call_row_holds_what_the_record_says() {
    let call = parse(
        r#"{"id":"c","run_id":"r","timestamp":"t","endpoint":"/v1/x","model":"m","prompt":"p",
            "status":200,"duration_ms":-4,"source_precision":"exact","request_stream":true,
            "upstream_base":"u","request_body":{"b":[1,"x"]},"response_body":null,
            "metrics":{"input_tokens":1,"output_tokens":2.5,"total_tokens":3,"cached_tokens":4,
            "reasoning_tokens":18446744073709551615,"cost_usd":0.25,"ttft_ms":7,
            "output_tokens_per_second":12}}"#,
    );
    let row = upsert_llm_call(&call, "fallback");
    assert_eq!(
        row,
        CallRow {
            id: "c".to_string(),
            run_id: Some("r".to_string()),
            timestamp: Some("t".to_string()),
            endpoint: Some("/v1/x".to_string()),
            model: Some("m".to_string()),
            prompt: Some("p".to_string()),
            status: Some(200),
            duration_ms: None,
            source_precision: Some("exact".to_string()),
            request_stream: Some(true),
            input_tokens: Some(1),
            output_tokens: None,
            total_tokens: Some(3),
            cached_tokens: Some(4),
            reasoning_tokens: Some(-1),
            cost_usd: Some("0.25".to_string()),
            ttft_ms: Some(7),
            output_tokens_per_second: Some("12".to_string()),
            upstream_base: Some("u".to_string()),
            request_body: Some("{\"b\":[1,\"x\"]}".to_string()),
            response_body: None,
        }
    );
    let empty = upsert_llm_call(&parse("[]"), "fallback");
    assert_eq!(empty.id, "fallback");
    assert_eq!(empty.run_id, None);
    assert_eq!(empty.request_body, None);
}

#[test]
fn run_row_holds_what_the_record_says() {
    let mut run = sample_run("run-1");
    run.git.base_commit = Some("abc".to_string());
    run.git.dirty_after = true;
    run.llm_error_calls = 3;
    run.duration_ms = 1 << 64;
    for status in ["passed", "failed"] {
        run.evals.push(EvalRecord {
            command: format!("cmd {status}"),
            exit_code: None,
            duration_ms: 5,
            status: status.to_string(),
            stdout_preview: "out".to_string(),
            stderr_preview: "err".to_string(),
        });
    }
    let row = upsert_run(run, "{raw}".to_string());
    assert_eq!(row.id, "run-1");
    assert_eq!(row.duration_ms, 0);
    assert_eq!(row.git_base_commit.as_deref(), Some("abc"));
    assert!(!row.git_dirty_before);
    assert!(row.git_dirty_after);
    assert_eq!(row.llm_error_calls, 3);
    assert_eq!(row.eval_count, 2);
    assert_eq!(row.eval_status, "failed");
    assert_eq!(row.raw, "{raw}");
    assert_eq!(row.evals[0].idx, 0);
    assert_eq!(row.evals[1].idx, 1);
    assert_eq!(row.evals[1].command, "cmd failed");
    assert_eq!(row.evals[1].duration_ms, 5);

    let plain: RunRow = upsert_run(sample_run("run-2"), String::new());
    assert_eq!(plain.eval_status, "not_run");
    assert_eq!(plain.duration_ms, 1000);
}

#[test]
fn rows_are_shown_as_objects() {
    let names = ["n", "i", "r", "t", "b", "i"].map(str::to_string).to_vec();
    let row = row_to_json(
        &names,
        vec![
            Cell::Null,
            Cell::Integer(-7),
            Cell::Real(serde_json::Value::from(1.5)),
            Cell::Text(b"x\xffy".to_vec()),
            Cell::Blob(12),
            Cell::Integer(9),
        ],
    );
    assert_eq!(
        row,
        parse(r#"{"n":null,"i":9,"r":1.5,"t":"x�y","b":"<12 bytes blob>"}"#)
    );
    assert_eq!(row_to_json(&vec!["k".to_string()], vec![Cell::Integer(-7)]), parse(r#"{"k":-7}"#));
}

#[test]
fn run_is_shown_with_its_calls() {
    let run = stored_run("{\"id\":\"r\"}").expect("json");
    let detail = run_detail(run, vec![parse("1"), parse("\"two\"")]);
    assert_eq!(detail, parse(r#"{"run":{"id":"r"},"llm_calls":[1,"two"]}"#));
    assert!(stored_run("{").is_err());
}

#[test]
fn only_stderr_is_not_the_standard_output() {
    assert_eq!(output_column("stderr"), "stderr_path");
    assert_eq!(output_column("stdout"), "stdout_path");
    assert_eq!(output_column("anything"), "stdout_path");
}

#[test]
fn index_and_ledger_agree_on_the_runs() {
    let mut events = Vec::new();
    let mut store = Store::new();
    for (id, status) in [("a", "passed"), ("b", "passed"), ("a", "failed")] {
        let mut run = sample_run(id);
        run.status = status.to_string();
        let event = next_event(&events, run.clone(), parse("{}"));
        events.push(event);
        store.append_run_event(run);
    }
    store.sync();
    let rows = store.query("SELECT id, status FROM runs ORDER BY id");
    let runs = agentledger::ledger::load_runs(events);
    assert_eq!(rows.len(), runs.len());
    for (row, run) in rows.iter().zip(runs) {
        assert_eq!(row["id"], serde_json::Value::from(run.id));
        assert_eq!(row["status"], serde_json::Value::from(run.status));
    }
}

use agentledger::error::LedgerError;
use agentledger::export::{csv_escape, csv_text, export, export_csv, export_jsonl, ExportFormat};
use agentledger::record::{EvalRecord, GitSnapshot, RunMetrics, RunRecord};

fn run(id: &str, task: &str) -> RunRecord {
    RunRecord {
        id: id.to_string(),
        task: task.to_string(),
        agent: "a".to_string(),
        command: vec![],
        repo: "/repo".to_string(),
        started_at: "T".to_string(),
        ended_at: String::new(),
        duration_ms: 340282366920938463463374607431768211455,
        exit_code: Some(-1),
        status: "passed".to_string(),
        source_precision: String::new(),
        stdout_path: String::new(),
        stderr_path: String::new(),
        stdout_preview: String::new(),
        stderr_preview: String::new(),
        git: GitSnapshot {
            is_git_repo: false,
            base_commit: None,
            dirty_before: false,
            dirty_after: false,
            diffstat: None,
        },
        evals: vec![],
        metrics: RunMetrics::default(),
        llm_error_calls: 0,
    }
}

/// The rows of a CSV text.
fn read_csv(text: &str) -> Vec<Vec<String>> {
    let mut rows = vec![];
    let mut row = vec![];
    let mut field = String::new();
    let mut chars = text.chars().peekable();
    while let Some(c) = chars.next() {
        match c {
            '"' => loop {
                match chars.next() {
                    Some('"') if chars.peek() == Some(&'"') => {
                        chars.next();
                        field.push('"');
                    }
                    Some('"') | None => break,
                    Some(other) => field.push(other),
                }
            },
            ',' => row.push(std::mem::take(&mut field)),
            '\n' => {
                row.push(std::mem::take(&mut field));
                rows.push(std::mem::take(&mut row));
            }
            other => field.push(other),
        }
    }
    rows
}

#[test]
fn csv_escape_quotes_special_characters() {
    assert_eq!(csv_escape("plain"), "plain");
    assert_eq!(csv_escape("a,b"), "\"a,b\"");
    assert_eq!(csv_escape("say \"hi\""), "\"say \"\"hi\"\"\"");
}

#[test]
fn csv_escape_handles_the_edges() {
    assert_eq!(csv_escape(""), "");
    assert_eq!(csv_escape("a\nb"), "\"a\nb\"");
    assert_eq!(csv_escape("a\rb"), "a\rb");
    assert_eq!(csv_escape("\""), "\"\"\"\"");
}

#[test]
fn csv_table_is_read_back() {
    let mut second = run("2", "say \"hi\", \nthere");
    second.exit_code = None;
    second.evals.push(EvalRecord {
        command: String::new(),
        exit_code: None,
        duration_ms: 0,
        status: "passed".to_string(),
        stdout_preview: String::new(),
        stderr_preview: String::new(),
    });
    let text = csv_text(&vec![run("1", "t"), second]);
    let mut lines = text.lines();
    assert_eq!(
        lines.next(),
        Some("id,task,agent,status,duration_ms,exit_code,eval_status,started_at,repo")
    );
    assert_eq!(
        lines.next(),
        Some("1,t,a,passed,340282366920938463463374607431768211455,-1,not_run,T,/repo")
    );
    let rows = read_csv(&text);
    assert_eq!(rows.len(), 3);
    assert_eq!(rows[2][1], "say \"hi\", \nthere");
    assert_eq!(rows[2][5], "");
    assert_eq!(rows[2][6], "passed");
    assert!(rows.iter().all(|row| row.len() == 9));
    assert_eq!(
        csv_text(&vec![]),
        "id,task,agent,status,duration_ms,exit_code,eval_status,started_at,repo\n"
    );
}

#[test]
fn export_knows_its_formats() {
    assert_eq!(export("jsonl"), Ok(ExportFormat::Jsonl));
    assert_eq!(export("csv"), Ok(ExportFormat::Csv));
    assert_eq!(
        export("parquet").expect_err("planned").message(),
        "unsupported operation: parquet export is planned for the analytics extra; use jsonl or csv in the MVP"
    );
    assert_eq!(
        export("otlp").expect_err("planned").message(),
        "unsupported operation: OTLP export is planned after OpenTelemetry span capture lands"
    );
    assert_eq!(
        export("xml").expect_err("unknown").message(),
        "configuration error: unsupported export format 'xml', expected jsonl, csv, parquet, or otlp"
    );
}

#[test]
fn export_goes_where_it_is_told() {
    let copy = export_jsonl(None, "/p", true, false).expect("ledger");
    assert_eq!(copy.source, "/p/.agentledger/events.ndjson");
    assert_eq!(copy.target, "/p/.agentledger/export.jsonl");
    assert_eq!(copy.message, "Exported JSONL to /p/.agentledger/export.jsonl");
    let copy = export_jsonl(Some("out.jsonl"), "/p", true, false).expect("ledger");
    assert_eq!(copy.target, "out.jsonl");
    assert_eq!(
        export_jsonl(None, "/p", false, false),
        Err(LedgerError::Storage(
            "ledger does not exist at /p/.agentledger/events.ndjson".to_string()
        ))
    );
    let table = export_csv(None, "/p", &vec![run("1", "t")], false);
    assert_eq!(table.target, "/p/.agentledger/runs.csv");
    assert_eq!(table.message, "Exported CSV to /p/.agentledger/runs.csv");
    assert_eq!(table.content.lines().count(), 2);
    assert_eq!(export_csv(Some("x.csv"), "/p", &vec![], true).target, "x.csv");
    assert_eq!(export_csv(None, "p", &vec![], true).target, r"p\.agentledger\runs.csv");
}

use agentledger::capture::CommandOutcome;
use agentledger::error::{to_py_err, ExceptionClass, LedgerError};
use agentledger::ident::new_id;
use agentledger::ledger::{
    check_repo, find_run, last_hash, load_runs, next_event, require_tests, run_to_evaluate,
    seal_event, with_evals, LedgerEvent,
};
use agentledger::record::{EvalRecord, GitSnapshot, RunMetrics, RunRecord};
use agentledger::scan::record_lines;

fn sample_run(id: &str, repo: &str) -> RunRecord {
    RunRecord {
        id: id.to_string(),
        task: "t".to_string(),
        agent: "a".to_string(),
        command: vec!["true".to_string()],
        repo: repo.to_string(),
        started_at: "2026-01-01T00:00:00Z".to_string(),
        ended_at: "2026-01-01T00:00:01Z".to_string(),
        duration_ms: 1000,
        exit_code: Some(0),
        status: "passed".to_string(),
        source_precision: "observed".to_string(),
        stdout_path: String::new(),
        stderr_path: String::new(),
        stdout_preview: String::new(),
        stderr_preview: String::new(),
        git: GitSnapshot {
            is_git_repo: false,
            base_commit: None,
            dirty_before: false,
            dirty_after: false,
            diffstat: None,
        },
        evals: vec![],
        metrics: RunMetrics::default(),
        llm_error_calls: 0,
    }
}

fn shown(run: &RunRecord) -> serde_json::Value {
    let mut object = serde_json::Map::new();
    object.insert("id".to_string(), serde_json::Value::from(run.id.clone()));
    serde_json::Value::Object(object)
}

fn append(events: &mut Vec<LedgerEvent>, run: &RunRecord) {
    let event = next_event(events, run.clone(), shown(run));
    events.push(event);
}

fn ran(success: bool) -> CommandOutcome {
    CommandOutcome {
        success,
        exit_code: Some(if success { 0 } else { 1 }),
        stdout: Vec::new(),
        stderr: Vec::new(),
        duration_ms: 5,
    }
}

/// What an eval of a recorded run does, with the outcome of each test given.
fn run_post_eval(
    run_id: &str,
    tests: &[(&str, bool)],
    events: &mut Vec<LedgerEvent>,
) -> Result<RunRecord, LedgerError> {
    let commands = tests.iter().map(|test| test.0.to_string()).collect::<Vec<_>>();
    require_tests(&commands)?;
    let run = run_to_evaluate(run_id, load_runs(events.clone()))?;
    check_repo(&run.repo, true)?;
    let outcomes = tests.iter().map(|test| ran(test.1)).collect::<Vec<_>>();
    let run = with_evals(run, &commands, &outcomes);
    append(events, &run);
    Ok(run)
}

#[test]
fn post_hoc_eval_appends_event_and_recomputes_status() {
    let mut events = Vec::new();
    append(&mut events, &sample_run("run-1", "/tmp/repo"));

    let updated = run_post_eval("run-1", &[("exit 0", true)], &mut events).expect("passing eval");
    assert_eq!(updated.evals.len(), 1);
    assert_eq!(updated.status, "passed");

    let failed = run_post_eval("run-1", &[("exit 1", false)], &mut events).expect("failing eval");
    assert_eq!(failed.evals.len(), 2);
    assert_eq!(failed.status, "failed");

    // Three events in the file, but the latest version of the run wins.
    assert_eq!(events.len(), 3);
    let runs = load_runs(events.clone());
    assert_eq!(runs.len(), 1);
    assert_eq!(runs[0].evals.len(), 2);
    assert_eq!(runs[0].status, "failed");

    assert!(matches!(
        run_post_eval("missing", &[("exit 0", true)], &mut events),
        Err(LedgerError::Storage(_))
    ));
    assert!(matches!(
        run_post_eval("run-1", &[], &mut events),
        Err(LedgerError::Config(_))
    ));
}

#[test]
fn events_are_chained_by_their_hashes() {
    let mut events = Vec::new();
    assert_eq!(last_hash(&events), None);
    append(&mut events, &sample_run("run-1", "/r"));
    append(&mut events, &sample_run("run-2", "/r"));
    append(&mut events, &sample_run("run-1", "/r"));
    assert_eq!(events[0].previous_hash, None);
    assert_eq!(events[1].previous_hash, Some(events[0].hash.clone()));
    assert_eq!(events[2].previous_hash, Some(events[1].hash.clone()));
    assert_eq!(last_hash(&events), Some(events[2].hash.clone()));
    assert_ne!(events[0].hash, events[2].hash);
}

#[test]
fn hash_covers_the_whole_event() {
    let run = sample_run("run-1", "/r");
    let first = seal_event(None, run.clone(), shown(&run));
    let text = r#"{"previous_hash":null,"record_type":"run","run":{"id":"run-1"},"schema_version":1}"#;
    assert_eq!(first.hash, blake3::hash(text.as_bytes()).to_hex().to_string());
    assert_eq!(first.record_type, "run");
    assert_eq!(first.schema_version, 1);

    let second = seal_event(Some("ab".to_string()), run.clone(), shown(&run));
    let text = r#"{"previous_hash":"ab","record_type":"run","run":{"id":"run-1"},"schema_version":1}"#;
    assert_eq!(second.hash, blake3::hash(text.as_bytes()).to_hex().to_string());
    assert_eq!(second.hash.len(), 64);
}

#[test]
fn runs_keep_the_order_of_their_first_events() {
    let mut events = Vec::new();
    for id in ["b", "a", "c", "a", "b"] {
        let mut run = sample_run(id, "/r");
        run.duration_ms = events.len() as u128;
        append(&mut events, &run);
    }
    let runs = load_runs(events);
    let ids = runs.iter().map(|run| run.id.as_str()).collect::<Vec<_>>();
    assert_eq!(ids, vec!["b", "a", "c"]);
    let versions = runs.iter().map(|run| run.duration_ms).collect::<Vec<_>>();
    assert_eq!(versions, vec![4, 3, 2]);
    assert_eq!(find_run(&runs, "c"), Some(2));
    assert_eq!(find_run(&runs, "d"), None);
    assert!(load_runs(Vec::new()).is_empty());
}

#[test]
fn evals_of_a_failed_command_do_not_make_it_pass() {
    let mut run = sample_run("run-1", "/r");
    run.exit_code = Some(3);
    run.status = "failed".to_string();
    let run = with_evals(run, &vec!["true".to_string()], &vec![ran(true)]);
    assert_eq!(run.status, "failed");

    let mut run = sample_run("run-1", "/r");
    run.exit_code = None;
    assert_eq!(with_evals(run, &vec![], &vec![]).status, "failed");

    let run = sample_run("run-1", "/r");
    let eval = EvalRecord {
        command: "true".to_string(),
        exit_code: Some(0),
        duration_ms: 5,
        status: "passed".to_string(),
        stdout_preview: String::new(),
        stderr_preview: String::new(),
    };
    let updated = with_evals(run.clone(), &vec!["true".to_string()], &vec![ran(true)]);
    assert_eq!(updated.evals, vec![eval]);
    assert_eq!(updated.id, run.id);
    assert_eq!(updated.status, "passed");
}

#[test]
fn evals_after_the_run_tell_what_is_wrong() {
    assert_eq!(
        require_tests(&Vec::new()),
        Err(LedgerError::Config("pass at least one --test command".to_string()))
    );
    assert_eq!(require_tests(&vec!["true".to_string()]), Ok(()));
    assert_eq!(
        run_to_evaluate("inconnu", vec![sample_run("run-1", "/r")])
            .expect_err("unknown run")
            .message(),
        "storage error: run 'inconnu' not found in ledger"
    );
    assert_eq!(
        check_repo("/gone", false).expect_err("no repo").message(),
        "capture error: recorded repo path '/gone' no longer exists"
    );
    assert_eq!(check_repo("/here", true), Ok(()));
}

#[test]
fn errors_are_told_with_their_kind() {
    let text = || "x".to_string();
    let cases = [
        (LedgerError::Config(text()), "configuration error: x", ExceptionClass::ConfigError),
        (LedgerError::Capture(text()), "capture error: x", ExceptionClass::CaptureError),
        (LedgerError::Storage(text()), "storage error: x", ExceptionClass::StorageError),
        (LedgerError::Security(text()), "security error: x", ExceptionClass::SecurityError),
        (
            LedgerError::Unsupported(text()),
            "unsupported operation: x",
            ExceptionClass::AgentLedgerError,
        ),
        (LedgerError::Io(text()), "x", ExceptionClass::StorageError),
        (LedgerError::Json(text()), "x", ExceptionClass::StorageError),
        (LedgerError::TomlSer(text()), "x", ExceptionClass::ConfigError),
    ];
    for (err, message, class) in cases {
        assert_eq!(err.message(), message);
        assert_eq!(to_py_err(err), (class, "x".to_string()));
    }
}

#[test]
fn blank_lines_of_a_ledger_are_skipped() {
    assert_eq!(record_lines("a\n\n  \nb\r\n c"), vec!["a", "b", " c"]);
    assert!(record_lines("\n \t\n").is_empty());
    assert!(record_lines("").is_empty());
}

#[test]
fn identifiers_are_random_uuids() {
    let first = new_id();
    let second = new_id();
    assert_ne!(first, second);
    for id in [first, second] {
        assert_eq!(id.len(), 36);
        let parsed = uuid::Uuid::parse_str(&id).expect("uuid");
        assert_eq!(parsed.get_version_num(), 4);
        assert_eq!(parsed.to_string(), id);
    }
}

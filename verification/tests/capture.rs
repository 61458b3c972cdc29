use agentledger::bytes::{preview_bytes, preview_text};
use agentledger::capture::{
    begin, eval_error, eval_record, launch_error, repo_error, shell_command, Accepted,
    CaptureRequest, CommandOutcome, ProxyRunConfig,
};
use agentledger::clock::{now_or_epoch, now_rfc3339, time_or_epoch, time_or_error};
use agentledger::commands::{
    agent_list, failure, provider_list, proxy_run_config, replay_error, root_or_default,
};
use agentledger::error::LedgerError;
use agentledger::git::{git_output, git_snapshot, is_ledger_artifact_status, status_is_dirty};
use agentledger::layout::init;
use agentledger::record::{GitSnapshot, RunRecord};

fn request(allow_dirty: bool, proxy: Option<ProxyRunConfig>) -> CaptureRequest {
    CaptureRequest {
        task: "smoke".to_string(),
        agent: "custom".to_string(),
        command: vec!["echo".to_string(), "ok".to_string()],
        eval_commands: vec!["true".to_string()],
        allow_dirty,
        proxy,
    }
}

fn proxy(api_key_env: Option<&str>, fail_on_llm_error: bool) -> Option<ProxyRunConfig> {
    Some(ProxyRunConfig {
        bind: "127.0.0.1:0".to_string(),
        upstream: "http://127.0.0.1:4141/v1".to_string(),
        api_key_env: api_key_env.map(str::to_string),
        record_bodies: false,
        fail_on_llm_error,
    })
}

fn git(dirty: bool) -> GitSnapshot {
    GitSnapshot {
        is_git_repo: true,
        base_commit: Some("abc".to_string()),
        dirty_before: dirty,
        dirty_after: dirty,
        diffstat: None,
    }
}

fn accepted(request: CaptureRequest, dirty: bool) -> Accepted {
    begin(request)
        .expect("command")
        .accept_as("/repo".to_string(), false, git(dirty), "run-1".to_string())
        .map_err(|err| err.message())
        .expect("clean")
}

fn ran(success: bool) -> CommandOutcome {
    CommandOutcome {
        success,
        exit_code: if success { Some(0) } else { None },
        stdout: b"bonjour\n".to_vec(),
        stderr: b"oops \xff".to_vec(),
        duration_ms: 42,
    }
}

fn finish(request: CaptureRequest, success: bool, eval: bool, answers: &[u16]) -> RunRecord {
    let url = request.proxy.as_ref().map(|_| "http://127.0.0.1:9/v1".to_string());
    let (running, _) = accepted(request, true).launch(url, true, "T0".to_string());
    let evals = running.eval_commands().iter().map(|_| ran(eval)).collect::<Vec<_>>();
    let after = GitSnapshot {
        diffstat: Some(" 1 file changed".to_string()),
        base_commit: Some("other".to_string()),
        ..git(false)
    };
    running.finish(&ran(success), "T1".to_string(), after, &evals, &answers.to_vec())
}

#[test]
fn ledger_artifacts_are_ignored_in_git_status() {
    assert!(is_ledger_artifact_status("?? AgentLedger.toml"));
    assert!(is_ledger_artifact_status("?? .agentledger/"));
    assert!(is_ledger_artifact_status(
        " M .agentledger/runs/x/stdout.txt"
    ));
    assert!(!is_ledger_artifact_status(" M src/main.rs"));
}

#[test]
fn preview_bytes_truncates_long_output() {
    assert_eq!(preview_bytes(b"short"), "short");
    let long = "x".repeat(3000);
    let preview = preview_bytes(long.as_bytes());
    assert!(preview.ends_with("[truncated]"));
    assert!(preview.chars().count() < 2100);
}

#[test]
fn preview_counts_characters() {
    let full = "é".repeat(2000);
    assert_eq!(preview_text(&full), full);
    let over = "é".repeat(2001);
    assert_eq!(preview_text(&over), format!("{full}\n[truncated]"));
    assert_eq!(preview_bytes(b"a\xffb"), "a\u{fffd}b");
}

#[test]
fn empty_command_is_refused() {
    let mut empty = request(true, None);
    empty.command.clear();
    assert_eq!(
        begin(empty).err(),
        Some(LedgerError::Config("run command cannot be empty".to_string()))
    );
    assert_eq!(
        begin(request(true, None)).expect("command").command().len(),
        2
    );
    assert_eq!(
        repo_error("gone").message(),
        "configuration error: cannot resolve repo path: gone"
    );
}

#[test]
fn dirty_repository_is_refused_unless_allowed() {
    let refused = begin(request(false, None))
        .expect("command")
        .accept("/repo".to_string(), false, git(true));
    assert_eq!(
        refused.err().expect("dirty").message(),
        "capture error: repository is dirty; commit changes or pass --allow-dirty"
    );
    let allowed = begin(request(true, None))
        .expect("command")
        .accept("/repo".to_string(), false, git(true));
    assert_eq!(allowed.ok().expect("allowed").id().len(), 36);
    let clean = begin(request(false, None))
        .expect("command")
        .accept("/repo".to_string(), false, git(false));
    assert!(clean.is_ok());
}

#[test]
fn launched_command_knows_its_run() {
    let accepted = accepted(request(false, None), false);
    assert_eq!(accepted.output_dir(), "/repo/.agentledger/runs/run-1");
    assert!(accepted.proxy().is_none());
    let (running, launch) = accepted.launch(None, false, "T0".to_string());
    assert_eq!(launch.command, vec!["echo", "ok"]);
    assert_eq!(launch.dir, "/repo");
    let pair = |name: &str, value: &str| (name.to_string(), value.to_string());
    assert_eq!(
        launch.env,
        vec![
            pair("AGENTLEDGER_RUN_ID", "run-1"),
            pair("AGENTLEDGER_ROOT", "/repo/.agentledger"),
            pair("AGENTLEDGER_PROXY_RUN_HEADER", "x-agentledger-run-id: run-1"),
        ]
    );
    assert_eq!(running.stdout_path(), "/repo/.agentledger/runs/run-1/stdout.txt");
    assert_eq!(running.stderr_path(), "/repo/.agentledger/runs/run-1/stderr.txt");
    assert_eq!(running.eval_commands(), &vec!["true".to_string()]);
}

#[test]
fn launched_command_finds_the_proxy() {
    let url = || Some("http://127.0.0.1:9/v1".to_string());
    let names = |api_key_env: Option<&str>, key_set: bool| {
        let accepted = accepted(request(false, proxy(api_key_env, false)), false);
        let (_, launch) = accepted.launch(url(), key_set, "T".to_string());
        launch.env[3..].to_vec()
    };
    let pair = |name: &str, value: &str| (name.to_string(), value.to_string());
    let mut expected = vec![
        pair("AGENTLEDGER_PROXY_URL", "http://127.0.0.1:9/v1"),
        pair("OPENAI_BASE_URL", "http://127.0.0.1:9/v1"),
        pair("OPENAI_API_BASE", "http://127.0.0.1:9/v1"),
    ];
    assert_eq!(names(None, true), expected);
    expected.push(pair("OPENAI_API_KEY", "agentledger-proxy"));
    assert_eq!(names(None, false), expected);
    assert_eq!(names(Some("KEY"), true), expected);
}

#[test]
fn record_tells_what_the_run_did() {
    let mut asked = request(true, proxy(None, false));
    asked.eval_commands.push("exit 0".to_string());
    let record = finish(asked, true, true, &[200, 400, 399, 502]);
    assert_eq!(record.id, "run-1");
    assert_eq!(record.task, "smoke");
    assert_eq!(record.agent, "custom");
    assert_eq!(record.command, vec!["echo", "ok"]);
    assert_eq!(record.repo, "/repo");
    assert_eq!(record.started_at, "T0");
    assert_eq!(record.ended_at, "T1");
    assert_eq!(record.duration_ms, 42);
    assert_eq!(record.exit_code, Some(0));
    assert_eq!(record.status, "passed");
    assert_eq!(record.source_precision, "observed");
    assert_eq!(record.stdout_preview, "bonjour\n");
    assert_eq!(record.stderr_preview, "oops \u{fffd}");
    assert_eq!(record.git.base_commit.as_deref(), Some("abc"));
    assert!(record.git.dirty_before);
    assert!(!record.git.dirty_after);
    assert_eq!(record.git.diffstat.as_deref(), Some(" 1 file changed"));
    let commands = record.evals.iter().map(|eval| eval.command.as_str()).collect::<Vec<_>>();
    assert_eq!(commands, vec!["true", "exit 0"]);
    assert_eq!(record.evals[1].status, "passed");
    assert_eq!(record.metrics.llm_metrics_precision, "unknown");
    assert_eq!(record.metrics.token_total, None);
    assert_eq!(record.llm_error_calls, 2);
}

#[test]
fn run_fails_with_its_command_its_evals_or_its_calls() {
    assert_eq!(finish(request(true, None), false, true, &[]).status, "failed");
    assert_eq!(finish(request(true, None), true, false, &[]).status, "failed");
    assert_eq!(finish(request(true, None), true, true, &[]).status, "passed");
    assert_eq!(finish(request(true, proxy(None, false)), true, true, &[429]).status, "passed");
    assert_eq!(finish(request(true, proxy(None, true)), true, true, &[429]).status, "failed");
    assert_eq!(finish(request(true, proxy(None, true)), true, true, &[200]).status, "passed");
    assert_eq!(finish(request(true, None), true, true, &[500]).llm_error_calls, 0);
    assert_eq!(finish(request(true, proxy(None, true)), true, true, &[]).llm_error_calls, 0);
}

#[test]
fn eval_is_recorded_with_its_output() {
    let eval = eval_record("pytest -q".to_string(), &ran(false));
    assert_eq!(eval.command, "pytest -q");
    assert_eq!(eval.exit_code, None);
    assert_eq!(eval.duration_ms, 42);
    assert_eq!(eval.status, "failed");
    assert_eq!(eval.stdout_preview, "bonjour\n");
    assert_eq!(eval.stderr_preview, "oops \u{fffd}");
    assert_eq!(eval_record(String::new(), &ran(true)).status, "passed");
}

#[test]
fn evals_run_in_the_shell() {
    assert_eq!(shell_command("exit 0", false), vec!["sh", "-lc", "exit 0"]);
    assert_eq!(shell_command("exit 0", true), vec!["cmd", "/C", "exit 0"]);
}

#[test]
fn failed_starts_are_told() {
    let command = vec!["no \"such\"".to_string(), "x".to_string()];
    assert_eq!(
        launch_error(&command, "not found").message(),
        "capture error: failed to run [\"no \\\"such\\\"\", \"x\"]: not found"
    );
    assert_eq!(
        eval_error("pytest", "not found").message(),
        "capture error: failed to run eval 'pytest': not found"
    );
}

#[test]
fn repository_is_read_from_the_outputs_of_git() {
    let some = |text: &str| Some(text.to_string());
    let snapshot = git_snapshot(
        &some("true\n"),
        &some("abc\n"),
        &some("?? AgentLedger.toml\n M src/main.rs\n"),
        some(" stat"),
        true,
    );
    assert!(snapshot.is_git_repo);
    assert_eq!(snapshot.base_commit.as_deref(), Some("abc"));
    assert!(snapshot.dirty_before);
    assert!(snapshot.dirty_after);
    assert_eq!(snapshot.diffstat.as_deref(), Some(" stat"));

    let before = git_snapshot(&some("true"), &None, &some("?? .agentledger/\n"), some("x"), false);
    assert!(!before.dirty_before);
    assert_eq!(before.base_commit, None);
    assert_eq!(before.diffstat, None);

    let outside = git_snapshot(&some("false\n"), &some("abc"), &some(" M x\n"), some("x"), true);
    assert!(!outside.is_git_repo);
    assert!(!outside.dirty_before);
    assert_eq!(outside.base_commit, None);

    assert!(!status_is_dirty(""));
    assert!(status_is_dirty("x"));
    assert!(status_is_dirty("éé.agentledger/"));
    assert!(!status_is_dirty("?? .agentledger/é\r\n"));
}

#[test]
fn failed_git_tells_its_error() {
    assert_eq!(git_output(true, b"a\xff", b"e"), Ok("a\u{fffd}".to_string()));
    assert_eq!(
        git_output(false, b"o", b"fatal"),
        Err(LedgerError::Capture("fatal".to_string()))
    );
}

#[test]
fn ledger_is_set_up_without_overwriting() {
    let fresh = init("/p", false, false, false);
    assert_eq!(fresh.ledger_dir, "/p/.agentledger");
    assert_eq!(fresh.runs_dir, "/p/.agentledger/runs");
    assert_eq!(fresh.new_config.as_deref(), Some("/p/AgentLedger.toml"));
    assert_eq!(fresh.new_events.as_deref(), Some("/p/.agentledger/events.ndjson"));
    assert_eq!(fresh.message, "Initialized AgentLedger at /p/.agentledger");
    let again = init("/p", true, true, false);
    assert_eq!(again.new_config, None);
    assert_eq!(again.new_events, None);
}

#[test]
fn clock_shows_utc() {
    for text in [now_or_epoch(), now_rfc3339().map_err(|err| err.message()).expect("time")] {
        assert!(text.ends_with('Z'));
        assert_eq!(&text[4..5], "-");
        assert_eq!(&text[10..11], "T");
        assert!(text[0..4].parse::<u32>().expect("year") >= 2024);
    }
    assert_eq!(time_or_epoch(None), "1970-01-01T00:00:00Z");
    assert_eq!(time_or_epoch(Some("T".to_string())), "T");
    assert_eq!(
        time_or_error(Err("no clock".to_string())),
        Err(LedgerError::Storage("no clock".to_string()))
    );
    assert_eq!(time_or_error(Ok("T".to_string())), Ok("T".to_string()));
}

#[test]
fn commands_have_their_defaults() {
    assert_eq!(root_or_default(None), ".");
    assert_eq!(root_or_default(Some("/p".to_string())), "/p");
    assert_eq!(proxy_run_config(None, None, None, Some(true), Some(true)), None);
    let config = proxy_run_config(Some("u".to_string()), None, None, None, None).expect("proxy");
    assert_eq!(config.bind, "127.0.0.1:0");
    assert_eq!(config.upstream, "u");
    assert!(!config.record_bodies);
    assert!(!config.fail_on_llm_error);
    let config = proxy_run_config(
        Some("u".to_string()),
        Some("b".to_string()),
        Some("K".to_string()),
        Some(true),
        Some(true),
    )
    .expect("proxy");
    assert_eq!(config.bind, "b");
    assert_eq!(config.api_key_env.as_deref(), Some("K"));
    assert!(config.record_bodies);
    assert!(config.fail_on_llm_error);
}

#[test]
fn commands_tell_what_they_cannot_do() {
    let err = replay_error("run-1", "rerun");
    assert_eq!(
        failure(&err),
        (
            "error: unsupported operation: replay mode 'rerun' for run 'run-1' is planned after proxy capture"
                .to_string(),
            1
        )
    );
    assert_eq!(provider_list().lines().count(), 5);
    assert_eq!(agent_list(), "codex\nclaude-code\nopencode\ncustom");
}

#[test]
fn paths_of_a_run_are_written_as_the_system_writes_them() {
    let accepted = begin(request(true, None))
        .expect("command")
        .accept_as(r"C:\repo".to_string(), true, git(false), "run-1".to_string())
        .expect("clean");
    assert_eq!(accepted.output_dir(), r"C:\repo\.agentledger\runs\run-1");
    let (running, launch) = accepted.launch(None, true, "T0".to_string());
    assert_eq!(launch.dir, r"C:\repo");
    assert_eq!(launch.env[1].1, r"C:\repo\.agentledger");
    assert_eq!(running.stdout_path(), r"C:\repo\.agentledger\runs\run-1\stdout.txt");
    assert_eq!(running.stderr_path(), r"C:\repo\.agentledger\runs\run-1\stderr.txt");

    let plan = init("p", false, true, true);
    assert_eq!(plan.new_config.as_deref(), Some(r"p\AgentLedger.toml"));
    assert_eq!(plan.message, r"Initialized AgentLedger at p\.agentledger");
}

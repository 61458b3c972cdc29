use agentledger::bench::{
    bench_command, parse_bench_matrix, read_error, Bench, BenchAgent, BenchMatrix, BenchTask,
    MatrixDoc, ProviderDoc, TaskDoc,
};
use agentledger::error::LedgerError;
use agentledger::record::{GitSnapshot, RunMetrics, RunRecord};

fn text(table: &toml::Table, key: &str) -> Option<String> {
    table.get(key).and_then(|value| value.as_str()).map(str::to_string)
}

fn texts(table: &toml::Table, key: &str) -> Option<Vec<String>> {
    table.get(key).and_then(|value| value.as_array()).map(|list| {
        list.iter().map(|item| item.as_str().expect("text").to_string()).collect()
    })
}

fn tables(table: &toml::Table, key: &str) -> Option<Vec<toml::Table>> {
    table.get(key).and_then(|value| value.as_array()).map(|list| {
        list.iter().map(|item| item.as_table().expect("table").clone()).collect()
    })
}

/// What a TOML text says of a matrix.
fn read(raw: &str) -> Result<MatrixDoc, String> {
    let table = raw.parse::<toml::Table>().map_err(|err| err.to_string())?;
    Ok(MatrixDoc {
        repeats: table.get("repeats").and_then(|value| value.as_integer()).map(|n| n as u32),
        allow_dirty: table.get("allow_dirty").and_then(|value| value.as_bool()),
        fail_on_llm_error: table.get("fail_on_llm_error").and_then(|value| value.as_bool()),
        tasks: tables(&table, "tasks")
            .unwrap_or_default()
            .iter()
            .map(|task| TaskDoc {
                name: text(task, "name").expect("name"),
                prompt: text(task, "prompt"),
                evals: texts(task, "evals"),
            })
            .collect(),
        agents: tables(&table, "agents").map(|list| {
            list.iter()
                .map(|agent| BenchAgent {
                    name: text(agent, "name").expect("name"),
                    command: texts(agent, "command").expect("command"),
                })
                .collect()
        }),
        providers: tables(&table, "providers").map(|list| {
            list.iter()
                .map(|provider| ProviderDoc {
                    name: text(provider, "name").expect("name"),
                    upstream: text(provider, "upstream").expect("upstream"),
                    api_key_env: text(provider, "api_key_env"),
                    bind: text(provider, "bind"),
                    record_bodies: provider.get("record_bodies").and_then(|value| value.as_bool()),
                })
                .collect()
        }),
    })
}

fn parse(raw: &str) -> Result<BenchMatrix, LedgerError> {
    parse_bench_matrix(read(raw))
}

fn record(id: &str, status: &str) -> RunRecord {
    RunRecord {
        id: id.to_string(),
        task: String::new(),
        agent: String::new(),
        command: vec![],
        repo: String::new(),
        started_at: String::new(),
        ended_at: String::new(),
        duration_ms: 7,
        exit_code: Some(0),
        status: status.to_string(),
        source_precision: String::new(),
        stdout_path: String::new(),
        stderr_path: String::new(),
        stdout_preview: String::new(),
        stderr_preview: String::new(),
        git: GitSnapshot {
            is_git_repo: false,
            base_commit: None,
            dirty_before: false,
            dirty_after: false,
            diffstat: None,
        },
        evals: vec![],
        metrics: RunMetrics::default(),
        llm_error_calls: 0,
    }
}

const MATRIX: &str = r#"
repeats = 2
allow_dirty = true
fail_on_llm_error = true

[[tasks]]
name = "greet"
prompt = "bonjour"
evals = ["test -f bench.toml"]

[[tasks]]
name = "date"

[[agents]]
name = "echo"
command = ["sh", "-c", "echo {prompt} depuis {task}"]

[[agents]]
name = "cat"
command = ["cat"]

[[providers]]
name = "p1"
upstream = "http://127.0.0.1:1/v1"
api_key_env = "KEY"
record_bodies = true

[[providers]]
name = "p2"
upstream = "http://127.0.0.1:2/v1"
bind = "127.0.0.1:7"

[[providers]]
name = "p3"
upstream = "http://127.0.0.1:3/v1"
"#;

#[test]
fn bench_matrix_parses_with_defaults() {
    let matrix = parse(
        r#"
[[tasks]]
name = "smoke"
prompt = "say ok"
evals = ["true"]

[[agents]]
name = "custom"
command = ["sh", "-c", "echo {prompt} for {task}"]

[[providers]]
name = "ollama"
upstream = "http://127.0.0.1:11434/v1"
"#,
    )
    .expect("parse matrix");

    assert_eq!(matrix.repeats, 1);
    assert!(!matrix.allow_dirty);
    assert_eq!(matrix.providers[0].bind, "127.0.0.1:0");
    assert!(!matrix.providers[0].record_bodies);

    let command = bench_command(&matrix.agents[0].command, &matrix.tasks[0]);
    assert_eq!(command[2], "echo say ok for smoke");
}

#[test]
fn bench_matrix_rejects_incomplete_definitions() {
    let missing_agents = parse(
        r#"
[[tasks]]
name = "smoke"
"#,
    );
    assert!(matches!(missing_agents, Err(LedgerError::Config(_))));

    let empty_command = parse(
        r#"
[[tasks]]
name = "smoke"

[[agents]]
name = "custom"
command = []
"#,
    );
    assert!(matches!(empty_command, Err(LedgerError::Config(_))));
}

#[test]
fn bench_matrix_tells_what_is_missing() {
    let message = |raw: &str| parse(raw).expect_err("incomplete").message();
    assert_eq!(
        message("tasks = []\nagents = []"),
        "configuration error: bench matrix needs at least one [[tasks]] entry"
    );
    assert_eq!(
        message("[[tasks]]\nname = \"t\""),
        "configuration error: bench matrix needs at least one [[agents]] entry"
    );
    assert_eq!(
        message("[[tasks]]\nname='t'\n[[agents]]\nname='a'\ncommand=['x']\n[[agents]]\nname='b'\ncommand=[]"),
        "configuration error: bench agent 'b' has an empty command"
    );
    let invalid = parse_bench_matrix(Err("bad".to_string())).expect_err("invalid");
    assert_eq!(invalid.message(), "configuration error: invalid bench matrix: bad");
    assert_eq!(
        read_error("m.toml", "gone").message(),
        "configuration error: cannot read bench matrix m.toml: gone"
    );
}

#[test]
fn bench_placeholders_are_filled_in_order() {
    let task = BenchTask {
        name: "n{prompt}".to_string(),
        prompt: "p {task}".to_string(),
        evals: vec![],
    };
    let template = ["{prompt}{prompt}", "{task}", "{pro{task}mpt}", "plain"].map(str::to_string);
    assert_eq!(
        bench_command(&template.to_vec(), &task),
        vec!["p n{prompt}p n{prompt}", "n{prompt}", "{pron{prompt}mpt}", "plain"]
    );
}

#[test]
fn bench_runs_every_combination_in_order() {
    let matrix = parse(MATRIX).expect("matrix");
    let mut bench = Bench::begin(matrix, None).expect("tasks");
    let mut made = Vec::new();
    while let Some(run) = bench.next_run() {
        made.push((run.request.task.clone(), run.request.agent.clone(), run.repeat));
        let outcome = if made.len() == 3 {
            Err(LedgerError::Capture("broken".to_string()))
        } else {
            let status = if made.len() % 2 == 0 { "passed" } else { "failed" };
            Ok(record(&format!("run-{}", made.len()), status))
        };
        bench = bench.record(outcome);
    }
    let mut expected = Vec::new();
    for task in ["greet", "date"] {
        for agent in ["echo", "cat"] {
            for provider in ["p1", "p2", "p3"] {
                for repeat in [1, 2] {
                    expected.push((task.to_string(), format!("{agent}@{provider}"), repeat));
                }
            }
        }
    }
    assert_eq!(made, expected);

    let report = bench.report("bench.toml".to_string());
    assert_eq!(report.schema_version, 1);
    assert_eq!(report.matrix, "bench.toml");
    assert_eq!(report.cell_count, 24);
    assert_eq!(report.passed, 12);
    assert_eq!(report.failed, 12);
    assert_eq!(report.cells.len(), 24);
    let broken = &report.cells[2];
    assert_eq!(broken.provider.as_deref(), Some("p2"));
    assert_eq!(broken.run_id, None);
    assert_eq!(broken.status, "error");
    assert_eq!(broken.duration_ms, None);
    assert_eq!(broken.error.as_deref(), Some("capture error: broken"));
    let next = &report.cells[3];
    assert_eq!(next.run_id.as_deref(), Some("run-4"));
    assert_eq!(next.status, "passed");
    assert_eq!(next.duration_ms, Some(7));
    assert_eq!(next.error, None);
}

#[test]
fn bench_run_asks_for_its_capture() {
    let bench = Bench::begin(parse(MATRIX).expect("matrix"), Some("greet")).expect("task");
    let run = bench.next_run().expect("run");
    assert_eq!(run.progress(), "bench: task=greet agent=echo@p1 repeat=1/2");
    assert_eq!(run.request.command, vec!["sh", "-c", "echo bonjour depuis greet"]);
    assert_eq!(run.request.eval_commands, vec!["test -f bench.toml"]);
    assert!(run.request.allow_dirty);
    let proxy = run.request.proxy.expect("proxy");
    assert_eq!(proxy.bind, "127.0.0.1:0");
    assert_eq!(proxy.upstream, "http://127.0.0.1:1/v1");
    assert_eq!(proxy.api_key_env.as_deref(), Some("KEY"));
    assert!(proxy.record_bodies);
    assert!(proxy.fail_on_llm_error);
}

#[test]
fn bench_without_providers_runs_without_a_proxy() {
    let mut matrix = parse(MATRIX).expect("matrix");
    matrix.providers.clear();
    matrix.agents.truncate(1);
    matrix.repeats = 0;
    let mut bench = Bench::begin(matrix, Some("date")).expect("task");
    let run = bench.next_run().expect("run");
    assert_eq!(run.request.agent, "echo");
    assert_eq!(run.request.command[2], "echo  depuis date");
    assert!(run.request.proxy.is_none());
    assert_eq!((run.repeat, run.repeats), (1, 1));
    bench = bench.record(Ok(record("r", "passed")));
    assert!(bench.next_run().is_none());
    let report = bench.report(String::new());
    assert_eq!(report.cells[0].provider, None);
    assert_eq!((report.cell_count, report.passed, report.failed), (1, 1, 0));
}

#[test]
fn bench_filter_must_match_a_task() {
    let refused = Bench::begin(parse(MATRIX).expect("matrix"), Some("nope")).err();
    assert_eq!(
        refused.expect("no task").message(),
        "configuration error: no bench task matches filter 'nope'"
    );
    let mut matrix = parse(MATRIX).expect("matrix");
    matrix.agents.clear();
    assert!(Bench::begin(matrix, None).ok().expect("tasks").next_run().is_none());
}

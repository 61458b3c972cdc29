use agentledger::compare::compare;
use agentledger::metrics::{
    add_amount, add_u64, can_add_u64, load_llm_metric_aggregates, merge_run_metrics, min_u128,
    LlmCallLine, LlmCallLineMetrics, LlmMetricAggregate,
};
use agentledger::record::{eval_status, Amount, EvalRecord, GitSnapshot, RunMetrics, RunRecord};

/// What an amount comes to.
fn value(amount: &Option<Amount>) -> Option<f64> {
    amount.as_ref().map(|amount| match amount {
        Amount::Literal(text) => text.parse().expect("number"),
        Amount::Sum(texts) => texts
            .iter()
            .map(|text| text.parse::<f64>().expect("number"))
            .fold(0.0, |sum, x| sum + x),
        Amount::PerSecond { count, duration_ms } => {
            *count as f64 / (*duration_ms as f64 / 1000.0)
        }
    })
}

fn call(
    run_id: Option<&str>,
    duration_ms: u128,
    tokens: (Option<u64>, Option<u64>, Option<u64>),
    cost_usd: Option<&str>,
    ttft_ms: Option<u128>,
) -> LlmCallLine {
    LlmCallLine {
        run_id: run_id.map(str::to_string),
        duration_ms: Some(duration_ms),
        metrics: LlmCallLineMetrics {
            input_tokens: tokens.0,
            output_tokens: tokens.1,
            total_tokens: tokens.2,
            cost_usd: cost_usd.map(str::to_string),
            ttft_ms,
        },
    }
}

fn run(id: &str, task: &str) -> RunRecord {
    RunRecord {
        id: id.to_string(),
        task: task.to_string(),
        agent: "a".to_string(),
        command: vec!["true".to_string()],
        repo: "/repo".to_string(),
        started_at: "2026-01-01T00:00:00Z".to_string(),
        ended_at: "2026-01-01T00:00:01Z".to_string(),
        duration_ms: 1000,
        exit_code: Some(0),
        status: "passed".to_string(),
        source_precision: "observed".to_string(),
        stdout_path: String::new(),
        stderr_path: String::new(),
        stdout_preview: String::new(),
        stderr_preview: String::new(),
        git: GitSnapshot {
            is_git_repo: false,
            base_commit: None,
            dirty_before: false,
            dirty_after: false,
            diffstat: None,
        },
        evals: vec![],
        metrics: RunMetrics::unknown("unknown"),
        llm_error_calls: 0,
    }
}

fn eval(status: &str) -> EvalRecord {
    EvalRecord {
        command: "true".to_string(),
        exit_code: Some(0),
        duration_ms: 1,
        status: status.to_string(),
        stdout_preview: String::new(),
        stderr_preview: String::new(),
    }
}

#[test]
fn add_helpers_accumulate_optional_values() {
    let mut target = None;
    add_u64(&mut target, None);
    assert_eq!(target, None);
    add_u64(&mut target, Some(3));
    add_u64(&mut target, Some(4));
    assert_eq!(target, Some(7));

    let mut cost = None;
    add_amount(&mut cost, Some("0.5".to_string()));
    add_amount(&mut cost, Some("0.25".to_string()));
    assert_eq!(value(&cost), Some(0.75));
    add_amount(&mut cost, None);
    assert_eq!(value(&cost), Some(0.75));

    let mut known = Some(Amount::Literal("2.5".to_string()));
    add_amount(&mut known, Some("0.25".to_string()));
    assert_eq!(value(&known), Some(2.75));

    assert_eq!(min_u128(None, None), None);
    assert_eq!(min_u128(Some(5), None), Some(5));
    assert_eq!(min_u128(None, Some(9)), Some(9));
    assert_eq!(min_u128(Some(5), Some(9)), Some(5));
}

#[test]
fn llm_aggregates_sum_tokens_and_keep_min_ttft() {
    let lines = vec![
        call(Some("run-1"), 1000, (Some(7), Some(3), Some(10)), Some("0.001"), Some(200)),
        call(Some("run-1"), 1000, (Some(5), Some(5), Some(10)), Some("0.002"), Some(120)),
        call(None, 50, (None, Some(99), None), None, None),
    ];
    let aggregates = load_llm_metric_aggregates(&lines).expect("aggregate");
    assert_eq!(aggregates.len(), 1);
    assert_eq!(aggregates[0].run_id, "run-1");
    let aggregate = &aggregates[0].aggregate;
    assert_eq!(aggregate.call_count, 2);
    assert_eq!(aggregate.metrics.token_input, Some(12));
    assert_eq!(aggregate.metrics.token_output, Some(8));
    assert_eq!(aggregate.metrics.token_total, Some(20));
    assert_eq!(value(&aggregate.metrics.cost_usd), Some(0.003));
    assert_eq!(aggregate.metrics.ttft_ms, Some(120));
    assert_eq!(value(&aggregate.metrics.output_tokens_per_second), Some(4.0));
}

#[test]
fn merge_run_metrics_prefers_aggregate_values() {
    let base = RunMetrics {
        llm_metrics_precision: "unknown".to_string(),
        ..RunMetrics::default()
    };
    assert_eq!(
        merge_run_metrics(&base, None).llm_metrics_precision,
        "unknown"
    );

    let aggregate = LlmMetricAggregate {
        call_count: 2,
        duration_ms: 1000,
        metrics: RunMetrics {
            llm_metrics_precision: "exact".to_string(),
            token_input: Some(12),
            token_output: Some(8),
            token_total: Some(20),
            cost_usd: Some(Amount::Literal("0.003".to_string())),
            ttft_ms: Some(120),
            output_tokens_per_second: Some(Amount::PerSecond { count: 8, duration_ms: 1000 }),
            ..RunMetrics::default()
        },
    };
    let merged = merge_run_metrics(&base, Some(&aggregate));
    assert_eq!(merged.llm_metrics_precision, "exact");
    assert_eq!(merged.token_total, Some(20));
    assert_eq!(merged.ttft_ms, Some(120));
    assert_eq!(value(&merged.output_tokens_per_second), Some(8.0));
}

#[test]
fn merged_metrics_keep_the_context_of_the_run() {
    let base = RunMetrics {
        context_window: Some(8192),
        context_used_ratio: Some(Amount::Literal("0.5".to_string())),
        token_input: Some(1),
        ..RunMetrics::default()
    };
    let aggregate = LlmMetricAggregate {
        call_count: 1,
        duration_ms: 0,
        metrics: RunMetrics::default(),
    };
    let merged = merge_run_metrics(&base, Some(&aggregate));
    assert_eq!(merged.context_window, Some(8192));
    assert_eq!(value(&merged.context_used_ratio), Some(0.5));
    assert_eq!(merged.token_input, None);
    assert_eq!(merge_run_metrics(&base, None), base);
}

#[test]
fn order_of_the_calls_does_not_count() {
    let first = call(Some("a"), 10, (Some(1), None, Some(4)), Some("0.5"), Some(9));
    let second = call(Some("b"), 20, (Some(2), Some(5), None), None, None);
    let third = call(Some("a"), 30, (None, Some(6), Some(7)), Some("0.25"), Some(3));
    let stray = call(None, 40, (Some(8), Some(8), Some(8)), Some("8"), Some(1));
    let f = vec![first.clone(), second.clone(), third.clone()];
    let g = vec![third, stray.clone(), second, first, stray];
    let mut m = load_llm_metric_aggregates(&f).expect("fits");
    let mut n = load_llm_metric_aggregates(&g).expect("fits");
    m.sort_by(|x, y| x.run_id.cmp(&y.run_id));
    n.sort_by(|x, y| x.run_id.cmp(&y.run_id));
    let ids = m.iter().map(|entry| entry.run_id.as_str()).collect::<Vec<_>>();
    assert_eq!(ids, vec!["a", "b"]);
    for (x, y) in m.iter().zip(&n) {
        assert_eq!(x.run_id, y.run_id);
        assert_eq!(x.aggregate.call_count, y.aggregate.call_count);
        assert_eq!(x.aggregate.metrics.token_input, y.aggregate.metrics.token_input);
        assert_eq!(x.aggregate.metrics.token_output, y.aggregate.metrics.token_output);
        assert_eq!(x.aggregate.metrics.token_total, y.aggregate.metrics.token_total);
        assert_eq!(x.aggregate.metrics.ttft_ms, y.aggregate.metrics.ttft_ms);
        assert_eq!(value(&x.aggregate.metrics.cost_usd), value(&y.aggregate.metrics.cost_usd));
    }
    assert_eq!(m[0].aggregate.metrics.ttft_ms, Some(3));
    assert_eq!(m[0].aggregate.metrics.token_total, Some(11));
    assert_eq!(m[1].aggregate.metrics.token_total, None);
}

#[test]
fn totals_that_do_not_fit_are_refused() {
    assert!(can_add_u64(&Some(u64::MAX - 1), Some(1)));
    assert!(!can_add_u64(&Some(u64::MAX), Some(1)));
    assert!(can_add_u64(&Some(u64::MAX), None));
    let lines = vec![
        call(Some("r"), 1, (Some(u64::MAX), None, None), None, None),
        call(Some("r"), 1, (Some(1), None, None), None, None),
    ];
    assert_eq!(load_llm_metric_aggregates(&lines), None);
    let lines = vec![
        call(Some("r"), 1, (Some(u64::MAX), None, None), None, None),
        call(Some("s"), 1, (Some(1), None, None), None, None),
    ];
    assert_eq!(load_llm_metric_aggregates(&lines).expect("fits").len(), 2);
}

#[test]
fn speed_needs_tokens_and_time() {
    let lines = vec![
        call(Some("no-time"), 0, (None, Some(4), None), None, None),
        call(Some("no-tokens"), 10, (Some(4), None, None), None, None),
        call(Some("both"), 500, (None, Some(4), None), None, None),
    ];
    let aggregates = load_llm_metric_aggregates(&lines).expect("aggregate");
    let speed = |id: &str| {
        let entry = aggregates.iter().find(|entry| entry.run_id == id).expect("entry");
        value(&entry.aggregate.metrics.output_tokens_per_second)
    };
    assert_eq!(speed("no-time"), None);
    assert_eq!(speed("no-tokens"), None);
    assert_eq!(speed("both"), Some(8.0));
}

#[test]
fn comparison_selects_a_task_and_sums_up_its_calls() {
    let mut second = run("run-2", "smoke");
    second.evals = vec![eval("passed"), eval("failed")];
    second.metrics.token_total = Some(1);
    let runs = vec![run("run-1", "smoke"), second, run("run-3", "other")];
    let lines = vec![
        call(Some("run-1"), 10, (None, None, Some(11)), Some("0.5"), None),
        call(Some("run-1"), 10, (None, None, Some(5)), None, None),
        call(Some("run-9"), 10, (None, None, Some(7)), None, None),
    ];
    let aggregates = load_llm_metric_aggregates(&lines).expect("aggregate");

    let report = compare(Some("smoke".to_string()), runs.clone(), &aggregates);
    assert_eq!(report.schema_version, 1);
    assert_eq!(report.task.as_deref(), Some("smoke"));
    assert_eq!(report.run_count, 2);
    let first = &report.runs[0];
    assert_eq!(first.id, "run-1");
    assert_eq!(first.eval_status, "not_run");
    assert_eq!(first.llm_call_count, 2);
    assert_eq!(first.token_total, Some(16));
    assert_eq!(value(&first.cost_usd), Some(0.5));
    assert_eq!(first.llm_metrics_precision, "exact");
    let second = &report.runs[1];
    assert_eq!(second.eval_status, "failed");
    assert_eq!(second.llm_call_count, 0);
    assert_eq!(second.token_total, Some(1));
    assert_eq!(second.cost_usd, None);
    assert_eq!(second.llm_metrics_precision, "unknown");

    let all = compare(None, runs.clone(), &aggregates);
    assert_eq!(all.run_count, 3);
    let ids = all.runs.iter().map(|run| run.id.as_str()).collect::<Vec<_>>();
    assert_eq!(ids, vec!["run-1", "run-2", "run-3"]);
    assert_eq!(compare(Some("absente".to_string()), runs, &aggregates).run_count, 0);
}

#[test]
fn evals_have_one_outcome() {
    assert_eq!(eval_status(&vec![]), "not_run");
    assert_eq!(eval_status(&vec![eval("passed"), eval("passed")]), "passed");
    assert_eq!(eval_status(&vec![eval("passed"), eval("error")]), "failed");
}

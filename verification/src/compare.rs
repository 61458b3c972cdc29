//! The comparison of runs.
use crate::metrics::{aggregates, describes, entry_index, find_entry, lemma_entry_index, merge_run_metrics, no_totals, totals, LlmCallLine, LlmMetricAggregate, RunAggregate};
use crate::record::{amount_view, eval_outcome, eval_status, every_eval_counts, Amount, AmountView, RunRecord, SCHEMA_VERSION};
use crate::text::view_option;
use vstd::prelude::*;

verus! {

/// One run in a comparison.
#[derive(Debug, Clone, PartialEq, Eq)]
pub struct RunSummary {
    pub id: String,
    pub task: String,
    pub agent: String,
    pub status: String,
    pub duration_ms: u128,
    pub exit_code: Option<i32>,
    pub eval_status: String,
    pub repo: String,
    pub started_at: String,
    pub cost_usd: Option<Amount>,
    pub token_total: Option<u64>,
    pub llm_metrics_precision: String,
    pub llm_call_count: u64,
}

/// A comparison of runs.
#[derive(Debug, Clone, PartialEq, Eq)]
pub struct CompareReport {
    pub schema_version: u32,
    pub task: Option<String>,
    pub run_count: usize,
    pub runs: Vec<RunSummary>,
}

/// Whether a run belongs to the task that is asked for; every run does where none is.
pub open spec fn is_of_task(run: RunRecord, task: Option<Seq<char>>) -> bool {
    task is None || run.task@ == task->0
}

/// The runs of the task that is asked for, in order.
pub open spec fn runs_of_task(runs: Seq<RunRecord>, task: Option<Seq<char>>) -> Seq<RunRecord>
    decreases runs.len(),
{
    if runs.len() == 0 {
        seq![]
    } else {
        let before = runs_of_task(runs.drop_last(), task);
        if is_of_task(runs.last(), task) {
            before.push(runs.last())
        } else {
            before
        }
    }
}

/// What the calls of a run add up to, where it has any.
pub open spec fn aggregate_for(list: Seq<RunAggregate>, run_id: Seq<char>) -> Option<
    LlmMetricAggregate,
> {
    if entry_index(list, run_id) < list.len() {
        Some(list[entry_index(list, run_id)].aggregate)
    } else {
        None
    }
}

/// Whether `s` sums up a run and what its calls add up to.
pub open spec fn sums_up(
    s: RunSummary,
    run: RunRecord,
    aggregate: Option<LlmMetricAggregate>,
) -> bool {
    let metrics = match aggregate {
        Some(a) => a.metrics,
        None => run.metrics,
    };
    &&& s.id == run.id
    &&& s.task == run.task
    &&& s.agent == run.agent
    &&& s.status == run.status
    &&& s.duration_ms == run.duration_ms
    &&& s.exit_code == run.exit_code
    &&& s.eval_status@ == eval_outcome(run.evals@)
    &&& s.repo == run.repo
    &&& s.started_at == run.started_at
    &&& amount_view(s.cost_usd) == amount_view(metrics.cost_usd)
    &&& s.token_total == metrics.token_total
    &&& s.llm_metrics_precision@ == (if aggregate is Some {
        "exact"@
    } else {
        run.metrics.llm_metrics_precision@
    })
    &&& s.llm_call_count == (match aggregate {
        Some(a) => a.call_count,
        None => 0,
    })
}

/// The summary of a run.
pub fn summarize(run: RunRecord, aggregate: Option<&LlmMetricAggregate>) -> (r: RunSummary)
    ensures
        sums_up(r, run, crate::metrics::referred(aggregate)),
{
    let metrics = merge_run_metrics(&run.metrics, aggregate);
    let evals = eval_status(&run.evals);
    RunSummary {
        id: run.id,
        task: run.task,
        agent: run.agent,
        status: run.status,
        duration_ms: run.duration_ms,
        exit_code: run.exit_code,
        eval_status: evals.to_owned(),
        repo: run.repo,
        started_at: run.started_at,
        cost_usd: metrics.cost_usd,
        token_total: metrics.token_total,
        llm_metrics_precision: metrics.llm_metrics_precision,
        llm_call_count: match aggregate {
            Some(a) => a.call_count,
            None => 0,
        },
    }
}

/// The comparison of the runs of a ledger, or of those of one task, in the order of the ledger.
pub fn compare(
    task: Option<String>,
    runs: Vec<RunRecord>,
    llm_aggregates: &Vec<RunAggregate>,
) -> (r: CompareReport)
    ensures
        r.schema_version == SCHEMA_VERSION,
        r.task == task,
        r.run_count == r.runs@.len(),
        r.runs@.len() == runs_of_task(runs@, view_option(task)).len(),
        forall|i: int|
            0 <= i < r.runs@.len() ==> sums_up(
                #[trigger] r.runs@[i],
                runs_of_task(runs@, view_option(task))[i],
                aggregate_for(
                    llm_aggregates@,
                    runs_of_task(runs@, view_option(task))[i].id@,
                ),
            ),
{
    let ghost all = runs@;
    let ghost wanted = view_option(task);
    let mut summaries: Vec<RunSummary> = Vec::new();
    for run in it: runs
        invariant
            it.seq() == all,
            wanted == view_option(task),
            ({
                let seen = runs_of_task(all.take(it.index() as int), wanted);
                &&& summaries@.len() == seen.len()
                &&& forall|i: int|
                    0 <= i < seen.len() ==> sums_up(
                        #[trigger] summaries@[i],
                        seen[i],
                        aggregate_for(llm_aggregates@, seen[i].id@),
                    )
            }),
    {
        let ghost next = all.take(it.index() + 1);
        assert(next.drop_last() =~= all.take(it.index() as int));
        assert(next.last() == run);
        let selected = match &task {
            Some(t) => *run.task.as_str() == *t.as_str(),
            None => true,
        };
        if selected {
            let aggregate = match find_entry(llm_aggregates, run.id.as_str()) {
                Some(i) => Some(&llm_aggregates[i].aggregate),
                None => None,
            };
            summaries.push(summarize(run, aggregate));
        }
    }
    assert(all.take(all.len() as int) =~= all);
    CompareReport {
        schema_version: SCHEMA_VERSION,
        task,
        run_count: summaries.len(),
        runs: summaries,
    }
}

/// The runs of a task are exactly those of the ledger that belong to it.
pub proof fn comparison_selects_by_task(runs: Seq<RunRecord>, task: Option<Seq<char>>)
    ensures
        runs_of_task(runs, task) == runs.filter(|run: RunRecord| is_of_task(run, task)),
        task is None ==> runs_of_task(runs, task) == runs,
    decreases runs.len(),
{
    reveal(Seq::filter);
    if runs.len() > 0 {
        comparison_selects_by_task(runs.drop_last(), task);
        if task is None {
            assert(runs =~= runs.drop_last().push(runs.last()));
        }
    } else {
        assert(runs =~= seq![]);
    }
}

/// A run without a recorded call keeps what was recorded of it, and every other run shows what
/// its calls add up to.
pub proof fn calls_decide_the_metrics(
    list: Seq<RunAggregate>,
    calls: Seq<LlmCallLine>,
    run: RunRecord,
    summary: RunSummary,
)
    requires
        describes(list, calls),
        sums_up(summary, run, aggregate_for(list, run.id@)),
    ensures
        summary.llm_call_count == totals(calls, run.id@).calls,
        totals(calls, run.id@).calls == 0 ==> {
            &&& summary.token_total == run.metrics.token_total
            &&& summary.llm_metrics_precision@ == run.metrics.llm_metrics_precision@
            &&& amount_view(summary.cost_usd) == amount_view(run.metrics.cost_usd)
        },
        totals(calls, run.id@).calls > 0 ==> {
            &&& summary.llm_metrics_precision@ == "exact"@
            &&& crate::metrics::nat_option(summary.token_total) == totals(calls, run.id@).total
            &&& amount_view(summary.cost_usd) == (if totals(calls, run.id@).costs.len() == 0 {
                None
            } else {
                Some(AmountView::Sum(totals(calls, run.id@).costs))
            })
        },
{
    lemma_entry_index(list, run.id@);
    let i = entry_index(list, run.id@);
    if i < list.len() {
        assert(aggregates(list[i].aggregate, totals(calls, run.id@)));
    } else {
        assert(totals(calls, run.id@) == no_totals());
    }
}

// ---------------------------------------------------------------------------
// What a comparison is

/// A comparison shows the runs with the name of the task that is asked for, each once and in the
/// order of the ledger, and every run where no task is asked for.
pub proof fn comparison_shows_the_runs_of_a_task(runs: Seq<RunRecord>, task: Seq<char>)
    ensures
        runs_of_task(runs, Some(task)) == runs.filter(|run: RunRecord| run.task@ == task),
        runs_of_task(runs, None) == runs,
    decreases runs.len(),
{
    reveal(Seq::filter);
    comparison_selects_by_task(runs, None);
    if runs.len() > 0 {
        comparison_shows_the_runs_of_a_task(runs.drop_last(), task);
    } else {
        assert(runs =~= seq![]);
    }
}

/// A run is summed up with what was loaded for its id, and without anything where nothing was.
pub proof fn run_is_summed_up_with_its_calls(list: Seq<RunAggregate>, run_id: Seq<char>, i: int)
    requires
        0 <= i <= list.len(),
        forall|j: int| 0 <= j < i ==> (#[trigger] list[j]).run_id@ != run_id,
        i < list.len() ==> list[i].run_id@ == run_id,
    ensures
        aggregate_for(list, run_id) == (if i < list.len() {
            Some(list[i].aggregate)
        } else {
            None
        }),
{
    lemma_entry_index(list, run_id);
    let k = entry_index(list, run_id);
    if k < i {
        assert(list[k].run_id@ != run_id);
    }
    if i < k {
        assert(list[i].run_id@ != run_id);
    }
}

/// A summary shows of a run what the ledger records, the word for its evals, and of its calls
/// their number, their tokens and their cost.
pub proof fn summary_shows_the_run(
    s: RunSummary,
    run: RunRecord,
    aggregate: Option<LlmMetricAggregate>,
)
    requires
        sums_up(s, run, aggregate),
    ensures
        s.id == run.id && s.task == run.task && s.agent == run.agent,
        s.status == run.status && s.duration_ms == run.duration_ms,
        s.exit_code == run.exit_code && s.repo == run.repo && s.started_at == run.started_at,
        run.evals@.len() == 0 ==> s.eval_status@ == "not_run"@,
        run.evals@.len() > 0 && (forall|i: int|
            0 <= i < run.evals@.len() ==> (#[trigger] run.evals@[i]).status@ == "passed"@)
            ==> s.eval_status@ == "passed"@,
        forall|i: int|
            0 <= i < run.evals@.len() && (#[trigger] run.evals@[i]).status@ != "passed"@
                ==> s.eval_status@ == "failed"@,
        match aggregate {
            Some(a) => {
                &&& s.llm_call_count == a.call_count
                &&& s.token_total == a.metrics.token_total
                &&& amount_view(s.cost_usd) == amount_view(a.metrics.cost_usd)
                &&& s.llm_metrics_precision@ == "exact"@
            },
            None => {
                &&& s.llm_call_count == 0
                &&& s.token_total == run.metrics.token_total
                &&& amount_view(s.cost_usd) == amount_view(run.metrics.cost_usd)
                &&& s.llm_metrics_precision@ == run.metrics.llm_metrics_precision@
            },
        },
{
    every_eval_counts(run.evals@);
}

} // verus!

//! What the ledger records of a run.
use vstd::prelude::*;

verus! {

/// The version that every record and report carries.
pub const SCHEMA_VERSION: u32 = 1;

/// An amount that is written as a decimal fraction, kept exactly.
#[derive(Debug, Clone, PartialEq, Eq)]
pub enum Amount {
    /// A number as a JSON text writes it.
    Literal(String),
    /// The sum of numbers, added from the first to the last.
    Sum(Vec<String>),
    /// A count per second over a time that is not zero.
    PerSecond { count: u64, duration_ms: u128 },
}

/// What an amount is.
pub enum AmountView {
    Literal(Seq<char>),
    Sum(Seq<Seq<char>>),
    PerSecond(u64, u128),
}

impl View for Amount {
    type V = AmountView;

    open spec fn view(&self) -> AmountView {
        match *self {
            Amount::Literal(text) => AmountView::Literal(text@),
            Amount::Sum(texts) => AmountView::Sum(crate::text::views(texts@)),
            Amount::PerSecond { count, duration_ms } => AmountView::PerSecond(count, duration_ms),
        }
    }
}

/// What an optional amount is.
pub open spec fn amount_view(amount: Option<Amount>) -> Option<AmountView> {
    match amount {
        Some(a) => Some(a@),
        None => None,
    }
}

/// The copy of an optional amount.
pub fn copy_amount(amount: &Option<Amount>) -> (r: Option<Amount>)
    ensures
        amount_view(r) == amount_view(*amount),
{
    match amount {
        Some(Amount::Literal(text)) => Some(Amount::Literal(text.clone())),
        Some(Amount::Sum(texts)) => Some(Amount::Sum(crate::text::copy_list(texts))),
        Some(Amount::PerSecond { count, duration_ms }) => Some(
            Amount::PerSecond { count: *count, duration_ms: *duration_ms },
        ),
        None => None,
    }
}

/// The state of the repository around a run.
#[derive(Debug, Clone, PartialEq, Eq)]
pub struct GitSnapshot {
    pub is_git_repo: bool,
    pub base_commit: Option<String>,
    pub dirty_before: bool,
    pub dirty_after: bool,
    pub diffstat: Option<String>,
}

/// One eval command and its outcome.
#[derive(Debug, Clone, PartialEq, Eq)]
pub struct EvalRecord {
    pub command: String,
    pub exit_code: Option<i32>,
    pub duration_ms: u128,
    pub status: String,
    pub stdout_preview: String,
    pub stderr_preview: String,
}

/// What is known of the LLM calls of a run.
#[derive(Debug, Clone, PartialEq, Eq)]
pub struct RunMetrics {
    pub llm_metrics_precision: String,
    pub token_input: Option<u64>,
    pub token_output: Option<u64>,
    pub token_total: Option<u64>,
    pub context_window: Option<u64>,
    pub context_used_ratio: Option<Amount>,
    pub cost_usd: Option<Amount>,
    pub ttft_ms: Option<u128>,
    pub output_tokens_per_second: Option<Amount>,
}

impl RunMetrics {
    /// Metrics that know nothing, with the given word on their precision.
    pub fn unknown(precision: &str) -> (r: RunMetrics)
        ensures
            r.llm_metrics_precision@ == precision@,
            r.knows_nothing(),
    {
        RunMetrics {
            llm_metrics_precision: precision.to_owned(),
            token_input: None,
            token_output: None,
            token_total: None,
            context_window: None,
            context_used_ratio: None,
            cost_usd: None,
            ttft_ms: None,
            output_tokens_per_second: None,
        }
    }

    /// Whether no metric is known.
    pub open spec fn knows_nothing(self) -> bool {
        &&& self.token_input is None
        &&& self.token_output is None
        &&& self.token_total is None
        &&& self.context_window is None
        &&& self.context_used_ratio is None
        &&& self.cost_usd is None
        &&& self.ttft_ms is None
        &&& self.output_tokens_per_second is None
    }
}

impl Default for RunMetrics {
    fn default() -> (r: RunMetrics)
        ensures
            r.llm_metrics_precision@.len() == 0,
            r.knows_nothing(),
    {
        let r = RunMetrics::unknown("");
        proof {
            reveal_strlit("");
        }
        r
    }
}

/// One run of a command.
#[derive(Debug, Clone, PartialEq, Eq)]
pub struct RunRecord {
    pub id: String,
    pub task: String,
    pub agent: String,
    pub command: Vec<String>,
    pub repo: String,
    pub started_at: String,
    pub ended_at: String,
    pub duration_ms: u128,
    pub exit_code: Option<i32>,
    pub status: String,
    pub source_precision: String,
    pub stdout_path: String,
    pub stderr_path: String,
    pub stdout_preview: String,
    pub stderr_preview: String,
    pub git: GitSnapshot,
    pub evals: Vec<EvalRecord>,
    pub metrics: RunMetrics,
    pub llm_error_calls: u64,
}

/// Whether every eval passed.
pub open spec fn all_passed(evals: Seq<EvalRecord>) -> bool {
    forall|i: int| 0 <= i < evals.len() ==> (#[trigger] evals[i]).status@ == "passed"@
}

/// Whether every eval passed.
pub fn evals_passed(evals: &Vec<EvalRecord>) -> (r: bool)
    ensures
        r == all_passed(evals@),
        r <==> forall|i: int| 0 <= i < evals@.len() ==> (#[trigger] evals@[i]).status@ == "passed"@,
{
    for i in 0..evals.len()
        invariant
            forall|j: int| 0 <= j < i ==> (#[trigger] evals@[j]).status@ == "passed"@,
    {
        if *evals[i].status.as_str() != *"passed" {
            return false;
        }
    }
    true
}

/// The word for an outcome.
pub open spec fn outcome(passed: bool) -> Seq<char> {
    if passed {
        "passed"@
    } else {
        "failed"@
    }
}

pub fn outcome_word(passed: bool) -> (r: String)
    ensures
        r@ == outcome(passed),
        r@ == (if passed {
            "passed"@
        } else {
            "failed"@
        }),
{
    if passed {
        "passed".to_owned()
    } else {
        "failed".to_owned()
    }
}

/// The word for the outcome of a list of evals.
pub open spec fn eval_outcome(evals: Seq<EvalRecord>) -> Seq<char> {
    if evals.len() == 0 {
        "not_run"@
    } else {
        outcome(all_passed(evals))
    }
}

/// The word for the outcome of a list of evals: `not_run` for none, `passed` where all passed,
/// else `failed`.
pub fn eval_status(evals: &Vec<EvalRecord>) -> (r: &'static str)
    ensures
        r@ == eval_outcome(evals@),
{
    if evals.len() == 0 {
        "not_run"
    } else if evals_passed(evals) {
        "passed"
    } else {
        "failed"
    }
}

/// A list of evals passed where there are some and every one of them passed, failed where one of
/// them did not, and was not run where there are none.
pub proof fn every_eval_counts(evals: Seq<EvalRecord>)
    ensures
        evals.len() == 0 ==> eval_outcome(evals) == "not_run"@,
        evals.len() > 0 && (forall|i: int|
            0 <= i < evals.len() ==> (#[trigger] evals[i]).status@ == "passed"@) ==> eval_outcome(
            evals,
        ) == "passed"@,
        forall|i: int|
            0 <= i < evals.len() && (#[trigger] evals[i]).status@ != "passed"@ ==> eval_outcome(
                evals,
            ) == "failed"@ && !all_passed(evals),
        all_passed(evals) <==> (forall|i: int|
            0 <= i < evals.len() ==> (#[trigger] evals[i]).status@ == "passed"@),
        outcome(true) == "passed"@,
        outcome(false) == "failed"@,
{
}

/// An amount is seen as what it is: a number, the numbers of a sum in order, or a count and a
/// time.
pub proof fn amounts_are_seen(text: String, texts: Vec<String>, count: u64, duration_ms: u128)
    ensures
        amount_view(None) is None,
        amount_view(Some(Amount::Literal(text))) == Some(AmountView::Literal(text@)),
        amount_view(Some(Amount::Sum(texts))) == Some(
            AmountView::Sum(texts@.map_values(|text: String| text@)),
        ),
        amount_view(Some(Amount::PerSecond { count, duration_ms })) == Some(
            AmountView::PerSecond(count, duration_ms),
        ),
{
}

/// Metrics that know nothing have no number at all.
pub proof fn nothing_is_known(m: RunMetrics)
    requires
        m.knows_nothing(),
    ensures
        m.token_input is None && m.token_output is None && m.token_total is None,
        m.context_window is None && m.context_used_ratio is None && m.cost_usd is None,
        m.ttft_ms is None && m.output_tokens_per_second is None,
{
}

} // verus!

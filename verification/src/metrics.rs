//! What the recorded LLM calls add up to.
use crate::record::{amount_view, copy_amount, Amount, AmountView, RunMetrics};
use crate::text::{view_option, views};
use vstd::prelude::*;

verus! {

/// What a recorded call says of its tokens, its cost and its first token.
#[derive(Debug, Clone, PartialEq, Eq)]
pub struct LlmCallLineMetrics {
    pub input_tokens: Option<u64>,
    pub output_tokens: Option<u64>,
    pub total_tokens: Option<u64>,
    pub cost_usd: Option<String>,
    pub ttft_ms: Option<u128>,
}

/// A recorded call, as far as it counts for its run.
#[derive(Debug, Clone, PartialEq, Eq)]
pub struct LlmCallLine {
    pub run_id: Option<String>,
    pub duration_ms: Option<u128>,
    pub metrics: LlmCallLineMetrics,
}

/// What the calls of one run add up to.
#[derive(Debug, Clone, PartialEq, Eq)]
pub struct LlmMetricAggregate {
    pub call_count: u64,
    pub duration_ms: u128,
    pub metrics: RunMetrics,
}

/// A run and what its calls add up to.
#[derive(Debug, Clone, PartialEq, Eq)]
pub struct RunAggregate {
    pub run_id: String,
    pub aggregate: LlmMetricAggregate,
}

// ---------------------------------------------------------------------------
// Optional values

/// The sum of a total that may not have begun and a value that may be missing.
pub open spec fn plus_option(target: Option<nat>, value: Option<u64>) -> Option<nat> {
    match value {
        Some(v) => Some(
            match target {
                Some(t) => t + v as nat,
                None => v as nat,
            },
        ),
        None => target,
    }
}

/// A total as a natural number.
pub open spec fn nat_option(value: Option<u64>) -> Option<nat> {
    match value {
        Some(v) => Some(v as nat),
        None => None,
    }
}

/// Whether a total fits 64 bits.
pub open spec fn fits_u64(value: Option<nat>) -> bool {
    match value {
        Some(v) => v <= u64::MAX,
        None => true,
    }
}

/// Adds a value, where there is one, to a total that begins with the first value.
pub fn add_u64(target: &mut Option<u64>, value: Option<u64>)
    requires
        fits_u64(plus_option(nat_option(*old(target)), value)),
    ensures
        nat_option(*final(target)) == plus_option(nat_option(*old(target)), value),
{
    if let Some(v) = value {
        let sum = match *target {
            Some(t) => t + v,
            None => v,
        };
        *target = Some(sum);
    }
}

/// Whether a value can be added to a total.
pub fn can_add_u64(target: &Option<u64>, value: Option<u64>) -> (r: bool)
    ensures
        r == fits_u64(plus_option(nat_option(*target), value)),
{
    match (*target, value) {
        (Some(t), Some(v)) => t.checked_add(v).is_some(),
        _ => true,
    }
}

/// The texts that an amount adds up; a single number is its own sum.
pub open spec fn summands(amount: Option<Amount>) -> Seq<Seq<char>> {
    match amount {
        Some(Amount::Sum(texts)) => views(texts@),
        Some(Amount::Literal(text)) => seq![text@],
        _ => seq![],
    }
}

/// Whether an amount is a sum of at least one number, or has not begun.
pub open spec fn is_sum(amount: Option<Amount>) -> bool {
    match amount {
        Some(Amount::Sum(texts)) => texts@.len() > 0,
        Some(_) => false,
        None => true,
    }
}

/// Adds a number, where there is one, to an amount of numbers, or begins a sum with it. A rate is
/// no such amount.
pub fn add_amount(target: &mut Option<Amount>, value: Option<String>)
    requires
        !(*old(target) matches Some(Amount::PerSecond { .. })),
    ensures
        match value {
            Some(text) => {
                &&& is_sum(*final(target))
                &&& *final(target) is Some
                &&& summands(*final(target)) == summands(*old(target)).push(text@)
            },
            None => *final(target) == *old(target),
        },
{
    if let Some(text) = value {
        let ghost amount = *target;
        let mut texts: Vec<String> = match target.take() {
            Some(Amount::Sum(texts)) => texts,
            Some(Amount::Literal(first)) => vec![first],
            _ => Vec::new(),
        };
        let ghost before = texts@;
        assert(views(before) =~= summands(amount));
        texts.push(text);
        assert(views(texts@) =~= views(before).push(text@));
        *target = Some(Amount::Sum(texts));
    }
}

/// The smaller of two values of which each may be missing.
pub open spec fn min_option(left: Option<u128>, right: Option<u128>) -> Option<u128> {
    match (left, right) {
        (Some(l), Some(r)) => Some(
            if l <= r {
                l
            } else {
                r
            },
        ),
        (None, r) => r,
        (l, None) => l,
    }
}

/// The smaller of two values of which each may be missing.
pub fn min_u128(target: Option<u128>, value: Option<u128>) -> (r: Option<u128>)
    ensures
        r == min_option(target, value),
{
    match (target, value) {
        (Some(left), Some(right)) => if left <= right {
            Some(left)
        } else {
            Some(right)
        },
        (None, Some(v)) => Some(v),
        (v, None) => v,
    }
}

// ---------------------------------------------------------------------------
// Totals

/// What the calls of one run add up to, in numbers of any size.
pub struct Totals {
    pub calls: nat,
    pub duration_ms: nat,
    pub input: Option<nat>,
    pub output: Option<nat>,
    pub total: Option<nat>,
    pub costs: Seq<Seq<char>>,
    pub ttft_ms: Option<u128>,
}

/// The totals of no call.
pub open spec fn no_totals() -> Totals {
    Totals {
        calls: 0,
        duration_ms: 0,
        input: None,
        output: None,
        total: None,
        costs: seq![],
        ttft_ms: None,
    }
}

/// The totals with one call more.
pub open spec fn with_call(before: Totals, call: LlmCallLine) -> Totals {
    Totals {
        calls: before.calls + 1,
        duration_ms: before.duration_ms + match call.duration_ms {
            Some(d) => d as nat,
            None => 0,
        },
        input: plus_option(before.input, call.metrics.input_tokens),
        output: plus_option(before.output, call.metrics.output_tokens),
        total: plus_option(before.total, call.metrics.total_tokens),
        costs: match call.metrics.cost_usd {
            Some(text) => before.costs.push(text@),
            None => before.costs,
        },
        ttft_ms: min_option(before.ttft_ms, call.metrics.ttft_ms),
    }
}

/// The totals of the calls of one run.
pub open spec fn totals(calls: Seq<LlmCallLine>, run_id: Seq<char>) -> Totals
    decreases calls.len(),
{
    if calls.len() == 0 {
        no_totals()
    } else {
        let before = totals(calls.drop_last(), run_id);
        if view_option(calls.last().run_id) == Some(run_id) {
            with_call(before, calls.last())
        } else {
            before
        }
    }
}

/// Whether totals can be held.
pub open spec fn fits(t: Totals) -> bool {
    &&& t.calls <= u64::MAX
    &&& t.duration_ms <= u128::MAX
    &&& fits_u64(t.input)
    &&& fits_u64(t.output)
    &&& fits_u64(t.total)
}

/// Whether the totals of every run can be held.
pub open spec fn all_fit(calls: Seq<LlmCallLine>) -> bool {
    forall|id: Seq<char>| fits(#[trigger] totals(calls, id))
}

/// The output rate that totals amount to.
pub open spec fn rate_of(t: Totals) -> Option<AmountView> {
    match t.output {
        Some(count) => if t.duration_ms > 0 {
            Some(AmountView::PerSecond(count as u64, t.duration_ms as u128))
        } else {
            None
        },
        None => None,
    }
}

/// The totals that an aggregate holds.
pub open spec fn totals_of(a: LlmMetricAggregate) -> Totals {
    Totals {
        calls: a.call_count as nat,
        duration_ms: a.duration_ms as nat,
        input: nat_option(a.metrics.token_input),
        output: nat_option(a.metrics.token_output),
        total: nat_option(a.metrics.token_total),
        costs: summands(a.metrics.cost_usd),
        ttft_ms: a.metrics.ttft_ms,
    }
}

/// Whether an aggregate holds totals and nothing else but, perhaps, the rate.
pub open spec fn is_aggregate(a: LlmMetricAggregate) -> bool {
    &&& a.metrics.llm_metrics_precision@ == "exact"@
    &&& is_sum(a.metrics.cost_usd)
    &&& a.metrics.context_window is None
    &&& a.metrics.context_used_ratio is None
}

/// Whether an aggregate says exactly what the totals say.
pub open spec fn aggregates(a: LlmMetricAggregate, t: Totals) -> bool {
    &&& is_aggregate(a)
    &&& totals_of(a) == t
    &&& amount_view(a.metrics.output_tokens_per_second) == rate_of(t)
}

/// Adds a call to an aggregate, unless a total would not fit.
fn add_call(aggregate: &mut LlmMetricAggregate, call: &LlmCallLine) -> (r: bool)
    requires
        is_aggregate(*old(aggregate)),
    ensures
        r == fits(with_call(totals_of(*old(aggregate)), *call)),
        r ==> is_aggregate(*final(aggregate)),
        r ==> totals_of(*final(aggregate)) == with_call(totals_of(*old(aggregate)), *call),
        r ==> final(aggregate).metrics.output_tokens_per_second == old(
            aggregate,
        ).metrics.output_tokens_per_second,
{
    let duration: u128 = match call.duration_ms {
        Some(d) => d,
        None => 0,
    };
    if aggregate.call_count == u64::MAX || aggregate.duration_ms.checked_add(duration).is_none()
        || !can_add_u64(&aggregate.metrics.token_input, call.metrics.input_tokens) || !can_add_u64(
        &aggregate.metrics.token_output,
        call.metrics.output_tokens,
    ) || !can_add_u64(&aggregate.metrics.token_total, call.metrics.total_tokens) {
        return false;
    }
    aggregate.call_count = aggregate.call_count + 1;
    aggregate.duration_ms = aggregate.duration_ms + duration;
    add_u64(&mut aggregate.metrics.token_input, call.metrics.input_tokens);
    add_u64(&mut aggregate.metrics.token_output, call.metrics.output_tokens);
    add_u64(&mut aggregate.metrics.token_total, call.metrics.total_tokens);
    let cost = crate::text::copy_option(&call.metrics.cost_usd);
    add_amount(&mut aggregate.metrics.cost_usd, cost);
    aggregate.metrics.ttft_ms = min_u128(aggregate.metrics.ttft_ms, call.metrics.ttft_ms);
    true
}

/// An aggregate of no call.
fn empty_aggregate() -> (r: LlmMetricAggregate)
    ensures
        is_aggregate(r),
        totals_of(r) == no_totals(),
        r.metrics.output_tokens_per_second is None,
{
    let r = LlmMetricAggregate {
        call_count: 0,
        duration_ms: 0,
        metrics: RunMetrics::unknown("exact"),
    };
    assert(summands(r.metrics.cost_usd) =~= seq![]);
    r
}

/// The index of the first entry of a run, or the number of entries where there is none.
pub open spec fn entry_index(list: Seq<RunAggregate>, run_id: Seq<char>) -> int
    decreases list.len(),
{
    if list.len() == 0 || list[0].run_id@ == run_id {
        0
    } else {
        1 + entry_index(list.drop_first(), run_id)
    }
}

/// Where the first entry of a run is.
pub proof fn lemma_entry_index(list: Seq<RunAggregate>, run_id: Seq<char>)
    ensures
        0 <= entry_index(list, run_id) <= list.len(),
        forall|j: int|
            0 <= j < entry_index(list, run_id) ==> (#[trigger] list[j]).run_id@ != run_id,
        entry_index(list, run_id) < list.len() ==> list[entry_index(list, run_id)].run_id@
            == run_id,
    decreases list.len(),
{
    if list.len() > 0 && list[0].run_id@ != run_id {
        let rest = list.drop_first();
        lemma_entry_index(rest, run_id);
        assert forall|j: int| 0 <= j < entry_index(list, run_id) implies (
        #[trigger] list[j]).run_id@ != run_id by {
            if j > 0 {
                assert(list[j] == rest[j - 1]);
            }
        }
        if entry_index(list, run_id) < list.len() {
            assert(rest[entry_index(rest, run_id)] == list[entry_index(list, run_id)]);
        }
    }
}

/// The index of the entry of a run.
pub fn find_entry(list: &Vec<RunAggregate>, run_id: &str) -> (r: Option<usize>)
    ensures
        match r {
            Some(i) => i == entry_index(list@, run_id@) && i < list@.len() && list@[i as int].run_id@
                == run_id@,
            None => entry_index(list@, run_id@) == list@.len() && forall|j: int|
                0 <= j < list@.len() ==> (#[trigger] list@[j]).run_id@ != run_id@,
        },
{
    proof {
        lemma_entry_index(list@, run_id@);
    }
    let ghost at = entry_index(list@, run_id@);
    for i in 0..list.len()
        invariant
            at == entry_index(list@, run_id@),
            0 <= at <= list@.len(),
            forall|j: int| 0 <= j < at ==> (#[trigger] list@[j]).run_id@ != run_id@,
            at < list@.len() ==> list@[at].run_id@ == run_id@,
            forall|j: int| 0 <= j < i ==> (#[trigger] list@[j]).run_id@ != run_id@,
    {
        if *list[i].run_id.as_str() == *run_id {
            assert(i == at);
            return Some(i);
        }
    }
    None
}

/// Whether a list says of every run what its calls, and only its calls, add up to.
pub open spec fn describes(list: Seq<RunAggregate>, calls: Seq<LlmCallLine>) -> bool {
    &&& forall|i: int, j: int|
        0 <= i < j < list.len() ==> (#[trigger] list[i]).run_id@ != (#[trigger] list[j]).run_id@
    &&& forall|i: int|
        0 <= i < list.len() ==> aggregates(
            (#[trigger] list[i]).aggregate,
            totals(calls, list[i].run_id@),
        ) && list[i].aggregate.call_count > 0
    &&& forall|id: Seq<char>|
        entry_index(list, id) == list.len() ==> #[trigger] totals(calls, id) == no_totals()
}

/// Whether a list is on its way to [`describes`]: the rates are still missing.
spec fn accumulates(list: Seq<RunAggregate>, calls: Seq<LlmCallLine>) -> bool {
    &&& forall|i: int, j: int|
        0 <= i < j < list.len() ==> (#[trigger] list[i]).run_id@ != (#[trigger] list[j]).run_id@
    &&& forall|i: int| 0 <= i < list.len() ==> holds_totals(#[trigger] list[i], calls)
    &&& forall|id: Seq<char>|
        entry_index(list, id) == list.len() ==> #[trigger] totals(calls, id) == no_totals()
}

spec fn holds_totals(entry: RunAggregate, calls: Seq<LlmCallLine>) -> bool {
    &&& is_aggregate(entry.aggregate)
    &&& totals_of(entry.aggregate) == totals(calls, entry.run_id@)
    &&& entry.aggregate.call_count > 0
    &&& entry.aggregate.metrics.output_tokens_per_second is None
}

/// More calls never make a total smaller.
pub proof fn totals_grow(calls: Seq<LlmCallLine>, i: int, run_id: Seq<char>)
    requires
        0 <= i <= calls.len(),
    ensures
        fits(totals(calls, run_id)) ==> fits(totals(calls.take(i), run_id)),
        totals(calls.take(i), run_id).calls <= totals(calls, run_id).calls,
    decreases calls.len(),
{
    if i < calls.len() {
        assert(calls.drop_last().take(i) =~= calls.take(i));
        totals_grow(calls.drop_last(), i, run_id);
    } else {
        assert(calls.take(i) =~= calls);
    }
}

/// What the recorded calls add up to, run by run; calls without a run count for nothing. There
/// is no result exactly where a total of some run would not fit.
pub fn load_llm_metric_aggregates(calls: &Vec<LlmCallLine>) -> (r: Option<Vec<RunAggregate>>)
    ensures
        r is Some <==> all_fit(calls@),
        r matches Some(list) ==> describes(list@, calls@),
{
    let mut list: Vec<RunAggregate> = Vec::new();
    assert(calls@.take(0) =~= Seq::<LlmCallLine>::empty());
    let mut k: usize = 0;
    while k < calls.len()
        invariant
            k <= calls@.len(),
            accumulates(list@, calls@.take(k as int)),
            all_fit(calls@.take(k as int)),
        decreases calls@.len() - k,
    {
        let call = &calls[k];
        let ghost done = calls@.take(k as int);
        let ghost next = calls@.take(k + 1);
        assert(next.drop_last() =~= done);
        assert(next.last() == *call);
        let ghost before = list@;
        match &call.run_id {
            None => {
                assert forall|id: Seq<char>| #[trigger] totals(next, id) == totals(done, id) by {}
                assert(all_fit(next)) by {
                    assert forall|id: Seq<char>| fits(#[trigger] totals(next, id)) by {
                        assert(fits(totals(done, id)));
                    }
                }
                assert forall|i: int| 0 <= i < list@.len() implies holds_totals(
                    #[trigger] list@[i],
                    next,
                ) by {
                    assert(holds_totals(before[i], done));
                }
                assert forall|id: Seq<char>| entry_index(list@, id)
                    == list@.len() implies #[trigger] totals(next, id) == no_totals() by {
                    assert(totals(done, id) == no_totals());
                }
            },
            Some(run_id) => {
                let at = match find_entry(&list, run_id.as_str()) {
                    Some(i) => i,
                    None => {
                        let entry = RunAggregate {
                            run_id: run_id.clone(),
                            aggregate: empty_aggregate(),
                        };
                        list.push(entry);
                        list.len() - 1
                    },
                };
                let ghost middle = list@;
                proof {
                    lemma_entry_index(before, run_id@);
                    assert(totals_of(middle[at as int].aggregate) == totals(done, run_id@));
                }
                let added = add_call(&mut list[at].aggregate, call);
                proof {
                    assert(totals(next, run_id@) == with_call(totals(done, run_id@), *call));
                }
                if !added {
                    proof {
                        totals_grow(calls@, k + 1, run_id@);
                        assert(!fits(totals(calls@, run_id@)));
                    }
                    return None;
                }
                proof {
                    assert forall|id: Seq<char>| id != run_id@ implies #[trigger] totals(next, id)
                        == totals(done, id) by {}
                    assert forall|id: Seq<char>| fits(#[trigger] totals(next, id)) by {
                        assert(fits(totals(done, id)));
                    }
                    assert(all_fit(next));
                    assert forall|i: int| 0 <= i < list@.len() implies holds_totals(
                        #[trigger] list@[i],
                        next,
                    ) by {
                        if i != at {
                            assert(list@[i] == before[i]);
                            assert(holds_totals(before[i], done));
                            if before[i].run_id@ == run_id@ {
                                lemma_entry_index(before, run_id@);
                                assert(false);
                            }
                        }
                    }
                    assert forall|id: Seq<char>| entry_index(list@, id)
                        == list@.len() implies #[trigger] totals(next, id) == no_totals() by {
                        lemma_entry_index(list@, id);
                        lemma_entry_index(before, id);
                        assert(list@[at as int].run_id@ != id);
                        let p = entry_index(before, id);
                        if p < before.len() {
                            assert(list@[p].run_id@ == before[p].run_id@);
                        }
                        assert(totals(done, id) == no_totals());
                    }
                }
            },
        }
        k = k + 1;
    }
    assert(calls@.take(calls@.len() as int) =~= calls@);
    let ghost summed = list@;
    let n: usize = list.len();
    for i in 0..n
        invariant
            n == list@.len(),
            n == summed.len(),
            accumulates(summed, calls@),
            all_fit(calls@),
            forall|j: int|
                0 <= j < list@.len() ==> (#[trigger] list@[j]).run_id == summed[j].run_id,
            forall|j: int|
                0 <= j < i ==> aggregates(
                    (#[trigger] list@[j]).aggregate,
                    totals(calls@, summed[j].run_id@),
                ) && list@[j].aggregate.call_count > 0,
            forall|j: int| i <= j < list@.len() ==> #[trigger] list@[j] == summed[j],
    {
        assert(holds_totals(summed[i as int], calls@));
        let duration = list[i].aggregate.duration_ms;
        let rate = match list[i].aggregate.metrics.token_output {
            Some(count) => if duration > 0 {
                Some(Amount::PerSecond { count, duration_ms: duration })
            } else {
                None
            },
            None => None,
        };
        list[i].aggregate.metrics.output_tokens_per_second = rate;
    }
    proof {
        assert forall|id: Seq<char>| entry_index(list@, id)
            == list@.len() implies #[trigger] totals(calls@, id) == no_totals() by {
            lemma_entry_index(list@, id);
            lemma_entry_index(summed, id);
            let p = entry_index(summed, id);
            if p < summed.len() {
                assert(list@[p].run_id == summed[p].run_id);
            }
        }
    }
    Some(list)
}

// ---------------------------------------------------------------------------
// What the totals depend on

/// What a recorded call holds.
pub struct LineView {
    pub run_id: Option<Seq<char>>,
    pub duration_ms: Option<u128>,
    pub input_tokens: Option<u64>,
    pub output_tokens: Option<u64>,
    pub total_tokens: Option<u64>,
    pub cost_usd: Option<Seq<char>>,
    pub ttft_ms: Option<u128>,
}

/// What a recorded call holds.
pub open spec fn line_view(call: LlmCallLine) -> LineView {
    LineView {
        run_id: view_option(call.run_id),
        duration_ms: call.duration_ms,
        input_tokens: call.metrics.input_tokens,
        output_tokens: call.metrics.output_tokens,
        total_tokens: call.metrics.total_tokens,
        cost_usd: view_option(call.metrics.cost_usd),
        ttft_ms: call.metrics.ttft_ms,
    }
}

/// What a list of recorded calls holds.
pub open spec fn line_views(calls: Seq<LlmCallLine>) -> Seq<LineView> {
    calls.map_values(|call: LlmCallLine| line_view(call))
}

/// The calls that belong to a run, in order.
pub open spec fn with_run(calls: Seq<LlmCallLine>) -> Seq<LlmCallLine>
    decreases calls.len(),
{
    if calls.len() == 0 {
        seq![]
    } else {
        let before = with_run(calls.drop_last());
        if calls.last().run_id is Some {
            before.push(calls.last())
        } else {
            before
        }
    }
}

/// Whether two lists hold the same calls of runs, in whatever order, and with whatever calls of
/// no run among them.
pub open spec fn same_calls(f: Seq<LlmCallLine>, g: Seq<LlmCallLine>) -> bool {
    line_views(with_run(f)).to_multiset() == line_views(with_run(g)).to_multiset()
}

/// Whether two totals are the same but for the order of what the costs add up.
pub open spec fn same_totals(s: Totals, t: Totals) -> bool {
    &&& s.calls == t.calls
    &&& s.duration_ms == t.duration_ms
    &&& s.input == t.input
    &&& s.output == t.output
    &&& s.total == t.total
    &&& s.costs.to_multiset() == t.costs.to_multiset()
    &&& s.ttft_ms == t.ttft_ms
}

/// The totals of one run with one call more, which may be of another run.
spec fn stepped(t: Totals, call: LlmCallLine, run_id: Seq<char>) -> Totals {
    if view_option(call.run_id) == Some(run_id) {
        with_call(t, call)
    } else {
        t
    }
}

proof fn lemma_step_keeps(s: Totals, t: Totals, call: LlmCallLine, run_id: Seq<char>)
    requires
        same_totals(s, t),
    ensures
        same_totals(stepped(s, call, run_id), stepped(t, call, run_id)),
{
    broadcast use vstd::seq_lib::group_to_multiset_ensures;

}

proof fn lemma_steps_commute(t: Totals, a: LlmCallLine, b: LlmCallLine, run_id: Seq<char>)
    ensures
        same_totals(
            stepped(stepped(t, a, run_id), b, run_id),
            stepped(stepped(t, b, run_id), a, run_id),
        ),
{
    broadcast use vstd::seq_lib::group_to_multiset_ensures;

    let x = stepped(stepped(t, a, run_id), b, run_id).costs.to_multiset();
    let y = stepped(stepped(t, b, run_id), a, run_id).costs.to_multiset();
    assert(x =~= y);
}

proof fn lemma_totals_without(calls: Seq<LlmCallLine>, i: int, run_id: Seq<char>)
    requires
        0 <= i < calls.len(),
    ensures
        same_totals(
            totals(calls, run_id),
            stepped(totals(calls.remove(i), run_id), calls[i], run_id),
        ),
    decreases calls.len(),
{
    let rest = calls.remove(i);
    if i == calls.len() - 1 {
        assert(rest =~= calls.drop_last());
    } else {
        let before = calls.drop_last();
        let last = calls.last();
        lemma_totals_without(before, i, run_id);
        assert(rest.drop_last() =~= before.remove(i));
        assert(rest.last() == last);
        let fewer = totals(before.remove(i), run_id);
        lemma_step_keeps(
            totals(before, run_id),
            stepped(fewer, calls[i], run_id),
            last,
            run_id,
        );
        lemma_steps_commute(fewer, calls[i], last, run_id);
    }
}

proof fn lemma_order_does_not_count(f: Seq<LlmCallLine>, g: Seq<LlmCallLine>, run_id: Seq<char>)
    requires
        line_views(f).to_multiset() == line_views(g).to_multiset(),
    ensures
        same_totals(totals(f, run_id), totals(g, run_id)),
    decreases f.len(),
{
    broadcast use vstd::seq_lib::group_to_multiset_ensures;

    let fv = line_views(f);
    let gv = line_views(g);
    assert(fv.to_multiset().len() == f.len());
    assert(gv.to_multiset().len() == g.len());
    if f.len() > 0 {
        let last = f.len() - 1;
        assert(fv[last] == line_view(f[last]));
        assert(fv.contains(fv[last]));
        assert(gv.to_multiset().count(fv[last]) > 0);
        let i = gv.index_of(fv[last]);
        assert(gv[i] == line_view(g[i]));
        let fewer = f.drop_last();
        let rest = g.remove(i);
        assert(line_views(fewer) =~= fv.remove(last));
        assert(line_views(rest) =~= gv.remove(i));
        assert(line_views(fewer).to_multiset() == line_views(rest).to_multiset());
        lemma_order_does_not_count(fewer, rest, run_id);
        lemma_step_keeps(totals(fewer, run_id), totals(rest, run_id), f[last], run_id);
        assert(stepped(totals(rest, run_id), f[last], run_id) == stepped(
            totals(rest, run_id),
            g[i],
            run_id,
        ));
        lemma_totals_without(g, i, run_id);
    }
}

proof fn lemma_calls_of_no_run(calls: Seq<LlmCallLine>, run_id: Seq<char>)
    ensures
        totals(with_run(calls), run_id) == totals(calls, run_id),
    decreases calls.len(),
{
    if calls.len() > 0 {
        let before = calls.drop_last();
        lemma_calls_of_no_run(before, run_id);
        if calls.last().run_id is Some {
            assert(with_run(calls).drop_last() =~= with_run(before));
        }
    }
}

/// What the calls of a run add up to depends neither on the order in which they were recorded nor
/// on calls of no run; nor does it whether everything can be held.
pub proof fn order_of_calls_does_not_count(f: Seq<LlmCallLine>, g: Seq<LlmCallLine>)
    requires
        same_calls(f, g),
    ensures
        forall|run_id: Seq<char>|
            same_totals(#[trigger] totals(f, run_id), totals(g, run_id)),
        all_fit(f) <==> all_fit(g),
{
    assert forall|run_id: Seq<char>| same_totals(
        #[trigger] totals(f, run_id),
        totals(g, run_id),
    ) by {
        lemma_calls_of_no_run(f, run_id);
        lemma_calls_of_no_run(g, run_id);
        lemma_order_does_not_count(with_run(f), with_run(g), run_id);
    }
    if all_fit(f) {
        assert forall|run_id: Seq<char>| fits(#[trigger] totals(g, run_id)) by {
            assert(fits(totals(f, run_id)));
        }
    }
    if all_fit(g) {
        assert forall|run_id: Seq<char>| fits(#[trigger] totals(f, run_id)) by {
            assert(fits(totals(g, run_id)));
        }
    }
}

/// Whether a call belongs to a run.
pub open spec fn is_call_of(call: LlmCallLine, run_id: Seq<char>) -> bool {
    view_option(call.run_id) == Some(run_id)
}

/// Two lists that hold the same calls of runs are aggregated alike: the same runs are listed,
/// each with the same numbers.
pub proof fn aggregates_do_not_depend_on_the_order(
    f: Seq<LlmCallLine>,
    g: Seq<LlmCallLine>,
    m: Seq<RunAggregate>,
    n: Seq<RunAggregate>,
    run_id: Seq<char>,
)
    requires
        same_calls(f, g),
        describes(m, f),
        describes(n, g),
    ensures
        entry_index(m, run_id) < m.len() <==> entry_index(n, run_id) < n.len(),
        entry_index(m, run_id) < m.len() ==> {
            let x = m[entry_index(m, run_id)].aggregate;
            let y = n[entry_index(n, run_id)].aggregate;
            &&& x.call_count == y.call_count
            &&& x.duration_ms == y.duration_ms
            &&& x.metrics.token_input == y.metrics.token_input
            &&& x.metrics.token_output == y.metrics.token_output
            &&& x.metrics.token_total == y.metrics.token_total
            &&& x.metrics.ttft_ms == y.metrics.ttft_ms
            &&& amount_view(x.metrics.output_tokens_per_second) == amount_view(
                y.metrics.output_tokens_per_second,
            )
            &&& summands(x.metrics.cost_usd).to_multiset() == summands(
                y.metrics.cost_usd,
            ).to_multiset()
        },
{
    order_of_calls_does_not_count(f, g);
    lemma_entry_index(m, run_id);
    lemma_entry_index(n, run_id);
    assert(same_totals(totals(f, run_id), totals(g, run_id)));
    let i = entry_index(m, run_id);
    let j = entry_index(n, run_id);
    if i < m.len() {
        assert(aggregates(m[i].aggregate, totals(f, run_id)));
    }
    if j < n.len() {
        assert(aggregates(n[j].aggregate, totals(g, run_id)));
    }
}

/// Whether a call of a run is of some kind.
pub open spec fn some_call(
    calls: Seq<LlmCallLine>,
    run_id: Seq<char>,
    kind: spec_fn(LlmCallLine) -> bool,
) -> bool {
    exists|i: int|
        0 <= i < calls.len() && is_call_of(#[trigger] calls[i], run_id) && kind(calls[i])
}

proof fn lemma_some_call(
    calls: Seq<LlmCallLine>,
    run_id: Seq<char>,
    kind: spec_fn(LlmCallLine) -> bool,
)
    requires
        calls.len() > 0,
    ensures
        some_call(calls, run_id, kind) <==> (some_call(calls.drop_last(), run_id, kind) || (
        is_call_of(calls.last(), run_id) && kind(calls.last()))),
{
    let before = calls.drop_last();
    if some_call(before, run_id, kind) {
        let i = choose|i: int|
            0 <= i < before.len() && is_call_of(#[trigger] before[i], run_id) && kind(before[i]);
        assert(calls[i] == before[i]);
    }
    if some_call(calls, run_id, kind) {
        let i = choose|i: int|
            0 <= i < calls.len() && is_call_of(#[trigger] calls[i], run_id) && kind(calls[i]);
        if i < before.len() {
            assert(before[i] == calls[i]);
        }
    }
    if is_call_of(calls.last(), run_id) && kind(calls.last()) {
        assert(calls[calls.len() - 1] == calls.last());
    }
}

/// A run is listed exactly where it has a call, and its totals are known exactly where a call of
/// the run reports them.
pub proof fn totals_are_known_where_reported(calls: Seq<LlmCallLine>, run_id: Seq<char>)
    ensures
        totals(calls, run_id).calls > 0 <==> some_call(calls, run_id, |c: LlmCallLine| true),
        totals(calls, run_id).input is Some <==> some_call(
            calls,
            run_id,
            |c: LlmCallLine| c.metrics.input_tokens is Some,
        ),
        totals(calls, run_id).output is Some <==> some_call(
            calls,
            run_id,
            |c: LlmCallLine| c.metrics.output_tokens is Some,
        ),
        totals(calls, run_id).total is Some <==> some_call(
            calls,
            run_id,
            |c: LlmCallLine| c.metrics.total_tokens is Some,
        ),
        totals(calls, run_id).ttft_ms is Some <==> some_call(
            calls,
            run_id,
            |c: LlmCallLine| c.metrics.ttft_ms is Some,
        ),
    decreases calls.len(),
{
    if calls.len() > 0 {
        totals_are_known_where_reported(calls.drop_last(), run_id);
        lemma_some_call(calls, run_id, |c: LlmCallLine| true);
        lemma_some_call(calls, run_id, |c: LlmCallLine| c.metrics.input_tokens is Some);
        lemma_some_call(calls, run_id, |c: LlmCallLine| c.metrics.output_tokens is Some);
        lemma_some_call(calls, run_id, |c: LlmCallLine| c.metrics.total_tokens is Some);
        lemma_some_call(calls, run_id, |c: LlmCallLine| c.metrics.ttft_ms is Some);
    }
}

/// The time to the first token of a run is the least that a call of the run reports.
pub proof fn first_token_time_is_the_least(calls: Seq<LlmCallLine>, run_id: Seq<char>)
    ensures
        forall|i: int|
            0 <= i < calls.len() && is_call_of(#[trigger] calls[i], run_id)
                && calls[i].metrics.ttft_ms is Some ==> (totals(calls, run_id).ttft_ms is Some
                && totals(calls, run_id).ttft_ms->0 <= calls[i].metrics.ttft_ms->0),
        totals(calls, run_id).ttft_ms is Some ==> some_call(
            calls,
            run_id,
            |c: LlmCallLine| c.metrics.ttft_ms == totals(calls, run_id).ttft_ms,
        ),
    decreases calls.len(),
{
    if calls.len() > 0 {
        let before = calls.drop_last();
        let least = totals(calls, run_id).ttft_ms;
        first_token_time_is_the_least(before, run_id);
        lemma_some_call(calls, run_id, |c: LlmCallLine| c.metrics.ttft_ms == least);
        if totals(before, run_id).ttft_ms is Some && totals(before, run_id).ttft_ms == least {
            assert(some_call(
                before,
                run_id,
                |c: LlmCallLine| c.metrics.ttft_ms == totals(before, run_id).ttft_ms,
            ));
            let i = choose|i: int|
                0 <= i < before.len() && is_call_of(#[trigger] before[i], run_id)
                    && before[i].metrics.ttft_ms == totals(before, run_id).ttft_ms;
            assert(calls[i] == before[i]);
        }
        assert forall|i: int|
            0 <= i < calls.len() && is_call_of(#[trigger] calls[i], run_id)
                && calls[i].metrics.ttft_ms is Some implies (least is Some && least->0
            <= calls[i].metrics.ttft_ms->0) by {
            if i < before.len() {
                assert(before[i] == calls[i]);
            }
        }
    }
}

// ---------------------------------------------------------------------------
// The metrics of a run

/// Whether `r` is `base` with what the calls of the run say in its place, where there are calls.
pub open spec fn is_merged(
    r: RunMetrics,
    base: RunMetrics,
    aggregate: Option<LlmMetricAggregate>,
) -> bool {
    let source = match aggregate {
        Some(a) => a.metrics,
        None => base,
    };
    &&& r.llm_metrics_precision@ == (if aggregate is Some {
        "exact"@
    } else {
        base.llm_metrics_precision@
    })
    &&& r.token_input == source.token_input
    &&& r.token_output == source.token_output
    &&& r.token_total == source.token_total
    &&& amount_view(r.cost_usd) == amount_view(source.cost_usd)
    &&& r.ttft_ms == source.ttft_ms
    &&& amount_view(r.output_tokens_per_second) == amount_view(source.output_tokens_per_second)
    &&& r.context_window == base.context_window
    &&& amount_view(r.context_used_ratio) == amount_view(base.context_used_ratio)
}

/// The value that an optional reference refers to.
pub open spec fn referred<A>(value: Option<&A>) -> Option<A> {
    match value {
        Some(v) => Some(*v),
        None => None,
    }
}

/// The metrics of a run: what its calls say where it has any, else what was recorded.
pub fn merge_run_metrics(base: &RunMetrics, aggregate: Option<&LlmMetricAggregate>) -> (r:
    RunMetrics)
    ensures
        is_merged(r, *base, referred(aggregate)),
{
    let (source, precision) = match aggregate {
        Some(a) => (&a.metrics, "exact"),
        None => (base, base.llm_metrics_precision.as_str()),
    };
    RunMetrics {
        llm_metrics_precision: precision.to_owned(),
        token_input: source.token_input,
        token_output: source.token_output,
        token_total: source.token_total,
        context_window: base.context_window,
        context_used_ratio: copy_amount(&base.context_used_ratio),
        cost_usd: copy_amount(&source.cost_usd),
        ttft_ms: source.ttft_ms,
        output_tokens_per_second: copy_amount(&source.output_tokens_per_second),
    }
}

// ---------------------------------------------------------------------------
// What the totals are

/// What the calls of a run add up to, over the calls themselves: all calls of the run count, each
/// as often as it was recorded, and no other. The number of calls is how many there are, the
/// duration and each total is the sum of what they report, and the costs are those that they
/// report, in order.
pub proof fn totals_add_up_every_call(calls: Seq<LlmCallLine>, run_id: Seq<char>)
    ensures
        ({
            let mine = calls.filter(
                |c: LlmCallLine| c.run_id matches Some(id) && id@ == run_id,
            );
            let t = totals(calls, run_id);
            &&& t.calls == mine.len()
            &&& t.duration_ms == mine.fold_left(
                0int,
                |sum: int, c: LlmCallLine|
                    sum + match c.duration_ms {
                        Some(d) => d as int,
                        None => 0,
                    },
            )
            &&& (match t.input {
                Some(n) => n as int,
                None => 0,
            }) == mine.fold_left(
                0int,
                |sum: int, c: LlmCallLine|
                    sum + match c.metrics.input_tokens {
                        Some(n) => n as int,
                        None => 0,
                    },
            )
            &&& (match t.output {
                Some(n) => n as int,
                None => 0,
            }) == mine.fold_left(
                0int,
                |sum: int, c: LlmCallLine|
                    sum + match c.metrics.output_tokens {
                        Some(n) => n as int,
                        None => 0,
                    },
            )
            &&& (match t.total {
                Some(n) => n as int,
                None => 0,
            }) == mine.fold_left(
                0int,
                |sum: int, c: LlmCallLine|
                    sum + match c.metrics.total_tokens {
                        Some(n) => n as int,
                        None => 0,
                    },
            )
            &&& t.costs == mine.filter(
                |c: LlmCallLine| c.metrics.cost_usd is Some,
            ).map_values(|c: LlmCallLine| c.metrics.cost_usd->0@)
            &&& t.costs.len() == mine.filter(|c: LlmCallLine| c.metrics.cost_usd is Some).len()
        }),
    decreases calls.len(),
{
    reveal(Seq::filter);
    let mine = calls.filter(|c: LlmCallLine| c.run_id matches Some(id) && id@ == run_id);
    if calls.len() > 0 {
        let before = calls.drop_last();
        totals_add_up_every_call(before, run_id);
        let fewer = before.filter(|c: LlmCallLine| c.run_id matches Some(id) && id@ == run_id);
        let last = calls.last();
        if last.run_id matches Some(id) && id@ == run_id {
            assert(mine == fewer.push(last));
            assert(mine.drop_last() =~= fewer);
            let paid = fewer.filter(|c: LlmCallLine| c.metrics.cost_usd is Some);
            let costs = paid.map_values(|c: LlmCallLine| c.metrics.cost_usd->0@);
            if last.metrics.cost_usd is Some {
                assert(mine.filter(|c: LlmCallLine| c.metrics.cost_usd is Some) == paid.push(last));
                assert(paid.push(last).map_values(|c: LlmCallLine| c.metrics.cost_usd->0@)
                    =~= costs.push(last.metrics.cost_usd->0@));
            } else {
                assert(mine.filter(|c: LlmCallLine| c.metrics.cost_usd is Some) == paid);
            }
        } else {
            assert(mine == fewer);
        }
    } else {
        assert(mine.len() == 0);
        assert(mine.filter(|c: LlmCallLine| c.metrics.cost_usd is Some).map_values(
            |c: LlmCallLine| c.metrics.cost_usd->0@,
        ) =~= seq![]);
    }
}

/// A total is known where some call of the run reports it, whichever it is, and is not known where
/// none does.
pub proof fn one_report_makes_a_total_known(calls: Seq<LlmCallLine>, run_id: Seq<char>, i: int)
    requires
        0 <= i < calls.len(),
        calls[i].run_id matches Some(id) && id@ == run_id,
    ensures
        totals(calls, run_id).calls > 0,
        calls[i].metrics.input_tokens is Some ==> totals(calls, run_id).input is Some,
        calls[i].metrics.output_tokens is Some ==> totals(calls, run_id).output is Some,
        calls[i].metrics.total_tokens is Some ==> totals(calls, run_id).total is Some,
        calls[i].metrics.cost_usd is Some ==> totals(calls, run_id).costs.contains(
            calls[i].metrics.cost_usd->0@,
        ),
        calls[i].metrics.ttft_ms matches Some(time) ==> totals(calls, run_id).ttft_ms is Some
            && totals(calls, run_id).ttft_ms->0 <= time,
    decreases calls.len(),
{
    let before = calls.drop_last();
    if i < before.len() {
        one_report_makes_a_total_known(before, run_id, i);
        let old = totals(before, run_id).costs;
        let now = totals(calls, run_id).costs;
        if calls[i].metrics.cost_usd is Some {
            let k = old.index_of(calls[i].metrics.cost_usd->0@);
            assert(now[k] == old[k]);
        }
    } else if calls[i].metrics.cost_usd is Some {
        let now = totals(calls, run_id).costs;
        assert(now[now.len() - 1] == calls[i].metrics.cost_usd->0@);
    }
}

/// Where no call of a run reports a total, it is not known; a run without a call has none.
pub proof fn no_report_leaves_a_total_unknown(calls: Seq<LlmCallLine>, run_id: Seq<char>)
    ensures
        ({
            let mine = |c: LlmCallLine| c.run_id matches Some(id) && id@ == run_id;
            let t = totals(calls, run_id);
            &&& (forall|i: int| 0 <= i < calls.len() ==> !mine(#[trigger] calls[i])) ==> {
                &&& t.calls == 0 && t.duration_ms == 0 && t.costs.len() == 0
                &&& t.input is None && t.output is None && t.total is None && t.ttft_ms is None
            }
            &&& (forall|i: int|
                0 <= i < calls.len() && mine(#[trigger] calls[i])
                    ==> calls[i].metrics.input_tokens is None) ==> t.input is None
            &&& (forall|i: int|
                0 <= i < calls.len() && mine(#[trigger] calls[i])
                    ==> calls[i].metrics.output_tokens is None) ==> t.output is None
            &&& (forall|i: int|
                0 <= i < calls.len() && mine(#[trigger] calls[i])
                    ==> calls[i].metrics.total_tokens is None) ==> t.total is None
            &&& (forall|i: int|
                0 <= i < calls.len() && mine(#[trigger] calls[i])
                    ==> calls[i].metrics.ttft_ms is None) ==> t.ttft_ms is None
            &&& t.ttft_ms is Some ==> exists|i: int|
                0 <= i < calls.len() && mine(#[trigger] calls[i]) && calls[i].metrics.ttft_ms
                    == t.ttft_ms
        }),
    decreases calls.len(),
{
    if calls.len() > 0 {
        let before = calls.drop_last();
        no_report_leaves_a_total_unknown(before, run_id);
        assert(forall|i: int| 0 <= i < before.len() ==> before[i] == #[trigger] calls[i]);
        assert(calls[calls.len() - 1] == calls.last());
        let mine = |c: LlmCallLine| c.run_id matches Some(id) && id@ == run_id;
        let t = totals(before, run_id);
        if t.ttft_ms is Some {
            let i = choose|i: int|
                0 <= i < before.len() && mine(#[trigger] before[i]) && before[i].metrics.ttft_ms
                    == t.ttft_ms;
            assert(calls[i] == before[i]);
        }
    }
}

/// What is loaded of the recorded calls: each run that has a call is listed, once, and its numbers
/// are the totals of its calls; its costs are the sum of theirs, its speed is its output over its
/// duration, and it says that it is exact.
pub proof fn listed_runs_tell_their_totals(
    list: Seq<RunAggregate>,
    calls: Seq<LlmCallLine>,
    i: int,
    k: int,
)
    requires
        describes(list, calls),
        0 <= i < list.len(),
    ensures
        ({
            let a = list[i].aggregate;
            let t = totals(calls, list[i].run_id@);
            &&& a.call_count == t.calls && a.call_count > 0
            &&& a.duration_ms == t.duration_ms
            &&& match t.input {
                Some(n) => a.metrics.token_input is Some && a.metrics.token_input->0 == n,
                None => a.metrics.token_input is None,
            }
            &&& match t.output {
                Some(n) => a.metrics.token_output is Some && a.metrics.token_output->0 == n,
                None => a.metrics.token_output is None,
            }
            &&& match t.total {
                Some(n) => a.metrics.token_total is Some && a.metrics.token_total->0 == n,
                None => a.metrics.token_total is None,
            }
            &&& t.costs.len() == 0 ==> a.metrics.cost_usd is None
            &&& t.costs.len() > 0 ==> (a.metrics.cost_usd matches Some(Amount::Sum(texts))
                && texts@.map_values(|text: String| text@) == t.costs)
            &&& a.metrics.ttft_ms == t.ttft_ms
            &&& a.metrics.output_tokens_per_second == (
            if a.metrics.token_output is Some && a.duration_ms > 0 {
                Some(
                    Amount::PerSecond {
                        count: a.metrics.token_output->0,
                        duration_ms: a.duration_ms,
                    },
                )
            } else {
                None
            })
            &&& a.metrics.llm_metrics_precision@ == "exact"@
            &&& a.metrics.context_window is None && a.metrics.context_used_ratio is None
        }),
        forall|j: int|
            0 <= j < list.len() && j != i ==> (#[trigger] list[j]).run_id@ != list[i].run_id@,
        0 <= k < calls.len() ==> (calls[k].run_id matches Some(id) ==> exists|j: int|
            0 <= j < list.len() && (#[trigger] list[j]).run_id@ == id@),
{
    let a = list[i].aggregate;
    assert(aggregates(a, totals(calls, list[i].run_id@)));
    match a.metrics.output_tokens_per_second {
        Some(Amount::PerSecond { count, duration_ms }) => {},
        Some(_) => {},
        None => {},
    }
    assert forall|j: int| 0 <= j < list.len() && j != i implies (#[trigger] list[j]).run_id@
        != list[i].run_id@ by {
        if j < i {
            assert(list[j].run_id@ != list[i].run_id@);
        } else {
            assert(list[i].run_id@ != list[j].run_id@);
        }
    }
    if 0 <= k < calls.len() && calls[k].run_id is Some {
        let id = calls[k].run_id->0@;
        one_report_makes_a_total_known(calls, id, k);
        lemma_entry_index(list, id);
        if entry_index(list, id) == list.len() {
            assert(totals(calls, id) == no_totals());
        }
        assert(list[entry_index(list, id)].run_id@ == id);
    }
}

/// Everything can be held exactly where no run has a total that is too large for its field.
pub proof fn totals_are_held_where_they_fit(t: Totals)
    ensures
        fits(t) <==> {
            &&& t.calls <= 0xffff_ffff_ffff_ffff
            &&& t.duration_ms <= 0xffff_ffff_ffff_ffff_ffff_ffff_ffff_ffff
            &&& t.input matches Some(n) ==> n <= 0xffff_ffff_ffff_ffff
            &&& t.output matches Some(n) ==> n <= 0xffff_ffff_ffff_ffff
            &&& t.total matches Some(n) ==> n <= 0xffff_ffff_ffff_ffff
        },
{
}

/// The metrics of a run are what its calls say, where it has any, and else what was recorded of
/// it; what calls do not say, the context, stays as it was recorded.
pub proof fn merged_metrics_tell_the_calls(
    r: RunMetrics,
    base: RunMetrics,
    aggregate: Option<LlmMetricAggregate>,
)
    requires
        is_merged(r, base, aggregate),
    ensures
        match aggregate {
            Some(a) => {
                &&& r.llm_metrics_precision@ == "exact"@
                &&& r.token_input == a.metrics.token_input
                &&& r.token_output == a.metrics.token_output
                &&& r.token_total == a.metrics.token_total
                &&& r.ttft_ms == a.metrics.ttft_ms
                &&& amount_view(r.cost_usd) == amount_view(a.metrics.cost_usd)
                &&& amount_view(r.output_tokens_per_second) == amount_view(
                    a.metrics.output_tokens_per_second,
                )
            },
            None => {
                &&& r.llm_metrics_precision@ == base.llm_metrics_precision@
                &&& r.token_input == base.token_input
                &&& r.token_output == base.token_output
                &&& r.token_total == base.token_total
                &&& r.ttft_ms == base.ttft_ms
                &&& amount_view(r.cost_usd) == amount_view(base.cost_usd)
                &&& amount_view(r.output_tokens_per_second) == amount_view(
                    base.output_tokens_per_second,
                )
            },
        },
        r.context_window == base.context_window,
        amount_view(r.context_used_ratio) == amount_view(base.context_used_ratio),
{
}

/// Adding two values of which each may be missing: a missing one adds nothing, and the smaller of
/// two is the one that is known where the other is not.
pub proof fn missing_values_add_nothing(t: nat, v: u64, x: u128, y: u128)
    ensures
        plus_option(Some(t), Some(v)) == Some((t + v) as nat),
        plus_option(None, Some(v)) == Some(v as nat),
        plus_option(Some(t), None) == Some(t),
        plus_option(None, None) is None,
        min_option(Some(x), None) == Some(x),
        min_option(None, Some(x)) == Some(x),
        min_option(None, None) is None,
        x <= y ==> min_option(Some(x), Some(y)) == Some(x) && min_option(Some(y), Some(x)) == Some(
            x,
        ),
{
}

/// What an amount adds up is each of its numbers, as often and in the order in which they were
/// added.
pub proof fn amounts_add_up_their_numbers(texts: Vec<String>, text: String)
    ensures
        summands(None) == Seq::<Seq<char>>::empty(),
        summands(Some(Amount::Literal(text))) == seq![text@],
        summands(Some(Amount::Sum(texts))) == texts@.map_values(|t: String| t@),
        is_sum(Some(Amount::Sum(texts))) <==> texts@.len() > 0,
        is_sum(None),
        !is_sum(Some(Amount::Literal(text))),
{
}

/// There are results exactly where no run has a total that is too large.
pub proof fn results_need_totals_that_fit(calls: Seq<LlmCallLine>)
    ensures
        all_fit(calls) <==> (forall|id: Seq<char>|
            ({
                let t = #[trigger] totals(calls, id);
                &&& t.calls <= u64::MAX && t.duration_ms <= u128::MAX
                &&& t.input matches Some(n) ==> n <= u64::MAX
                &&& t.output matches Some(n) ==> n <= u64::MAX
                &&& t.total matches Some(n) ==> n <= u64::MAX
            })),
{
    if forall|id: Seq<char>|
        ({
            let t = #[trigger] totals(calls, id);
            &&& t.calls <= u64::MAX && t.duration_ms <= u128::MAX
            &&& t.input matches Some(n) ==> n <= u64::MAX
            &&& t.output matches Some(n) ==> n <= u64::MAX
            &&& t.total matches Some(n) ==> n <= u64::MAX
        }) {
        assert forall|id: Seq<char>| fits(#[trigger] totals(calls, id)) by {
            totals_are_held_where_they_fit(totals(calls, id));
        }
    }
    if all_fit(calls) {
        assert forall|id: Seq<char>|
            ({
                let t = #[trigger] totals(calls, id);
                &&& t.calls <= u64::MAX && t.duration_ms <= u128::MAX
                &&& t.input matches Some(n) ==> n <= u64::MAX
                &&& t.output matches Some(n) ==> n <= u64::MAX
                &&& t.total matches Some(n) ==> n <= u64::MAX
            }) by {
            assert(fits(totals(calls, id)));
        }
    }
}

/// An optional reference refers to its value.
pub proof fn references_refer_to_their_values(a: LlmMetricAggregate)
    ensures
        referred(Some(&a)) == Some(a),
        referred(None::<&LlmMetricAggregate>) is None,
{
}

} // verus!

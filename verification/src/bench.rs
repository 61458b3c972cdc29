//! Benchmark matrices: every task with every agent and every provider, repeated.
use crate::capture::{CaptureRequest, ProxyRunConfig};
use crate::error::LedgerError;
use crate::record::{RunRecord, SCHEMA_VERSION};
use crate::text::{concat3, copy_list, copy_option, decimal, decimal_u128, nothing_to_replace, replace, replaced, text_view, view_option};
use vstd::prelude::*;
use vstd::string::*;

verus! {

// ---------------------------------------------------------------------------
// The matrix

/// A task that agents are compared on.
#[derive(Debug, Clone, PartialEq, Eq)]
pub struct BenchTask {
    pub name: String,
    pub prompt: String,
    pub evals: Vec<String>,
}

/// An agent, and the command that starts it.
#[derive(Debug, Clone, PartialEq, Eq)]
pub struct BenchAgent {
    pub name: String,
    pub command: Vec<String>,
}

/// A provider of LLM calls, reached through a proxy.
#[derive(Debug, Clone, PartialEq, Eq)]
pub struct BenchProvider {
    pub name: String,
    pub upstream: String,
    pub api_key_env: Option<String>,
    pub bind: String,
    pub record_bodies: bool,
}

/// What is run against what.
#[derive(Debug, Clone, PartialEq, Eq)]
pub struct BenchMatrix {
    pub repeats: u32,
    pub allow_dirty: bool,
    pub fail_on_llm_error: bool,
    pub tasks: Vec<BenchTask>,
    pub agents: Vec<BenchAgent>,
    pub providers: Vec<BenchProvider>,
}

/// A task as a file describes it.
#[derive(Debug, Clone, PartialEq, Eq)]
pub struct TaskDoc {
    pub name: String,
    pub prompt: Option<String>,
    pub evals: Option<Vec<String>>,
}

/// A provider as a file describes it.
#[derive(Debug, Clone, PartialEq, Eq)]
pub struct ProviderDoc {
    pub name: String,
    pub upstream: String,
    pub api_key_env: Option<String>,
    pub bind: Option<String>,
    pub record_bodies: Option<bool>,
}

/// A matrix as a file describes it.
#[derive(Debug, Clone, PartialEq, Eq)]
pub struct MatrixDoc {
    pub repeats: Option<u32>,
    pub allow_dirty: Option<bool>,
    pub fail_on_llm_error: Option<bool>,
    pub tasks: Vec<TaskDoc>,
    pub agents: Option<Vec<BenchAgent>>,
    pub providers: Option<Vec<ProviderDoc>>,
}

/// A value that a file may leave out.
pub open spec fn or_default<A>(value: Option<A>, default: A) -> A {
    match value {
        Some(v) => v,
        None => default,
    }
}

/// A list that a file may leave out.
pub open spec fn or_empty<A>(list: Option<Vec<A>>) -> Seq<A> {
    match list {
        Some(l) => l@,
        None => seq![],
    }
}

/// Whether `task` is what `doc` describes.
pub open spec fn task_reads(task: BenchTask, doc: TaskDoc) -> bool {
    &&& task.name == doc.name
    &&& task.prompt@ == or_default(view_option(doc.prompt), seq![])
    &&& task.evals@ == or_empty(doc.evals)
}

/// Whether `provider` is what `doc` describes.
pub open spec fn provider_reads(provider: BenchProvider, doc: ProviderDoc) -> bool {
    &&& provider.name == doc.name
    &&& provider.upstream == doc.upstream
    &&& provider.api_key_env == doc.api_key_env
    &&& provider.bind@ == or_default(view_option(doc.bind), "127.0.0.1:0"@)
    &&& provider.record_bodies == or_default(doc.record_bodies, false)
}

/// Whether `matrix` is what `doc` describes, with the defaults for what it leaves out.
pub open spec fn matrix_reads(matrix: BenchMatrix, doc: MatrixDoc) -> bool {
    &&& matrix.repeats == or_default(doc.repeats, 1)
    &&& matrix.allow_dirty == or_default(doc.allow_dirty, false)
    &&& matrix.fail_on_llm_error == or_default(doc.fail_on_llm_error, false)
    &&& matrix.tasks@.len() == doc.tasks@.len()
    &&& forall|i: int|
        0 <= i < doc.tasks@.len() ==> task_reads(#[trigger] matrix.tasks@[i], doc.tasks@[i])
    &&& matrix.agents@ == or_empty(doc.agents)
    &&& matrix.providers@.len() == or_empty(doc.providers).len()
    &&& forall|i: int|
        0 <= i < matrix.providers@.len() ==> provider_reads(
            #[trigger] matrix.providers@[i],
            or_empty(doc.providers)[i],
        )
}

/// The first agent from `i` on whose command is empty, or the number of agents.
pub open spec fn first_without_command(agents: Seq<BenchAgent>, i: int) -> int
    decreases agents.len() - i,
{
    if i >= agents.len() {
        agents.len() as int
    } else if agents[i].command@.len() == 0 {
        i
    } else {
        first_without_command(agents, i + 1)
    }
}

/// The address that a proxy binds to where none is named.
pub fn default_proxy_bind() -> (r: String)
    ensures
        r@ == "127.0.0.1:0"@,
{
    "127.0.0.1:0".to_owned()
}

fn read_tasks(docs: Vec<TaskDoc>) -> (r: Vec<BenchTask>)
    ensures
        r@.len() == docs@.len(),
        forall|i: int| 0 <= i < docs@.len() ==> task_reads(#[trigger] r@[i], docs@[i]),
{
    let ghost all = docs@;
    let mut tasks: Vec<BenchTask> = Vec::new();
    for doc in it: docs
        invariant
            it.seq() == all,
            tasks@.len() == it.index(),
            forall|i: int| 0 <= i < it.index() ==> task_reads(#[trigger] tasks@[i], all[i]),
    {
        tasks.push(
            BenchTask {
                name: doc.name,
                prompt: match doc.prompt {
                    Some(prompt) => prompt,
                    None => String::new(),
                },
                evals: match doc.evals {
                    Some(evals) => evals,
                    None => Vec::new(),
                },
            },
        );
    }
    tasks
}

fn read_providers(docs: Vec<ProviderDoc>) -> (r: Vec<BenchProvider>)
    ensures
        r@.len() == docs@.len(),
        forall|i: int| 0 <= i < docs@.len() ==> provider_reads(#[trigger] r@[i], docs@[i]),
{
    let ghost all = docs@;
    let mut providers: Vec<BenchProvider> = Vec::new();
    for doc in it: docs
        invariant
            it.seq() == all,
            providers@.len() == it.index(),
            forall|i: int| 0 <= i < it.index() ==> provider_reads(#[trigger] providers@[i], all[i]),
    {
        providers.push(
            BenchProvider {
                name: doc.name,
                upstream: doc.upstream,
                api_key_env: doc.api_key_env,
                bind: match doc.bind {
                    Some(bind) => bind,
                    None => default_proxy_bind(),
                },
                record_bodies: match doc.record_bodies {
                    Some(record) => record,
                    None => false,
                },
            },
        );
    }
    providers
}

/// The index of the first agent whose command is empty.
fn agent_without_command(agents: &Vec<BenchAgent>) -> (r: Option<usize>)
    ensures
        match r {
            Some(i) => i < agents@.len() && first_without_command(agents@, 0) == i
                && agents@[i as int].command@.len() == 0,
            None => first_without_command(agents@, 0) == agents@.len(),
        },
{
    let n: usize = agents.len();
    for i in 0..n
        invariant
            n == agents@.len(),
            first_without_command(agents@, 0) == first_without_command(agents@, i as int),
    {
        if agents[i].command.len() == 0 {
            return Some(i);
        }
    }
    None
}

/// The matrix that a file describes. `parsed` is what the file holds, or why it is no matrix.
pub fn parse_bench_matrix(parsed: Result<MatrixDoc, String>) -> (r: Result<
    BenchMatrix,
    LedgerError,
>)
    ensures
        match parsed {
            Ok(doc) => {
                let agents = or_empty(doc.agents);
                let k = first_without_command(agents, 0);
                if doc.tasks@.len() == 0 {
                    r matches Err(LedgerError::Config(m)) && m@
                        == "bench matrix needs at least one [[tasks]] entry"@
                } else if agents.len() == 0 {
                    r matches Err(LedgerError::Config(m)) && m@
                        == "bench matrix needs at least one [[agents]] entry"@
                } else if k < agents.len() {
                    r matches Err(LedgerError::Config(m)) && m@ == "bench agent '"@
                        + agents[k].name@ + "' has an empty command"@
                } else {
                    r matches Ok(matrix) && matrix_reads(matrix, doc)
                }
            },
            Err(detail) => r matches Err(LedgerError::Config(m)) && m@ == "invalid bench matrix: "@
                + detail@,
        },
{
    let doc = match parsed {
        Ok(doc) => doc,
        Err(detail) => {
            let mut message = "invalid bench matrix: ".to_owned();
            message.append(detail.as_str());
            return Err(LedgerError::Config(message));
        },
    };
    if doc.tasks.len() == 0 {
        return Err(
            LedgerError::Config("bench matrix needs at least one [[tasks]] entry".to_owned()),
        );
    }
    let agents = match doc.agents {
        Some(agents) => agents,
        None => Vec::new(),
    };
    if agents.len() == 0 {
        return Err(
            LedgerError::Config("bench matrix needs at least one [[agents]] entry".to_owned()),
        );
    }
    if let Some(i) = agent_without_command(&agents) {
        return Err(
            LedgerError::Config(
                concat3("bench agent '", agents[i].name.as_str(), "' has an empty command"),
            ),
        );
    }
    let providers = match doc.providers {
        Some(docs) => read_providers(docs),
        None => Vec::new(),
    };
    Ok(
        BenchMatrix {
            repeats: match doc.repeats {
                Some(n) => n,
                None => 1,
            },
            allow_dirty: match doc.allow_dirty {
                Some(allow) => allow,
                None => false,
            },
            fail_on_llm_error: match doc.fail_on_llm_error {
                Some(fail) => fail,
                None => false,
            },
            tasks: read_tasks(doc.tasks),
            agents,
            providers,
        },
    )
}

/// Every agent has a command exactly where the search for one without finds none.
pub proof fn commands_are_checked(agents: Seq<BenchAgent>, i: int)
    requires
        0 <= i <= agents.len(),
    ensures
        i <= first_without_command(agents, i) <= agents.len(),
        first_without_command(agents, i) == agents.len() <==> (forall|j: int|
            i <= j < agents.len() ==> (#[trigger] agents[j]).command@.len() > 0),
    decreases agents.len() - i,
{
    if i < agents.len() {
        commands_are_checked(agents, i + 1);
        if agents[i].command@.len() > 0 && first_without_command(agents, i + 1) == agents.len() {
            assert forall|j: int| i <= j < agents.len() implies (#[trigger] agents[j]).command@.len()
                > 0 by {
                if j > i {
                    assert(i + 1 <= j);
                }
            }
        }
    }
}

/// The error for a matrix file that cannot be read.
pub fn read_error(path: &str, detail: &str) -> (r: LedgerError)
    ensures
        r matches LedgerError::Config(m) && m@ == "cannot read bench matrix "@ + path@ + ": "@
            + detail@,
{
    let mut message = concat3("cannot read bench matrix ", path, ": ");
    message.append(detail);
    LedgerError::Config(message)
}

// ---------------------------------------------------------------------------
// Commands

/// A part of a command for a task: the prompt for `{prompt}`, then the name for `{task}`.
pub open spec fn filled(part: Seq<char>, task: BenchTask) -> Seq<char> {
    replaced(replaced(part, "{prompt}"@, task.prompt@), "{task}"@, task.name@)
}

/// The command of an agent for a task.
pub fn bench_command(template: &Vec<String>, task: &BenchTask) -> (r: Vec<String>)
    ensures
        r@.len() == template@.len(),
        forall|i: int| 0 <= i < r@.len() ==> (#[trigger] r@[i])@ == filled(template@[i]@, *task),
{
    proof {
        reveal_strlit("{prompt}");
        reveal_strlit("{task}");
    }
    let mut command: Vec<String> = Vec::new();
    for i in 0..template.len()
        invariant
            "{prompt}"@.len() > 0,
            "{task}"@.len() > 0,
            command@.len() == i,
            forall|j: int|
                0 <= j < i ==> (#[trigger] command@[j])@ == filled(template@[j]@, *task),
    {
        let with_prompt = replace(template[i].as_str(), "{prompt}", task.prompt.as_str());
        command.push(replace(with_prompt.as_str(), "{task}", task.name.as_str()));
    }
    command
}

// ---------------------------------------------------------------------------
// The plan

/// How many of each there are to combine.
pub struct Dims {
    pub tasks: int,
    pub agents: int,
    pub providers: int,
    pub repeats: int,
}

/// One run of a matrix: a task, an agent, a provider and a repeat, which counts from one.
pub struct Slot {
    pub task: int,
    pub agent: int,
    pub provider: int,
    pub repeat: int,
}

/// The runs that are left where `r` repeats of provider `p`, agent `a` and task `t` are done:
/// the repeats change first, then the providers, then the agents, then the tasks.
pub open spec fn slots_from(d: Dims, t: int, a: int, p: int, r: int) -> Seq<Slot>
    decreases d.tasks - t, d.agents - a, d.providers - p, d.repeats - r,
{
    if t >= d.tasks {
        seq![]
    } else if a >= d.agents {
        slots_from(d, t + 1, 0, 0, 0)
    } else if p >= d.providers {
        slots_from(d, t, a + 1, 0, 0)
    } else if r >= d.repeats {
        slots_from(d, t, a, p + 1, 0)
    } else {
        seq![Slot { task: t, agent: a, provider: p, repeat: r + 1 }] + slots_from(
            d,
            t,
            a,
            p,
            r + 1,
        )
    }
}

/// Every run of a matrix, in order.
pub open spec fn all_slots(d: Dims) -> Seq<Slot> {
    slots_from(d, 0, 0, 0, 0)
}

/// Whether a run belongs to a matrix.
pub open spec fn in_matrix(d: Dims, s: Slot) -> bool {
    &&& 0 <= s.task < d.tasks
    &&& 0 <= s.agent < d.agents
    &&& 0 <= s.provider < d.providers
    &&& 1 <= s.repeat <= d.repeats
}

/// The number of runs before a run.
pub open spec fn slot_index(d: Dims, s: Slot) -> int {
    ((s.task * d.agents + s.agent) * d.providers + s.provider) * d.repeats + s.repeat - 1
}

proof fn lemma_slots_from(d: Dims, t: int, a: int, p: int, r: int)
    requires
        d.tasks >= 0,
        d.agents >= 0,
        d.providers >= 1,
        d.repeats >= 1,
        0 <= t <= d.tasks,
        0 <= a <= d.agents,
        0 <= p <= d.providers,
        0 <= r <= d.repeats,
        t == d.tasks ==> a == 0 && p == 0 && r == 0,
        a == d.agents ==> p == 0 && r == 0,
        p == d.providers ==> r == 0,
    ensures
        ({
            let s = slots_from(d, t, a, p, r);
            let done = ((t * d.agents + a) * d.providers + p) * d.repeats + r;
            &&& done + s.len() == d.tasks * d.agents * d.providers * d.repeats
            &&& forall|i: int|
                0 <= i < s.len() ==> in_matrix(d, #[trigger] s[i]) && slot_index(d, s[i]) == done
                    + i
        }),
    decreases d.tasks - t, d.agents - a, d.providers - p, d.repeats - r,
{
    let n = d.agents;
    let m = d.providers;
    let k = d.repeats;
    if t >= d.tasks {
        assert(((t * n + 0) * m + 0) * k + 0 == t * n * m * k) by (nonlinear_arith);
    } else if a >= n {
        lemma_slots_from(d, t + 1, 0, 0, 0);
        assert(((t * n + n) * m + 0) * k + 0 == (((t + 1) * n + 0) * m + 0) * k + 0)
            by (nonlinear_arith);
    } else if p >= m {
        lemma_slots_from(d, t, a + 1, 0, 0);
        assert(((t * n + a) * m + m) * k + 0 == ((t * n + (a + 1)) * m + 0) * k + 0)
            by (nonlinear_arith);
    } else if r >= k {
        lemma_slots_from(d, t, a, p + 1, 0);
        assert(((t * n + a) * m + p) * k + k == ((t * n + a) * m + (p + 1)) * k + 0)
            by (nonlinear_arith);
    } else {
        lemma_slots_from(d, t, a, p, r + 1);
        let s = slots_from(d, t, a, p, r);
        let rest = slots_from(d, t, a, p, r + 1);
        let done = ((t * n + a) * m + p) * k + r;
        assert forall|i: int| 0 <= i < s.len() implies in_matrix(d, #[trigger] s[i]) && slot_index(
            d,
            s[i],
        ) == done + i by {
            if i > 0 {
                assert(s[i] == rest[i - 1]);
            }
        }
    }
}

proof fn lemma_slot_index_tells(d: Dims, x: Slot, y: Slot)
    requires
        in_matrix(d, x),
        in_matrix(d, y),
        slot_index(d, x) == slot_index(d, y),
    ensures
        x == y,
{
    let r = d.repeats;
    let p = d.providers;
    let a = d.agents;
    let xp = (x.task * a + x.agent) * p + x.provider;
    let yp = (y.task * a + y.agent) * p + y.provider;
    let xa = x.task * a + x.agent;
    let ya = y.task * a + y.agent;
    lemma_digits(xp, x.repeat - 1, yp, y.repeat - 1, r);
    lemma_digits(xa, x.provider, ya, y.provider, p);
    lemma_digits(x.task, x.agent, y.task, y.agent, a);
}

proof fn lemma_digits(q: int, r: int, s: int, u: int, n: int)
    requires
        0 <= r < n,
        0 <= u < n,
        q * n + r == s * n + u,
    ensures
        q == s,
        r == u,
{
    assert(q == s) by (nonlinear_arith)
        requires
            0 <= r < n,
            0 <= u < n,
            q * n + r == s * n + u,
    ;
}

/// A matrix runs every combination of a task, an agent, a provider and a repeat exactly once, and
/// in order: the number of runs is the product of the numbers of each.
pub proof fn every_combination_runs_once(d: Dims)
    requires
        d.tasks >= 0,
        d.agents >= 0,
        d.providers >= 1,
        d.repeats >= 1,
    ensures
        all_slots(d).len() == d.tasks * d.agents * d.providers * d.repeats,
        forall|i: int|
            0 <= i < all_slots(d).len() ==> in_matrix(d, #[trigger] all_slots(d)[i]) && slot_index(
                d,
                all_slots(d)[i],
            ) == i,
        forall|s: Slot|
            #[trigger] in_matrix(d, s) ==> 0 <= slot_index(d, s) < all_slots(d).len() && all_slots(
                d,
            )[slot_index(d, s)] == s,
{
    let all = all_slots(d);
    let n = d.agents;
    let m = d.providers;
    let k = d.repeats;
    assert(((0 * n + 0) * m + 0) * k + 0 == 0) by (nonlinear_arith);
    lemma_slots_from(d, 0, 0, 0, 0);
    assert forall|s: Slot| #[trigger] in_matrix(d, s) implies 0 <= slot_index(d, s) < all.len()
        && all[slot_index(d, s)] == s by {
        let t = s.task;
        let a = s.agent;
        let p = s.provider;
        let r = s.repeat;
        assert(0 <= ((t * n + a) * m + p) * k + r - 1 < d.tasks * n * m * k) by (nonlinear_arith)
            requires
                0 <= t < d.tasks,
                0 <= a < n,
                0 <= p < m,
                1 <= r <= k,
        {
            let x = t * n + a;
            assert(0 <= x < d.tasks * n) by (nonlinear_arith)
                requires
                    0 <= t < d.tasks,
                    0 <= a < n,
                    x == t * n + a,
            ;
            let y = x * m + p;
            let tn = d.tasks * n;
            assert(0 <= y < tn * m) by (nonlinear_arith)
                requires
                    0 <= x < tn,
                    0 <= p < m,
                    y == x * m + p,
            ;
            let tnm = tn * m;
            assert(0 <= y * k + r - 1 < tnm * k) by (nonlinear_arith)
                requires
                    0 <= y < tnm,
                    1 <= r <= k,
            ;
        }
        lemma_slot_index_tells(d, all[slot_index(d, s)], s);
    }
}

proof fn lemma_no_agents(d: Dims, t: int)
    requires
        d.agents == 0,
        0 <= t,
    ensures
        slots_from(d, t, 0, 0, 0) == Seq::<Slot>::empty(),
    decreases d.tasks - t,
{
    if t < d.tasks {
        lemma_no_agents(d, t + 1);
    }
}

// ---------------------------------------------------------------------------
// Runs and cells

/// Whether a task is run under a filter; every task is where there is none.
pub open spec fn passes_filter(task: BenchTask, filter: Option<Seq<char>>) -> bool {
    filter is None || task.name@ == filter->0
}

/// The tasks that are run under a filter, by their indices.
pub open spec fn selected_tasks(tasks: Seq<BenchTask>, filter: Option<Seq<char>>) -> Seq<int>
    decreases tasks.len(),
{
    if tasks.len() == 0 {
        seq![]
    } else {
        let before = selected_tasks(tasks.drop_last(), filter);
        if passes_filter(tasks.last(), filter) {
            before.push(tasks.len() - 1)
        } else {
            before
        }
    }
}

fn select_tasks(tasks: &Vec<BenchTask>, filter: Option<&str>) -> (r: Vec<usize>)
    ensures
        indices(r@) == selected_tasks(tasks@, text_view(filter)),
        forall|i: int| 0 <= i < r@.len() ==> #[trigger] r@[i] < tasks@.len(),
{
    let mut selected: Vec<usize> = Vec::new();
    assert(tasks@.take(0) =~= seq![]);
    assert(indices(selected@) =~= seq![]);
    let n: usize = tasks.len();
    for i in 0..n
        invariant
            n == tasks@.len(),
            indices(selected@) == selected_tasks(tasks@.take(i as int), text_view(filter)),
            forall|j: int| 0 <= j < selected@.len() ==> #[trigger] selected@[j] < tasks@.len(),
    {
        let ghost next = tasks@.take(i + 1);
        assert(next.drop_last() =~= tasks@.take(i as int));
        assert(next.last() == tasks@[i as int]);
        let ghost before = selected@;
        let runs = match filter {
            Some(name) => *tasks[i].name.as_str() == *name,
            None => true,
        };
        if runs {
            selected.push(i);
            assert(indices(selected@) =~= indices(before).push(i as int));
        }
    }
    assert(tasks@.take(n as int) =~= tasks@);
    selected
}

/// A list of indices as integers.
pub open spec fn indices(list: Seq<usize>) -> Seq<int> {
    list.map_values(|i: usize| i as int)
}

/// How many of each a matrix combines; without a provider the agents run without a proxy, and
/// every combination runs at least once.
pub open spec fn dims_of(matrix: BenchMatrix, selected: Seq<int>) -> Dims {
    Dims {
        tasks: selected.len() as int,
        agents: matrix.agents@.len() as int,
        providers: if matrix.providers@.len() == 0 {
            1
        } else {
            matrix.providers@.len() as int
        },
        repeats: if matrix.repeats == 0 {
            1
        } else {
            matrix.repeats as int
        },
    }
}

/// The provider of a run, where the matrix has providers.
pub open spec fn provider_of(matrix: BenchMatrix, slot: Slot) -> Option<BenchProvider> {
    if matrix.providers@.len() == 0 {
        None
    } else {
        Some(matrix.providers@[slot.provider])
    }
}

/// The task of a run.
pub open spec fn task_of(matrix: BenchMatrix, selected: Seq<int>, slot: Slot) -> BenchTask {
    matrix.tasks@[selected[slot.task]]
}

/// The name that a run is recorded under: the agent, and the provider where there is one.
pub open spec fn label_of(matrix: BenchMatrix, slot: Slot) -> Seq<char> {
    let agent = matrix.agents@[slot.agent].name@;
    match provider_of(matrix, slot) {
        Some(provider) => agent + "@"@ + provider.name@,
        None => agent,
    }
}

/// Whether `proxy` is the proxy to a provider.
pub open spec fn is_proxy_for(
    proxy: Option<ProxyRunConfig>,
    provider: Option<BenchProvider>,
    fail_on_llm_error: bool,
) -> bool {
    match provider {
        Some(p) => proxy matches Some(config) && {
            &&& config.bind == p.bind
            &&& config.upstream == p.upstream
            &&& config.api_key_env == p.api_key_env
            &&& config.record_bodies == p.record_bodies
            &&& config.fail_on_llm_error == fail_on_llm_error
        },
        None => proxy is None,
    }
}

/// Whether `request` is the capture of a run.
pub open spec fn is_request(
    request: CaptureRequest,
    matrix: BenchMatrix,
    selected: Seq<int>,
    slot: Slot,
) -> bool {
    let task = task_of(matrix, selected, slot);
    let template = matrix.agents@[slot.agent].command@;
    &&& request.task == task.name
    &&& request.agent@ == label_of(matrix, slot)
    &&& request.command@.len() == template.len()
    &&& forall|i: int|
        0 <= i < template.len() ==> (#[trigger] request.command@[i])@ == filled(
            template[i]@,
            task,
        )
    &&& request.eval_commands@ == task.evals@
    &&& request.allow_dirty == matrix.allow_dirty
    &&& is_proxy_for(request.proxy, provider_of(matrix, slot), matrix.fail_on_llm_error)
}

/// A run of a matrix that is to be made.
#[derive(Debug, Clone, PartialEq, Eq)]
pub struct BenchRun {
    pub request: CaptureRequest,
    pub repeat: u32,
    pub repeats: u32,
}

impl BenchRun {
    /// What is told before a run is made.
    pub fn progress(&self) -> (r: String)
        ensures
            r@ == "bench: task="@ + self.request.task@ + " agent="@ + self.request.agent@
                + " repeat="@ + decimal(self.repeat as nat) + "/"@ + decimal(self.repeats as nat),
    {
        let mut out = concat3("bench: task=", self.request.task.as_str(), " agent=");
        out.append(self.request.agent.as_str());
        out.append(" repeat=");
        out.append(decimal_u128(self.repeat as u128).as_str());
        out.append("/");
        out.append(decimal_u128(self.repeats as u128).as_str());
        out
    }
}

/// What became of a run of a matrix.
#[derive(Debug, Clone, PartialEq, Eq)]
pub struct BenchCell {
    pub task: String,
    pub agent: String,
    pub provider: Option<String>,
    pub repeat: u32,
    pub run_id: Option<String>,
    pub status: String,
    pub duration_ms: Option<u128>,
    pub error: Option<String>,
}

/// Whether a cell belongs to a run.
pub open spec fn names_run(
    cell: BenchCell,
    matrix: BenchMatrix,
    selected: Seq<int>,
    slot: Slot,
) -> bool {
    &&& cell.task == task_of(matrix, selected, slot).name
    &&& cell.agent@ == label_of(matrix, slot)
    &&& cell.provider == (match provider_of(matrix, slot) {
        Some(provider) => Some(provider.name),
        None => None,
    })
    &&& cell.repeat == slot.repeat
}

/// Whether a cell tells how a capture ended.
pub open spec fn tells_outcome(cell: BenchCell, outcome: Result<RunRecord, LedgerError>) -> bool {
    match outcome {
        Ok(record) => {
            &&& cell.run_id == Some(record.id)
            &&& cell.status == record.status
            &&& cell.duration_ms == Some(record.duration_ms)
            &&& cell.error is None
        },
        Err(err) => {
            &&& cell.run_id is None
            &&& cell.status@ == "error"@
            &&& cell.duration_ms is None
            &&& view_option(cell.error) == Some(err.prefix() + err.detail())
        },
    }
}

/// A matrix that is being run.
pub struct Bench {
    matrix: BenchMatrix,
    tasks: Vec<usize>,
    task: usize,
    agent: usize,
    provider: usize,
    done: u32,
    cells: Vec<BenchCell>,
}

/// The report on a matrix that was run.
#[derive(Debug, Clone, PartialEq, Eq)]
pub struct BenchReport {
    pub schema_version: u32,
    pub matrix: String,
    pub cell_count: usize,
    pub passed: usize,
    pub failed: usize,
    pub cells: Vec<BenchCell>,
}

/// The number of cells with status `passed`.
pub open spec fn passed_cells(cells: Seq<BenchCell>) -> nat
    decreases cells.len(),
{
    if cells.len() == 0 {
        0
    } else {
        passed_cells(cells.drop_last()) + (if cells.last().status@ == "passed"@ {
            1nat
        } else {
            0nat
        })
    }
}

fn count_passed(cells: &Vec<BenchCell>) -> (r: usize)
    ensures
        r == passed_cells(cells@),
        r == cells@.filter(|cell: BenchCell| cell.status@ == "passed"@).len(),
        r <= cells@.len(),
{
    proof {
        every_passed_cell_is_counted(cells@);
    }
    let mut passed: usize = 0;
    let n: usize = cells.len();
    for i in 0..n
        invariant
            n == cells@.len(),
            passed == passed_cells(cells@.take(i as int)),
            passed <= i,
    {
        assert(cells@.take(i + 1).drop_last() =~= cells@.take(i as int));
        if *cells[i].status.as_str() == *"passed" {
            passed = passed + 1;
        }
    }
    assert(cells@.take(n as int) =~= cells@);
    passed
}

impl Bench {
    pub closed spec fn matrix(self) -> BenchMatrix {
        self.matrix
    }

    /// The tasks that are run.
    pub closed spec fn selected(self) -> Seq<int> {
        indices(self.tasks@)
    }

    /// The cells of the runs that were made.
    pub closed spec fn cells(self) -> Seq<BenchCell> {
        self.cells@
    }

    /// Every run of the matrix, in order; the first of them have their cells.
    pub open spec fn plan(self) -> Seq<Slot> {
        all_slots(dims_of(self.matrix(), self.selected()))
    }

    /// Whether the cells are those of the first runs of the plan, and no others.
    #[verifier::type_invariant]
    pub closed spec fn follows_plan(self) -> bool {
        let d = dims_of(self.matrix, self.selected());
        &&& forall|i: int|
            0 <= i < self.tasks@.len() ==> #[trigger] self.tasks@[i] < self.matrix.tasks@.len()
        &&& self.task <= d.tasks
        &&& self.task < d.tasks ==> self.agent < d.agents && self.provider < d.providers
            && self.done < d.repeats
        &&& self.cells@.len() <= self.plan().len()
        &&& slots_from(
            d,
            self.task as int,
            self.agent as int,
            self.provider as int,
            self.done as int,
        ) == self.plan().skip(self.cells@.len() as int)
        &&& forall|i: int|
            0 <= i < self.cells@.len() ==> names_run(
                #[trigger] self.cells@[i],
                self.matrix,
                self.selected(),
                self.plan()[i],
            )
    }

    /// The start of a matrix, under a filter on the names of the tasks.
    pub fn begin(matrix: BenchMatrix, filter: Option<&str>) -> (r: Result<Bench, LedgerError>)
        ensures
            ({
                let selected = selected_tasks(matrix.tasks@, text_view(filter));
                match r {
                    Ok(bench) => {
                        &&& selected.len() > 0
                        &&& bench.matrix() == matrix
                        &&& bench.selected() == selected
                        &&& bench.cells().len() == 0
                    },
                    Err(LedgerError::Config(m)) => {
                        &&& selected.len() == 0
                        &&& m@ == "no bench task matches filter '"@ + or_default(
                            text_view(filter),
                            seq![],
                        ) + "'"@
                    },
                    Err(_) => false,
                }
            }),
    {
        let tasks = select_tasks(&matrix.tasks, filter);
        if tasks.len() == 0 {
            assert(indices(tasks@).len() == 0);
            let wanted = match filter {
                Some(name) => name.to_owned(),
                None => String::new(),
            };
            return Err(
                LedgerError::Config(
                    concat3("no bench task matches filter '", wanted.as_str(), "'"),
                ),
            );
        }
        let ghost d = dims_of(matrix, indices(tasks@));
        let task: usize = if matrix.agents.len() == 0 {
            tasks.len()
        } else {
            0
        };
        proof {
            if d.agents == 0 {
                lemma_no_agents(d, 0);
            }
            assert(all_slots(d).skip(0) =~= all_slots(d));
        }
        Ok(Bench { matrix, tasks, task, agent: 0, provider: 0, done: 0, cells: Vec::new() })
    }

    /// The next run to make, as long as there is one.
    pub fn next_run(&self) -> (r: Option<BenchRun>)
        ensures
            match r {
                Some(run) => {
                    let slot = self.plan()[self.cells().len() as int];
                    &&& self.cells().len() < self.plan().len()
                    &&& is_request(run.request, self.matrix(), self.selected(), slot)
                    &&& run.repeat == slot.repeat
                    &&& run.repeats == dims_of(self.matrix(), self.selected()).repeats
                },
                None => self.cells().len() == self.plan().len(),
            },
    {
        proof {
            use_type_invariant(self);
        }
        let ghost d = dims_of(self.matrix, self.selected());
        if self.task >= self.tasks.len() {
            assert(self.plan().skip(self.cells@.len() as int).len() == 0);
            return None;
        }
        let ghost slot = Slot {
            task: self.task as int,
            agent: self.agent as int,
            provider: self.provider as int,
            repeat: self.done + 1,
        };
        let ghost rest = self.plan().skip(self.cells@.len() as int);
        assert(rest == seq![slot] + slots_from(
            d,
            slot.task,
            slot.agent,
            slot.provider,
            slot.repeat,
        ));
        assert(rest[0] == slot);
        let task = &self.matrix.tasks[self.tasks[self.task]];
        let agent = &self.matrix.agents[self.agent];
        let proxy = if self.matrix.providers.len() == 0 {
            None
        } else {
            let provider = &self.matrix.providers[self.provider];
            Some(
                ProxyRunConfig {
                    bind: provider.bind.clone(),
                    upstream: provider.upstream.clone(),
                    api_key_env: copy_option(&provider.api_key_env),
                    record_bodies: provider.record_bodies,
                    fail_on_llm_error: self.matrix.fail_on_llm_error,
                },
            )
        };
        let request = CaptureRequest {
            task: task.name.clone(),
            agent: self.label(),
            command: bench_command(&agent.command, task),
            eval_commands: copy_list(&task.evals),
            allow_dirty: self.matrix.allow_dirty,
            proxy,
        };
        Some(
            BenchRun {
                request,
                repeat: self.done + 1,
                repeats: if self.matrix.repeats == 0 {
                    1
                } else {
                    self.matrix.repeats
                },
            },
        )
    }

    /// The name that the next run is recorded under.
    fn label(&self) -> (r: String)
        requires
            self.cells().len() < self.plan().len(),
        ensures
            r@ == label_of(self.matrix(), self.plan()[self.cells().len() as int]),
    {
        proof {
            use_type_invariant(self);
            assert(self.plan().skip(self.cells@.len() as int).len() > 0);
            assert(self.plan().skip(self.cells@.len() as int)[0]
                == self.plan()[self.cells@.len() as int]);
        }
        let agent = self.matrix.agents[self.agent].name.as_str();
        if self.matrix.providers.len() == 0 {
            agent.to_owned()
        } else {
            concat3(agent, "@", self.matrix.providers[self.provider].name.as_str())
        }
    }

    /// The matrix with the outcome of the next run, whether it was captured or not.
    pub fn record(self, outcome: Result<RunRecord, LedgerError>) -> (r: Bench)
        requires
            self.cells().len() < self.plan().len(),
        ensures
            r.matrix() == self.matrix(),
            r.selected() == self.selected(),
            r.plan() == self.plan(),
            r.cells().len() == self.cells().len() + 1,
            r.cells().drop_last() == self.cells(),
            names_run(
                r.cells().last(),
                self.matrix(),
                self.selected(),
                self.plan()[self.cells().len() as int],
            ),
            tells_outcome(r.cells().last(), outcome),
    {
        proof {
            use_type_invariant(&self);
        }
        let ghost d = dims_of(self.matrix, self.selected());
        let ghost rest = self.plan().skip(self.cells@.len() as int);
        let ghost slot = self.plan()[self.cells@.len() as int];
        assert(rest.len() > 0);
        assert(rest[0] == slot);
        let agent = self.label();
        let provider = if self.matrix.providers.len() == 0 {
            None
        } else {
            Some(self.matrix.providers[self.provider].name.clone())
        };
        let task = self.matrix.tasks[self.tasks[self.task]].name.clone();
        let repeat: u32 = self.done + 1;
        let cell = match outcome {
            Ok(record) => BenchCell {
                task,
                agent,
                provider,
                repeat,
                run_id: Some(record.id),
                status: record.status,
                duration_ms: Some(record.duration_ms),
                error: None,
            },
            Err(err) => BenchCell {
                task,
                agent,
                provider,
                repeat,
                run_id: None,
                status: "error".to_owned(),
                duration_ms: None,
                error: Some(err.message()),
            },
        };
        let repeats: u32 = if self.matrix.repeats == 0 {
            1
        } else {
            self.matrix.repeats
        };
        let providers: usize = if self.matrix.providers.len() == 0 {
            1
        } else {
            self.matrix.providers.len()
        };
        let agents: usize = self.matrix.agents.len();
        let tasks: usize = self.tasks.len();
        assert(self.task < tasks && self.agent < agents);
        let (next_task, next_agent, next_provider, next_done) = if repeat < repeats {
            (self.task, self.agent, self.provider, repeat)
        } else if self.provider + 1 < providers {
            (self.task, self.agent, self.provider + 1, 0)
        } else if self.agent + 1 < agents {
            (self.task, self.agent + 1, 0, 0)
        } else {
            (self.task + 1, 0, 0, 0)
        };
        let ghost (t, a, p, k) = (
            self.task as int,
            self.agent as int,
            self.provider as int,
            self.done as int,
        );
        proof {
            assert(slots_from(d, t, a, p, k) == seq![slot] + slots_from(d, t, a, p, k + 1));
            reveal_with_fuel(slots_from, 4);
            assert(slots_from(d, t, a, p, k + 1) == slots_from(
                d,
                next_task as int,
                next_agent as int,
                next_provider as int,
                next_done as int,
            ));
            assert(rest.drop_first() =~= slots_from(d, t, a, p, k + 1));
            assert(self.plan().skip(self.cells@.len() as int + 1) =~= rest.drop_first());
        }
        let ghost before = self.cells@;
        let mut cells = self.cells;
        cells.push(cell);
        assert(cells@.drop_last() =~= before);
        assert forall|i: int| 0 <= i < cells@.len() implies names_run(
            #[trigger] cells@[i],
            self.matrix,
            self.selected(),
            self.plan()[i],
        ) by {
            if i < before.len() {
                assert(cells@[i] == before[i]);
            }
        }
        Bench {
            matrix: self.matrix,
            tasks: self.tasks,
            task: next_task,
            agent: next_agent,
            provider: next_provider,
            done: next_done,
            cells,
        }
    }

    /// The report on the runs that were made.
    pub fn report(self, path: String) -> (r: BenchReport)
        ensures
            r.schema_version == SCHEMA_VERSION,
            r.matrix == path,
            r.cells@ == self.cells(),
            r.cell_count == r.cells@.len(),
            r.passed == passed_cells(r.cells@),
            r.passed == r.cells@.filter(|cell: BenchCell| cell.status@ == "passed"@).len(),
            r.failed == r.cells@.filter(|cell: BenchCell| cell.status@ != "passed"@).len(),
            r.passed + r.failed == r.cell_count,
            r.cell_count <= self.plan().len(),
            forall|i: int|
                0 <= i < r.cells@.len() ==> names_run(
                    #[trigger] r.cells@[i],
                    self.matrix(),
                    self.selected(),
                    self.plan()[i],
                ),
    {
        proof {
            use_type_invariant(&self);
        }
        proof {
            every_passed_cell_is_counted(self.cells@);
        }
        let passed = count_passed(&self.cells);
        let count = self.cells.len();
        BenchReport {
            schema_version: SCHEMA_VERSION,
            matrix: path,
            cell_count: count,
            passed,
            failed: count - passed,
            cells: self.cells,
        }
    }
}

/// A matrix of which every run was made has one cell for each combination of a task, an agent, a
/// provider and a repeat, however its runs ended.
pub proof fn finished_bench_has_every_cell(bench: Bench)
    requires
        bench.cells().len() == bench.plan().len(),
    ensures
        ({
            let d = dims_of(bench.matrix(), bench.selected());
            bench.cells().len() == d.tasks * d.agents * d.providers * d.repeats
        }),
{
    every_combination_runs_once(dims_of(bench.matrix(), bench.selected()));
}

/// The tasks that are run are those that pass the filter, in order.
pub proof fn filter_selects_tasks(tasks: Seq<BenchTask>, filter: Option<Seq<char>>)
    ensures
        forall|i: int|
            0 <= i < selected_tasks(tasks, filter).len() ==> {
                let k = #[trigger] selected_tasks(tasks, filter)[i];
                0 <= k < tasks.len() && passes_filter(tasks[k], filter)
            },
        forall|i: int, j: int|
            0 <= i < j < selected_tasks(tasks, filter).len() ==> #[trigger] selected_tasks(
                tasks,
                filter,
            )[i] < #[trigger] selected_tasks(tasks, filter)[j],
        forall|k: int|
            0 <= k < tasks.len() && passes_filter(#[trigger] tasks[k], filter) ==> selected_tasks(
                tasks,
                filter,
            ).contains(k),
        filter is None ==> selected_tasks(tasks, filter).len() == tasks.len(),
    decreases tasks.len(),
{
    if tasks.len() > 0 {
        let old_tasks = tasks.drop_last();
        filter_selects_tasks(old_tasks, filter);
        let before = selected_tasks(old_tasks, filter);
        let now = selected_tasks(tasks, filter);
        assert forall|i: int| 0 <= i < now.len() implies {
            let k = #[trigger] now[i];
            0 <= k < tasks.len() && passes_filter(tasks[k], filter)
        } by {
            if i < before.len() {
                assert(now[i] == before[i]);
                assert(tasks[before[i]] == old_tasks[before[i]]);
            }
        }
        assert forall|k: int|
            0 <= k < tasks.len() && passes_filter(#[trigger] tasks[k], filter) implies now.contains(
            k,
        ) by {
            if k < old_tasks.len() {
                assert(tasks[k] == old_tasks[k]);
                let i = before.index_of(k);
                assert(now[i] == k);
            } else {
                assert(now[now.len() - 1] == k);
            }
        }
    }
}

// ---------------------------------------------------------------------------
// What the operations are

/// Every cell with the status `passed` is counted, once, wherever it stands, and no other cell is.
pub proof fn every_passed_cell_is_counted(cells: Seq<BenchCell>)
    ensures
        passed_cells(cells) == cells.filter(|cell: BenchCell| cell.status@ == "passed"@).len(),
        cells.len() - passed_cells(cells) == cells.filter(
            |cell: BenchCell| cell.status@ != "passed"@,
        ).len(),
        passed_cells(cells) == cells.len() <==> (forall|i: int|
            0 <= i < cells.len() ==> (#[trigger] cells[i]).status@ == "passed"@),
        passed_cells(cells) == 0 <==> (forall|i: int|
            0 <= i < cells.len() ==> (#[trigger] cells[i]).status@ != "passed"@),
    decreases cells.len(),
{
    reveal(Seq::filter);
    if cells.len() > 0 {
        let before = cells.drop_last();
        every_passed_cell_is_counted(before);
        assert(passed_cells(before) <= before.len());
        assert(forall|i: int| 0 <= i < before.len() ==> before[i] == #[trigger] cells[i]);
        let n = cells.len() - 1;
        assert(cells[n] == cells.last());
        if passed_cells(before) == before.len() {
            assert forall|i: int| 0 <= i < n implies (#[trigger] cells[i]).status@ == "passed"@ by {
                assert(before[i].status@ == "passed"@);
            }
        } else {
            let k = choose|k: int|
                0 <= k < before.len() && (#[trigger] before[k]).status@ != "passed"@;
            assert(cells[k].status@ != "passed"@);
        }
        if passed_cells(before) == 0 {
            assert forall|i: int| 0 <= i < n implies (#[trigger] cells[i]).status@ != "passed"@ by {
                assert(before[i].status@ != "passed"@);
            }
        } else {
            let k = choose|k: int|
                0 <= k < before.len() && (#[trigger] before[k]).status@ == "passed"@;
            assert(cells[k].status@ == "passed"@);
        }
    }
}

proof fn lemma_passed_without(cells: Seq<BenchCell>, i: int)
    requires
        0 <= i < cells.len(),
    ensures
        passed_cells(cells) == passed_cells(cells.remove(i)) + (if cells[i].status@ == "passed"@ {
            1nat
        } else {
            0nat
        }),
    decreases cells.len(),
{
    let rest = cells.remove(i);
    if i == cells.len() - 1 {
        assert(rest =~= cells.drop_last());
    } else {
        lemma_passed_without(cells.drop_last(), i);
        assert(rest.drop_last() =~= cells.drop_last().remove(i));
        assert(rest.last() == cells.last());
    }
}

/// The number of cells that passed does not depend on their order, and two lists of cells one
/// behind the other have as many as both together.
pub proof fn order_of_cells_does_not_count(f: Seq<BenchCell>, g: Seq<BenchCell>)
    ensures
        f.to_multiset() == g.to_multiset() ==> passed_cells(f) == passed_cells(g),
        passed_cells(f + g) == passed_cells(f) + passed_cells(g),
    decreases g.len(), f.len(),
{
    broadcast use vstd::seq_lib::group_to_multiset_ensures;

    if g.len() > 0 {
        let fewer = g.drop_last();
        order_of_cells_does_not_count(f, fewer);
        assert((f + g).drop_last() =~= f + fewer);
        assert((f + g).last() == g.last());
        if f.to_multiset() == g.to_multiset() {
            assert(g.contains(g.last()));
            assert(f.to_multiset().count(g.last()) > 0);
            let i = f.index_of(g.last());
            assert(g.remove(g.len() - 1) =~= fewer);
            assert(f.remove(i).to_multiset() == fewer.to_multiset());
            order_of_cells_does_not_count(f.remove(i), fewer);
            lemma_passed_without(f, i);
        }
    } else {
        assert(f + g =~= f);
        if f.to_multiset() == g.to_multiset() {
            assert(f.to_multiset().len() == f.len());
            assert(g.to_multiset().len() == g.len());
        }
    }
}

/// The agent that a matrix is refused for is the first without a command.
pub proof fn first_agent_without_command_is_named(agents: Seq<BenchAgent>, i: int)
    requires
        0 <= i <= agents.len(),
    ensures
        ({
            let k = first_without_command(agents, i);
            &&& i <= k <= agents.len()
            &&& forall|j: int| i <= j < k ==> (#[trigger] agents[j]).command@.len() > 0
            &&& k < agents.len() ==> agents[k].command@.len() == 0
        }),
    decreases agents.len() - i,
{
    if i < agents.len() && agents[i].command@.len() > 0 {
        first_agent_without_command_is_named(agents, i + 1);
    }
}

/// A matrix is read as its file describes it: every task, agent and provider in order, and for
/// what the file leaves out one repeat, no dirty repository, no failing on failed calls, an empty
/// prompt, no evals, a free port of the loopback address and no recorded bodies.
pub proof fn matrix_is_read(matrix: BenchMatrix, doc: MatrixDoc)
    requires
        matrix_reads(matrix, doc),
    ensures
        matrix.repeats == (match doc.repeats {
            Some(n) => n,
            None => 1,
        }),
        matrix.allow_dirty == (doc.allow_dirty == Some(true)),
        matrix.fail_on_llm_error == (doc.fail_on_llm_error == Some(true)),
        matrix.tasks@.len() == doc.tasks@.len(),
        forall|i: int|
            0 <= i < doc.tasks@.len() ==> {
                let task = #[trigger] matrix.tasks@[i];
                &&& task.name == doc.tasks@[i].name
                &&& match doc.tasks@[i].prompt {
                    Some(prompt) => task.prompt@ == prompt@,
                    None => task.prompt@.len() == 0,
                }
                &&& match doc.tasks@[i].evals {
                    Some(evals) => task.evals@ == evals@,
                    None => task.evals@.len() == 0,
                }
            },
        match doc.agents {
            Some(agents) => matrix.agents@ == agents@,
            None => matrix.agents@.len() == 0,
        },
        match doc.providers {
            Some(docs) => matrix.providers@.len() == docs@.len() && forall|i: int|
                0 <= i < docs@.len() ==> {
                    let provider = #[trigger] matrix.providers@[i];
                    &&& provider.name == docs@[i].name
                    &&& provider.upstream == docs@[i].upstream
                    &&& provider.api_key_env == docs@[i].api_key_env
                    &&& match docs@[i].bind {
                        Some(bind) => provider.bind@ == bind@,
                        None => provider.bind@ == "127.0.0.1:0"@,
                    }
                    &&& provider.record_bodies == (docs@[i].record_bodies == Some(true))
                },
            None => matrix.providers@.len() == 0,
        },
{
    assert forall|i: int| 0 <= i < doc.tasks@.len() implies task_reads(
        #[trigger] matrix.tasks@[i],
        doc.tasks@[i],
    ) by {}
    if doc.providers is Some {
        assert forall|i: int| 0 <= i < matrix.providers@.len() implies provider_reads(
            #[trigger] matrix.providers@[i],
            doc.providers->0@[i],
        ) by {}
    }
}

/// In a part of a command the prompt stands in place of every `{prompt}` and the name of the task
/// in place of every `{task}`; a part without a brace is left as it is.
pub proof fn placeholders_are_filled(part: Seq<char>, task: BenchTask)
    ensures
        filled(part, task) == replaced(
            replaced(part, "{prompt}"@, task.prompt@),
            "{task}"@,
            task.name@,
        ),
        !part.contains('{') ==> filled(part, task) == part,
{
    reveal_strlit("{prompt}");
    reveal_strlit("{task}");
    if !part.contains('{') {
        assert forall|j: int| 0 <= j <= part.len() - "{prompt}"@.len() implies #[trigger] part.subrange(
            j,
            j + "{prompt}"@.len(),
        ) != "{prompt}"@ by {
            assert(part.subrange(j, j + "{prompt}"@.len())[0] == part[j]);
            assert(part.contains(part[j]));
        }
        nothing_to_replace(part, "{prompt}"@, task.prompt@);
        assert forall|j: int| 0 <= j <= part.len() - "{task}"@.len() implies #[trigger] part.subrange(
            j,
            j + "{task}"@.len(),
        ) != "{task}"@ by {
            assert(part.subrange(j, j + "{task}"@.len())[0] == part[j]);
            assert(part.contains(part[j]));
        }
        nothing_to_replace(part, "{task}"@, task.name@);
    }
}

/// The run of the task `t`, the agent `a`, the provider `p` and the repeat `k` has its place in the
/// plan: behind all runs of earlier tasks, behind those of earlier agents on the same task, behind
/// those of earlier providers, and behind the earlier repeats. The plan has no other runs.
pub proof fn every_run_has_its_place(d: Dims, t: int, a: int, p: int, k: int)
    requires
        0 <= t < d.tasks,
        0 <= a < d.agents,
        0 <= p < d.providers,
        1 <= k <= d.repeats,
    ensures
        all_slots(d).len() == d.tasks * d.agents * d.providers * d.repeats,
        ({
            let at = ((t * d.agents + a) * d.providers + p) * d.repeats + k - 1;
            &&& 0 <= at < all_slots(d).len()
            &&& all_slots(d)[at] == Slot { task: t, agent: a, provider: p, repeat: k }
        }),
        forall|i: int|
            0 <= i < all_slots(d).len() ==> {
                let slot = #[trigger] all_slots(d)[i];
                &&& 0 <= slot.task < d.tasks && 0 <= slot.agent < d.agents
                &&& 0 <= slot.provider < d.providers && 1 <= slot.repeat <= d.repeats
            },
        forall|i: int, j: int|
            0 <= i < j < all_slots(d).len() ==> #[trigger] all_slots(d)[i] != #[trigger] all_slots(
                d,
            )[j],
{
    every_combination_runs_once(d);
    let s = Slot { task: t, agent: a, provider: p, repeat: k };
    assert(in_matrix(d, s));
    assert(slot_index(d, s) == ((t * d.agents + a) * d.providers + p) * d.repeats + k - 1);
    assert forall|i: int, j: int| 0 <= i < j < all_slots(d).len() implies #[trigger] all_slots(d)[i]
        != #[trigger] all_slots(d)[j] by {
        assert(slot_index(d, all_slots(d)[i]) == i);
        assert(slot_index(d, all_slots(d)[j]) == j);
    }
}

/// A matrix combines the tasks that are run, all its agents and all its providers, or none where
/// it has none, as often as it says and at least once.
pub proof fn matrix_combines_everything(matrix: BenchMatrix, selected: Seq<int>)
    ensures
        ({
            let d = dims_of(matrix, selected);
            &&& d.tasks == selected.len()
            &&& d.agents == matrix.agents@.len()
            &&& matrix.providers@.len() > 0 ==> d.providers == matrix.providers@.len()
            &&& matrix.providers@.len() == 0 ==> d.providers == 1
            &&& matrix.repeats > 0 ==> d.repeats == matrix.repeats
            &&& matrix.repeats == 0 ==> d.repeats == 1
        }),
{
}

/// The tasks that are run are those with the name that is asked for, in order, and all of them
/// where none is asked for.
pub proof fn tasks_are_selected_by_name(tasks: Seq<BenchTask>, filter: Option<Seq<char>>, k: int)
    ensures
        filter is None && 0 <= k < tasks.len() ==> selected_tasks(tasks, filter).len()
            == tasks.len() && selected_tasks(tasks, filter)[k] == k,
        filter matches Some(name) ==> {
            &&& forall|i: int|
                0 <= i < selected_tasks(tasks, filter).len() ==> {
                    let at = #[trigger] selected_tasks(tasks, filter)[i];
                    0 <= at < tasks.len() && tasks[at].name@ == name
                }
            &&& 0 <= k < tasks.len() && tasks[k].name@ == name ==> selected_tasks(
                tasks,
                filter,
            ).contains(k)
        },
        forall|i: int, j: int|
            0 <= i < j < selected_tasks(tasks, filter).len() ==> #[trigger] selected_tasks(
                tasks,
                filter,
            )[i] < #[trigger] selected_tasks(tasks, filter)[j],
    decreases tasks.len(),
{
    filter_selects_tasks(tasks, filter);
    if filter is None && 0 <= k < tasks.len() {
        filter_selects_tasks(tasks.drop_last(), filter);
        if k < tasks.len() - 1 {
            tasks_are_selected_by_name(tasks.drop_last(), filter, k);
        }
    }
    if filter is Some && 0 <= k < tasks.len() && tasks[k].name@ == filter->0 {
        assert(passes_filter(tasks[k], filter));
    }
}

/// A run of a matrix asks for the capture of its task with the command of its agent, filled in for
/// the task, with the evals of the task, through a proxy to its provider where the matrix has
/// providers.
pub proof fn run_asks_for_its_capture(
    request: CaptureRequest,
    matrix: BenchMatrix,
    selected: Seq<int>,
    slot: Slot,
)
    requires
        is_request(request, matrix, selected, slot),
    ensures
        ({
            let task = matrix.tasks@[selected[slot.task]];
            let agent = matrix.agents@[slot.agent];
            &&& request.task == task.name
            &&& request.command@.len() == agent.command@.len()
            &&& forall|i: int|
                0 <= i < agent.command@.len() ==> (#[trigger] request.command@[i])@ == filled(
                    agent.command@[i]@,
                    task,
                )
            &&& request.eval_commands@ == task.evals@
            &&& request.allow_dirty == matrix.allow_dirty
            &&& matrix.providers@.len() == 0 ==> request.proxy is None && request.agent@
                == agent.name@
            &&& matrix.providers@.len() > 0 ==> {
                let provider = matrix.providers@[slot.provider];
                &&& request.agent@ == agent.name@ + "@"@ + provider.name@
                &&& request.proxy matches Some(config) && {
                    &&& config.bind == provider.bind
                    &&& config.upstream == provider.upstream
                    &&& config.api_key_env == provider.api_key_env
                    &&& config.record_bodies == provider.record_bodies
                    &&& config.fail_on_llm_error == matrix.fail_on_llm_error
                }
            }
        }),
{
}

/// A cell names its task, its agent with the provider, its provider and its repeat, and tells the
/// id, the status and the time of the run that was captured, or the error where none was.
pub proof fn cell_tells_its_run(
    cell: BenchCell,
    matrix: BenchMatrix,
    selected: Seq<int>,
    slot: Slot,
    outcome: Result<RunRecord, LedgerError>,
)
    requires
        names_run(cell, matrix, selected, slot),
        tells_outcome(cell, outcome),
    ensures
        cell.task == matrix.tasks@[selected[slot.task]].name,
        cell.repeat == slot.repeat,
        matrix.providers@.len() == 0 ==> cell.provider is None && cell.agent@
            == matrix.agents@[slot.agent].name@,
        matrix.providers@.len() > 0 ==> {
            let provider = matrix.providers@[slot.provider];
            &&& cell.provider == Some(provider.name)
            &&& cell.agent@ == matrix.agents@[slot.agent].name@ + "@"@ + provider.name@
        },
        match outcome {
            Ok(record) => {
                &&& cell.run_id == Some(record.id)
                &&& cell.status == record.status
                &&& cell.duration_ms == Some(record.duration_ms)
                &&& cell.error is None
            },
            Err(err) => {
                &&& cell.run_id is None
                &&& cell.status@ == "error"@
                &&& cell.duration_ms is None
                &&& cell.error matches Some(text) && text@ == err.prefix() + err.detail()
            },
        },
{
}

} // verus!

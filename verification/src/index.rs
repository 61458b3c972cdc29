//! The SQLite index of a ledger: the rows that runs and LLM calls are kept in, what brings the
//! index up to date, and how rows are shown.
use crate::bytes::{lossy_text, utf8_lossy};
use crate::json::{array, bool_in, boolean_of, field_of, get_in, integer, is_null, json, json_entries, json_option, members, null, number_at, number_in, object, parse, parse_result, parsed, render, rendered, string, text_at, text_in, u64_in, unsigned_of, Json};
use crate::layout::{below, join_path, ledger_dir, ledger_dir_of};
use crate::ledger::{latest, lemma_run_index, run_index, runs_are_distinct, LedgerEvent};
use crate::record::{eval_outcome, eval_status, EvalRecord, RunRecord};
use crate::scan::{catching_up_equals_rebuilding, pass, NewLine, Scan};
use crate::text::{concat3, decimal, decimal_u128, view_option};
use vstd::prelude::*;
use vstd::string::*;
use vstd::utf8::encode_utf8;

verus! {

/// The version of the tables. The first had no prompts of LLM calls.
pub const DB_SCHEMA_VERSION: i32 = 2;

/// What a synchronisation did.
#[derive(Debug, PartialEq, Eq)]
pub struct SyncReport {
    pub runs_upserted: u64,
    pub llm_calls_upserted: u64,
    pub db_path: String,
}

/// Which runs are listed, and how many at most.
#[derive(Debug, PartialEq, Eq)]
pub struct RunFilters<'a> {
    pub task: Option<&'a str>,
    pub agent: Option<&'a str>,
    pub status: Option<&'a str>,
    pub since: Option<&'a str>,
    pub limit: i64,
}

/// The path of the index.
pub open spec fn db_path_of(root: Seq<char>, windows: bool) -> Seq<char> {
    below(ledger_dir_of(root, windows), "ledger.db"@, windows)
}

/// The path of the index.
pub fn db_path(root: &str, windows: bool) -> (r: String)
    ensures
        r@ == db_path_of(root@, windows),
{
    let dir = ledger_dir(root, windows);
    join_path(dir.as_str(), "ledger.db", windows)
}

/// Whether an index whose tables have a version is to be rebuilt with those of this one. An index
/// that has no tables yet has version zero.
pub fn needs_schema(version: i32) -> (r: bool)
    ensures
        r == (version < DB_SCHEMA_VERSION),
{
    version < DB_SCHEMA_VERSION
}

// ---------------------------------------------------------------------------
// Offsets

/// The offset that an index keeps for a file, which is zero where it keeps none.
pub fn stored_offset(value: Option<i64>) -> (r: u64)
    ensures
        r == (match value {
            Some(v) => v as u64,
            None => 0u64,
        }),
{
    match value {
        Some(v) => v as u64,
        None => 0,
    }
}

/// The form in which an index keeps an offset.
pub fn offset_value(offset: u64) -> (r: i64)
    ensures
        r == offset as i64,
{
    offset as i64
}

/// An offset is read from the index as it was written.
pub proof fn offsets_survive_storage(offset: u64)
    ensures
        (offset as i64) as u64 == offset,
{
    assert((offset as i64) as u64 == offset) by (bit_vector);
}

// ---------------------------------------------------------------------------
// Runs

/// An eval of a run.
#[derive(Debug, PartialEq, Eq)]
pub struct EvalRow {
    pub idx: i64,
    pub command: String,
    pub status: String,
    pub exit_code: Option<i32>,
    pub duration_ms: i64,
    pub stdout_preview: String,
    pub stderr_preview: String,
}

/// A run, with its evals and with the text of the whole record.
#[derive(Debug, PartialEq, Eq)]
pub struct RunRow {
    pub id: String,
    pub task: String,
    pub agent: String,
    pub status: String,
    pub started_at: String,
    pub ended_at: String,
    pub duration_ms: i64,
    pub exit_code: Option<i32>,
    pub repo: String,
    pub source_precision: String,
    pub git_is_repo: bool,
    pub git_base_commit: Option<String>,
    pub git_dirty_before: bool,
    pub git_dirty_after: bool,
    pub llm_error_calls: i64,
    pub eval_count: i64,
    pub eval_status: String,
    pub stdout_path: String,
    pub stderr_path: String,
    pub stdout_preview: String,
    pub stderr_preview: String,
    pub raw: String,
    pub evals: Vec<EvalRow>,
}

/// Whether `row` is the row of the eval at index `i` of a run.
pub open spec fn is_eval_row(row: EvalRow, eval: EvalRecord, i: int) -> bool {
    &&& row.idx == i as i64
    &&& row.command == eval.command
    &&& row.status == eval.status
    &&& row.exit_code == eval.exit_code
    &&& row.duration_ms == eval.duration_ms as i64
    &&& row.stdout_preview == eval.stdout_preview
    &&& row.stderr_preview == eval.stderr_preview
}

/// Whether `row` is the row of a run.
pub open spec fn is_run_row(row: RunRow, run: RunRecord, raw: String) -> bool {
    &&& row.id == run.id
    &&& row.task == run.task
    &&& row.agent == run.agent
    &&& row.status == run.status
    &&& row.started_at == run.started_at
    &&& row.ended_at == run.ended_at
    &&& row.duration_ms == run.duration_ms as i64
    &&& row.exit_code == run.exit_code
    &&& row.repo == run.repo
    &&& row.source_precision == run.source_precision
    &&& row.git_is_repo == run.git.is_git_repo
    &&& row.git_base_commit == run.git.base_commit
    &&& row.git_dirty_before == run.git.dirty_before
    &&& row.git_dirty_after == run.git.dirty_after
    &&& row.llm_error_calls == run.llm_error_calls as i64
    &&& row.eval_count == run.evals@.len() as i64
    &&& row.eval_status@ == eval_outcome(run.evals@)
    &&& row.stdout_path == run.stdout_path
    &&& row.stderr_path == run.stderr_path
    &&& row.stdout_preview == run.stdout_preview
    &&& row.stderr_preview == run.stderr_preview
    &&& row.raw == raw
    &&& row.evals@.len() == run.evals@.len()
    &&& forall|i: int|
        0 <= i < run.evals@.len() ==> is_eval_row(#[trigger] row.evals@[i], run.evals@[i], i)
}

/// The row of a run, which takes the place of the row with the same id.
pub fn upsert_run(run: RunRecord, raw: String) -> (r: RunRow)
    ensures
        is_run_row(r, run, raw),
{
    let outcome = eval_status(&run.evals).to_owned();
    let eval_count = run.evals.len() as i64;
    let ghost evals = run.evals@;
    let mut rows: Vec<EvalRow> = Vec::new();
    for eval in it: run.evals
        invariant
            it.seq() == evals,
            rows@.len() == it.index(),
            forall|i: int| 0 <= i < it.index() ==> is_eval_row(#[trigger] rows@[i], evals[i], i),
    {
        let idx = rows.len() as i64;
        rows.push(
            EvalRow {
                idx,
                command: eval.command,
                status: eval.status,
                exit_code: eval.exit_code,
                duration_ms: eval.duration_ms as i64,
                stdout_preview: eval.stdout_preview,
                stderr_preview: eval.stderr_preview,
            },
        );
    }
    RunRow {
        id: run.id,
        task: run.task,
        agent: run.agent,
        status: run.status,
        started_at: run.started_at,
        ended_at: run.ended_at,
        duration_ms: run.duration_ms as i64,
        exit_code: run.exit_code,
        repo: run.repo,
        source_precision: run.source_precision,
        git_is_repo: run.git.is_git_repo,
        git_base_commit: run.git.base_commit,
        git_dirty_before: run.git.dirty_before,
        git_dirty_after: run.git.dirty_after,
        llm_error_calls: run.llm_error_calls as i64,
        eval_count,
        eval_status: outcome,
        stdout_path: run.stdout_path,
        stderr_path: run.stderr_path,
        stdout_preview: run.stdout_preview,
        stderr_preview: run.stderr_preview,
        raw,
        evals: rows,
    }
}

// ---------------------------------------------------------------------------
// LLM calls

/// An LLM call. Amounts stand as the texts of their numbers, bodies as JSON texts.
#[derive(Debug, PartialEq, Eq)]
pub struct CallRow {
    pub id: String,
    pub run_id: Option<String>,
    pub timestamp: Option<String>,
    pub endpoint: Option<String>,
    pub model: Option<String>,
    pub prompt: Option<String>,
    pub status: Option<i64>,
    pub duration_ms: Option<i64>,
    pub source_precision: Option<String>,
    pub request_stream: Option<bool>,
    pub input_tokens: Option<i64>,
    pub output_tokens: Option<i64>,
    pub total_tokens: Option<i64>,
    pub cached_tokens: Option<i64>,
    pub reasoning_tokens: Option<i64>,
    pub cost_usd: Option<String>,
    pub ttft_ms: Option<i64>,
    pub output_tokens_per_second: Option<String>,
    pub upstream_base: Option<String>,
    pub request_body: Option<String>,
    pub response_body: Option<String>,
}

/// The text of a member.
pub open spec fn text_member(value: Json, name: Seq<char>) -> Option<Seq<char>> {
    text_in(value.field(name))
}

/// The form in which an index keeps a count that may be absent.
pub open spec fn count_value(count: Option<u64>) -> Option<i64> {
    match count {
        Some(n) => Some(n as i64),
        None => None,
    }
}

/// A count of the metrics of a call.
pub open spec fn metric(call: Json, name: Seq<char>) -> Option<i64> {
    count_value(unsigned_of(field_of(call.field("metrics"@), name)))
}

/// A recorded body, unless it is null.
pub open spec fn body_of(call: Json, name: Seq<char>) -> Option<Seq<char>> {
    match call.field(name) {
        Some(body) => if body is Null {
            None
        } else {
            Some(rendered(body))
        },
        None => None,
    }
}

/// The id of a call; one without an id goes by `fallback`.
pub open spec fn call_id(call: Json, fallback: Seq<char>) -> Seq<char> {
    match text_member(call, "id"@) {
        Some(id) => id,
        None => fallback,
    }
}

/// Whether `row` is the row of a call; a call without an id goes by `fallback`.
pub open spec fn is_call_row(row: CallRow, call: Json, fallback: Seq<char>) -> bool {
    let metrics = call.field("metrics"@);
    &&& row.id@ == call_id(call, fallback)
    &&& view_option(row.run_id) == text_member(call, "run_id"@)
    &&& view_option(row.timestamp) == text_member(call, "timestamp"@)
    &&& view_option(row.endpoint) == text_member(call, "endpoint"@)
    &&& view_option(row.model) == text_member(call, "model"@)
    &&& view_option(row.prompt) == text_member(call, "prompt"@)
    &&& row.status == count_value(unsigned_of(call.field("status"@)))
    &&& row.duration_ms == count_value(unsigned_of(call.field("duration_ms"@)))
    &&& view_option(row.source_precision) == text_member(call, "source_precision"@)
    &&& row.request_stream == boolean_of(call.field("request_stream"@))
    &&& row.input_tokens == metric(call, "input_tokens"@)
    &&& row.output_tokens == metric(call, "output_tokens"@)
    &&& row.total_tokens == metric(call, "total_tokens"@)
    &&& row.cached_tokens == metric(call, "cached_tokens"@)
    &&& row.reasoning_tokens == metric(call, "reasoning_tokens"@)
    &&& view_option(row.cost_usd) == number_in(field_of(metrics, "cost_usd"@))
    &&& row.ttft_ms == metric(call, "ttft_ms"@)
    &&& view_option(row.output_tokens_per_second) == number_in(
        field_of(metrics, "output_tokens_per_second"@),
    )
    &&& view_option(row.upstream_base) == text_member(call, "upstream_base"@)
    &&& view_option(row.request_body) == body_of(call, "request_body"@)
    &&& view_option(row.response_body) == body_of(call, "response_body"@)
}

/// The form in which an index keeps a count of the metrics of a call.
fn count_in(value: Option<&serde_json::Value>, name: &str) -> (r: Option<i64>)
    ensures
        r == count_value(unsigned_of(field_of(json_option(value), name@))),
{
    match u64_in(value, name) {
        Some(n) => Some(n as i64),
        None => None,
    }
}

/// A recorded body, unless it is null.
fn body_text(call: &serde_json::Value, name: &str) -> (r: Option<String>)
    ensures
        view_option(r) == body_of(json(*call), name@),
{
    match get_in(Some(call), name) {
        Some(body) => if is_null(body) {
            None
        } else {
            Some(render(body))
        },
        None => None,
    }
}

/// The row of an LLM call, which takes the place of the row with the same id.
pub fn upsert_llm_call(call: &serde_json::Value, fallback_id: &str) -> (r: CallRow)
    ensures
        is_call_row(r, json(*call), fallback_id@),
{
    let all = Some(call);
    let metrics = get_in(all, "metrics");
    let id = match text_at(all, "id") {
        Some(id) => id,
        None => fallback_id.to_owned(),
    };
    CallRow {
        id,
        run_id: text_at(all, "run_id"),
        timestamp: text_at(all, "timestamp"),
        endpoint: text_at(all, "endpoint"),
        model: text_at(all, "model"),
        prompt: text_at(all, "prompt"),
        status: count_in(all, "status"),
        duration_ms: count_in(all, "duration_ms"),
        source_precision: text_at(all, "source_precision"),
        request_stream: bool_in(all, "request_stream"),
        input_tokens: count_in(metrics, "input_tokens"),
        output_tokens: count_in(metrics, "output_tokens"),
        total_tokens: count_in(metrics, "total_tokens"),
        cached_tokens: count_in(metrics, "cached_tokens"),
        reasoning_tokens: count_in(metrics, "reasoning_tokens"),
        cost_usd: number_at(metrics, "cost_usd"),
        ttft_ms: count_in(metrics, "ttft_ms"),
        output_tokens_per_second: number_at(metrics, "output_tokens_per_second"),
        upstream_base: text_at(all, "upstream_base"),
        request_body: body_text(call, "request_body"),
        response_body: body_text(call, "response_body"),
    }
}

/// The id of a call that has none: it tells where in the file the call stands.
pub open spec fn offset_id(offset: int) -> Seq<char> {
    "offset-"@ + decimal(offset as nat)
}

/// Whether `row` is the row of the call that a line of the file holds.
pub open spec fn is_row_of_line(row: CallRow, line: (Seq<char>, int)) -> bool {
    match parsed(encode_utf8(line.0)) {
        Some(call) => is_call_row(row, call, offset_id(line.1)),
        None => false,
    }
}

/// The row of the LLM call that a line of the file holds, or why it is not JSON.
pub fn read_call(line: &NewLine) -> (r: Result<CallRow, String>)
    ensures
        match r {
            Ok(row) => is_row_of_line(row, (line.text@, line.offset as int)),
            Err(detail) => parse_result(encode_utf8(line.text@)) == Err::<Json, Seq<char>>(
                detail@,
            ),
        },
{
    match parse(line.text.as_str().as_bytes()) {
        Ok(call) => {
            let mut fallback = "offset-".to_owned();
            fallback.append(decimal_u128(line.offset as u128).as_str());
            Ok(upsert_llm_call(&call, fallback.as_str()))
        },
        Err(detail) => Err(detail),
    }
}

// ---------------------------------------------------------------------------
// Synchronisation

/// Where the next scan begins, or why there is none.
pub fn scan_end(scan: &Scan) -> (r: Result<u64, String>)
    ensures
        match r {
            Ok(end) => scan.end == Some(end),
            Err(m) => scan.end is None && m@ == "stream did not contain valid UTF-8"@,
        },
{
    match scan.end {
        Some(end) => Ok(end),
        None => Err("stream did not contain valid UTF-8".to_owned()),
    }
}

/// The runs of the events that are new, each with the text of its record, and where the events
/// after them will begin.
#[derive(Debug, PartialEq, Eq)]
pub struct EventBatch {
    pub runs: Vec<(RunRecord, String)>,
    pub end: u64,
}

/// What brings an index up to date: the rows to write, in order, the offsets to keep for the
/// files in which something was new, and what is reported.
#[derive(Debug, PartialEq, Eq)]
pub struct SyncPlan {
    pub runs: Vec<RunRow>,
    pub calls: Vec<CallRow>,
    pub events_offset: Option<i64>,
    pub calls_offset: Option<i64>,
    pub report: SyncReport,
}

/// The runs of the events that are new.
pub open spec fn batch_runs(events: Option<EventBatch>) -> Seq<(RunRecord, String)> {
    match events {
        Some(batch) => batch.runs@,
        None => seq![],
    }
}

/// The lines of the calls that are new.
pub open spec fn call_lines(calls: Option<&Scan>) -> Seq<(Seq<char>, int)> {
    match calls {
        Some(scan) => scan@.lines,
        None => seq![],
    }
}

/// Whether the line at index `i` is the first that is not JSON, and `detail` is what is told of
/// it.
pub open spec fn is_first_bad(lines: Seq<(Seq<char>, int)>, i: int, detail: Seq<char>) -> bool {
    &&& 0 <= i < lines.len()
    &&& parse_result(encode_utf8(lines[i].0)) == Err::<Json, Seq<char>>(detail)
    &&& forall|j: int|
        0 <= j < i ==> parsed(encode_utf8((#[trigger] lines[j]).0)) is Some
}

/// Whether `detail` is what is told of the first line that is not JSON.
pub open spec fn tells_first_bad(lines: Seq<(Seq<char>, int)>, detail: Seq<char>) -> bool {
    exists|i: int| #[trigger] is_first_bad(lines, i, detail)
}

/// Whether every new call can be read.
pub open spec fn calls_are_readable(calls: Option<&Scan>) -> bool {
    &&& calls matches Some(scan) ==> scan.end is Some
    &&& lines_are_json(call_lines(calls))
}

/// Whether every line is JSON.
pub open spec fn lines_are_json(lines: Seq<(Seq<char>, int)>) -> bool {
    forall|i: int|
        0 <= i < lines.len() ==> parsed(encode_utf8((#[trigger] lines[i]).0)) is Some
}

/// Whether `plan` brings an index up to date with the new events and calls.
pub open spec fn is_plan(
    plan: SyncPlan,
    path: Seq<char>,
    events: Option<EventBatch>,
    calls: Option<&Scan>,
) -> bool {
    let runs = batch_runs(events);
    let lines = call_lines(calls);
    &&& plan.runs@.len() == runs.len()
    &&& forall|i: int|
        0 <= i < runs.len() ==> is_run_row(#[trigger] plan.runs@[i], runs[i].0, runs[i].1)
    &&& are_rows_of_lines(plan.calls@, lines)
    &&& plan.events_offset == (match events {
        Some(batch) => Some(batch.end as i64),
        None => None,
    })
    &&& plan.calls_offset == (match calls {
        Some(scan) => count_value(scan.end),
        None => None,
    })
    &&& plan.report.runs_upserted == runs.len()
    &&& plan.report.llm_calls_upserted == lines.len()
    &&& plan.report.db_path@ == path
}

fn run_rows(runs: Vec<(RunRecord, String)>) -> (r: Vec<RunRow>)
    ensures
        r@.len() == runs@.len(),
        forall|i: int|
            0 <= i < runs@.len() ==> is_run_row(#[trigger] r@[i], runs@[i].0, runs@[i].1),
{
    let ghost all = runs@;
    let mut rows: Vec<RunRow> = Vec::new();
    for entry in it: runs
        invariant
            it.seq() == all,
            rows@.len() == it.index(),
            forall|i: int|
                0 <= i < it.index() ==> is_run_row(#[trigger] rows@[i], all[i].0, all[i].1),
    {
        rows.push(upsert_run(entry.0, entry.1));
    }
    rows
}

fn call_rows(scan: &Scan) -> (r: Result<Vec<CallRow>, String>)
    ensures
        match r {
            Ok(rows) => are_rows_of_lines(rows@, scan@.lines),
            Err(detail) => tells_first_bad(scan@.lines, detail@),
        },
{
    let mut rows: Vec<CallRow> = Vec::new();
    let n: usize = scan.lines.len();
    for i in 0..n
        invariant
            n == scan.lines@.len(),
            rows@.len() == i,
            forall|j: int| 0 <= j < i ==> is_row_of_line(#[trigger] rows@[j], scan@.lines[j]),
    {
        assert(scan@.lines[i as int] == (
            scan.lines@[i as int].text@,
            scan.lines@[i as int].offset as int,
        ));
        match read_call(&scan.lines[i]) {
            Ok(row) => rows.push(row),
            Err(detail) => {
                assert forall|j: int| 0 <= j < i implies parsed(
                    encode_utf8((#[trigger] scan@.lines[j]).0),
                ) is Some by {
                    assert(is_row_of_line(rows@[j], scan@.lines[j]));
                }
                assert(is_first_bad(scan@.lines, i as int, detail@));
                return Err(detail);
            },
        }
    }
    Ok(rows)
}

/// What brings the index of a ledger up to date with what was appended to its files; a file in
/// which nothing is new is absent. Nothing is written where one of the calls cannot be read.
pub fn sync(
    root: &str,
    windows: bool,
    events: Option<EventBatch>,
    calls: Option<&Scan>,
) -> (r: Result<SyncPlan, String>)
    ensures
        match r {
            Ok(plan) => calls_are_readable(calls) && is_plan(
                plan,
                db_path_of(root@, windows),
                events,
                calls,
            ),
            Err(detail) => {
                &&& !calls_are_readable(calls)
                &&& if lines_are_json(call_lines(calls)) {
                    detail@ == "stream did not contain valid UTF-8"@
                } else {
                    tells_first_bad(call_lines(calls), detail@)
                }
            },
        },
{
    let (rows, calls_offset) = match calls {
        Some(scan) => {
            let rows = match call_rows(scan) {
                Ok(rows) => rows,
                Err(detail) => {
                    assert(call_lines(calls) == scan@.lines);
                    assert(!lines_are_json(scan@.lines)) by {
                        let i = choose|i: int|
                            #[trigger] is_first_bad(scan@.lines, i, detail@);
                        assert(parsed(encode_utf8(scan@.lines[i].0)) is None);
                    }
                    return Err(detail);
                },
            };
            assert forall|i: int| 0 <= i < scan@.lines.len() implies parsed(
                encode_utf8((#[trigger] scan@.lines[i]).0),
            ) is Some by {
                assert(is_row_of_line(rows@[i], scan@.lines[i]));
            }
            let end = match scan_end(scan) {
                Ok(end) => end,
                Err(detail) => return Err(detail),
            };
            (rows, Some(offset_value(end)))
        },
        None => (Vec::new(), None),
    };
    let (runs, events_offset) = match events {
        Some(batch) => (run_rows(batch.runs), Some(offset_value(batch.end))),
        None => (Vec::new(), None),
    };
    let report = SyncReport {
        runs_upserted: runs.len() as u64,
        llm_calls_upserted: rows.len() as u64,
        db_path: db_path(root, windows),
    };
    Ok(SyncPlan { runs, calls: rows, events_offset, calls_offset, report })
}

/// Where nothing is new there is nothing to write.
pub proof fn nothing_new_is_nothing_to_write(plan: SyncPlan, path: Seq<char>)
    requires
        is_plan(plan, path, None, None),
    ensures
        plan.runs@.len() == 0,
        plan.calls@.len() == 0,
        plan.events_offset is None,
        plan.calls_offset is None,
        plan.report.runs_upserted == 0,
        plan.report.llm_calls_upserted == 0,
{
}

/// Catching up with the calls that were appended to a file writes the rows that indexing the
/// whole file writes.
pub proof fn catching_up_writes_the_same_rows(
    a: Seq<u8>,
    b: Seq<u8>,
    first: SyncPlan,
    second: SyncPlan,
    whole: SyncPlan,
    scans: (Option<&Scan>, Option<&Scan>, Option<&Scan>),
    events: (Option<EventBatch>, Option<EventBatch>, Option<EventBatch>),
    path: Seq<char>,
)
    requires
        pass(a, 0).end is Some,
        call_lines(scans.0) == pass(a, 0).lines,
        call_lines(scans.1) == pass(a + b, pass(a, 0).end->0).lines,
        call_lines(scans.2) == pass(a + b, 0).lines,
        is_plan(first, path, events.0, scans.0),
        is_plan(second, path, events.1, scans.1),
        is_plan(whole, path, events.2, scans.2),
    ensures
        whole.calls@.len() == first.calls@.len() + second.calls@.len(),
        whole.report.llm_calls_upserted == first.report.llm_calls_upserted
            + second.report.llm_calls_upserted,
        forall|i: int|
            0 <= i < first.calls@.len() ==> same_call(
                #[trigger] first.calls@[i],
                whole.calls@[i],
            ),
        forall|i: int|
            0 <= i < second.calls@.len() ==> same_call(
                #[trigger] second.calls@[i],
                whole.calls@[first.calls@.len() + i],
            ),
{
    catching_up_equals_rebuilding(a, b);
    let lines = call_lines(scans.2);
    let n = first.calls@.len() as int;
    assert forall|i: int| 0 <= i < n implies same_call(
        #[trigger] first.calls@[i],
        whole.calls@[i],
    ) by {
        assert(lines[i] == call_lines(scans.0)[i]);
        assert(is_row_of_line(whole.calls@[i], lines[i]));
    }
    assert forall|i: int| 0 <= i < second.calls@.len() implies same_call(
        #[trigger] second.calls@[i],
        whole.calls@[n + i],
    ) by {
        assert(lines[n + i] == call_lines(scans.1)[i]);
        assert(is_row_of_line(whole.calls@[n + i], lines[n + i]));
    }
}

/// An index that caught up with the calls that were appended to a file holds the calls that an
/// index of the whole file holds.
pub proof fn catching_up_gives_the_same_calls(
    a: Seq<u8>,
    b: Seq<u8>,
    first: Seq<CallRow>,
    second: Seq<CallRow>,
    whole: Seq<CallRow>,
)
    requires
        pass(a, 0).end is Some,
        are_rows_of_lines(first, pass(a, 0).lines),
        are_rows_of_lines(second, pass(a + b, pass(a, 0).end->0).lines),
        are_rows_of_lines(whole, pass(a + b, 0).lines),
    ensures
        call_table(first + second).dom() == call_table(whole).dom(),
        forall|id: Seq<char>| #[trigger]
            call_table(whole).contains_key(id) ==> same_call(
                call_table(first + second)[id],
                call_table(whole)[id],
            ),
{
    catching_up_equals_rebuilding(a, b);
    let lines = pass(a + b, 0).lines;
    let rows = first + second;
    assert forall|i: int| 0 <= i < rows.len() implies is_row_of_line(
        #[trigger] rows[i],
        lines[i],
    ) by {
        if i < first.len() {
            assert(rows[i] == first[i]);
        } else {
            assert(rows[i] == second[i - first.len()]);
        }
    }
    index_holds_every_call(lines, rows);
    index_holds_every_call(lines, whole);
    assert forall|id: Seq<char>| #[trigger] call_table(whole).contains_key(id) implies call_table(
        rows,
    ).contains_key(id) && same_call(call_table(rows)[id], call_table(whole)[id]) by {
        let i = choose|i: int| is_line_under(lines, i, id);
        assert(is_line_under(lines, i, id));
        assert(is_row_of_line(call_table(rows)[id], lines[i]));
        assert(is_row_of_line(call_table(whole)[id], lines[i]));
    }
    assert forall|id: Seq<char>| #[trigger] call_table(rows).contains_key(id) implies call_table(
        whole,
    ).contains_key(id) by {
        let i = choose|i: int| is_line_under(lines, i, id);
        assert(is_line_under(lines, i, id));
    }
    assert(call_table(rows).dom() =~= call_table(whole).dom());
}

/// Whether some rows are those of the calls that lines of the file hold, in order.
pub open spec fn are_rows_of_lines(rows: Seq<CallRow>, lines: Seq<(Seq<char>, int)>) -> bool {
    &&& rows.len() == lines.len()
    &&& forall|i: int| 0 <= i < rows.len() ==> is_row_of_line(#[trigger] rows[i], lines[i])
}

/// Whether two rows are the rows of one call.
pub open spec fn same_call(x: CallRow, y: CallRow) -> bool {
    exists|line: (Seq<char>, int)| #[trigger] is_row_of_line(x, line) && is_row_of_line(y, line)
}

/// The id of the call that a line of the file holds.
pub open spec fn line_id(line: (Seq<char>, int)) -> Seq<char> {
    call_id(parsed(encode_utf8(line.0))->0, offset_id(line.1))
}

/// Whether no line after the one at `i` holds a call with the same id.
pub open spec fn is_last_of_id(lines: Seq<(Seq<char>, int)>, i: int) -> bool {
    forall|j: int| i < j < lines.len() ==> line_id(#[trigger] lines[j]) != line_id(lines[i])
}

/// Whether the line at `i` holds the call that stands under an id: the last one with that id.
pub open spec fn is_line_under(lines: Seq<(Seq<char>, int)>, i: int, id: Seq<char>) -> bool {
    0 <= i < lines.len() && line_id(lines[i]) == id && is_last_of_id(lines, i)
}

/// The LLM calls of an index, by their ids, after rows were written one after the other: a row
/// takes the place of the row with the same id.
pub open spec fn call_table(rows: Seq<CallRow>) -> Map<Seq<char>, CallRow>
    decreases rows.len(),
{
    if rows.len() == 0 {
        Map::empty()
    } else {
        call_table(rows.drop_last()).insert(rows.last().id@, rows.last())
    }
}

/// The index holds a row for the call of every line, under its id, and nothing else; of two lines
/// with one id the later one stands.
pub proof fn index_holds_every_call(lines: Seq<(Seq<char>, int)>, rows: Seq<CallRow>)
    requires
        are_rows_of_lines(rows, lines),
    ensures
        forall|i: int|
            0 <= i < lines.len() ==> call_table(rows).contains_key(line_id(#[trigger] lines[i])),
        forall|i: int|
            0 <= i < lines.len() && #[trigger] is_last_of_id(lines, i) ==> is_row_of_line(
                call_table(rows)[line_id(lines[i])],
                lines[i],
            ),
        forall|id: Seq<char>| #[trigger]
            call_table(rows).contains_key(id) ==> exists|i: int| is_line_under(lines, i, id),
    decreases lines.len(),
{
    if lines.len() > 0 {
        let n = lines.len() - 1;
        let old_lines = lines.drop_last();
        let old_rows = rows.drop_last();
        assert forall|i: int| 0 <= i < old_rows.len() implies is_row_of_line(
            #[trigger] old_rows[i],
            old_lines[i],
        ) by {
            assert(old_rows[i] == rows[i]);
        }
        index_holds_every_call(old_lines, old_rows);
        assert(is_row_of_line(rows[n], lines[n]));
        assert(rows.last().id@ == line_id(lines[n]));
        assert forall|i: int| 0 <= i < lines.len() implies call_table(rows).contains_key(
            line_id(#[trigger] lines[i]),
        ) by {
            if i < n {
                assert(old_lines[i] == lines[i]);
            }
        }
        assert forall|i: int|
            0 <= i < lines.len() && #[trigger] is_last_of_id(lines, i) implies is_row_of_line(
            call_table(rows)[line_id(lines[i])],
            lines[i],
        ) by {
            if i < n {
                assert(old_lines[i] == lines[i]);
                assert(line_id(lines[n]) != line_id(lines[i]));
                assert(is_last_of_id(old_lines, i)) by {
                    assert forall|j: int| i < j < old_lines.len() implies line_id(
                        #[trigger] old_lines[j],
                    ) != line_id(old_lines[i]) by {
                        assert(old_lines[j] == lines[j]);
                    }
                }
            }
        }
        assert forall|id: Seq<char>| #[trigger] call_table(rows).contains_key(id) implies exists|
            i: int,
        | is_line_under(lines, i, id) by {
            if id == line_id(lines[n]) {
                assert(is_line_under(lines, n, id));
            } else {
                assert(call_table(old_rows).contains_key(id));
                let i = choose|i: int| is_line_under(old_lines, i, id);
                assert(is_line_under(old_lines, i, id));
                assert(lines[i] == old_lines[i]);
                assert forall|j: int| i < j < lines.len() implies line_id(#[trigger] lines[j])
                    != line_id(lines[i]) by {
                    if j < n {
                        assert(old_lines[j] == lines[j]);
                    }
                }
                assert(is_line_under(lines, i, id));
            }
        }
    }
}

/// The runs of an index, by their ids, after rows were written one after the other: a row takes
/// the place of the row with the same id.
pub open spec fn run_table(rows: Seq<RunRow>) -> Map<Seq<char>, RunRow>
    decreases rows.len(),
{
    if rows.len() == 0 {
        Map::empty()
    } else {
        run_table(rows.drop_last()).insert(rows.last().id@, rows.last())
    }
}

/// The index of a ledger holds the latest version of every run, and nothing else.
pub proof fn index_holds_latest_versions(events: Seq<LedgerEvent>, rows: Seq<RunRow>)
    requires
        rows.len() == events.len(),
        forall|i: int|
            0 <= i < rows.len() ==> is_run_row(#[trigger] rows[i], events[i].run, rows[i].raw),
    ensures
        forall|i: int|
            0 <= i < latest(events).len() ==> {
                let run = #[trigger] latest(events)[i];
                let row = run_table(rows)[run.id@];
                run_table(rows).contains_key(run.id@) && is_run_row(row, run, row.raw)
            },
        forall|id: Seq<char>| #[trigger]
            run_table(rows).contains_key(id) ==> run_index(latest(events), id) < latest(
                events,
            ).len(),
    decreases events.len(),
{
    if events.len() > 0 {
        let old_events = events.drop_last();
        let old_rows = rows.drop_last();
        let last = events.last().run;
        let before = latest(old_events);
        let now = latest(events);
        assert forall|i: int| 0 <= i < old_rows.len() implies is_run_row(
            #[trigger] old_rows[i],
            old_events[i].run,
            old_rows[i].raw,
        ) by {
            assert(old_rows[i] == rows[i]);
        }
        index_holds_latest_versions(old_events, old_rows);
        runs_are_distinct(old_events);
        lemma_run_index(before, last.id@);
        let k = run_index(before, last.id@);
        assert(is_run_row(rows.last(), last, rows.last().raw));
        assert forall|i: int| 0 <= i < now.len() implies {
            let run = #[trigger] now[i];
            let row = run_table(rows)[run.id@];
            run_table(rows).contains_key(run.id@) && is_run_row(row, run, row.raw)
        } by {
            if i != k {
                assert(now[i] == before[i]);
                assert(before[i].id@ != last.id@);
            } else {
                assert(now[i] == last);
            }
        }
        assert forall|id: Seq<char>| #[trigger]
            run_table(rows).contains_key(id) implies run_index(now, id) < now.len() by {
            lemma_run_index(now, id);
            if id == last.id@ {
                assert(now[k].id@ == id);
            } else {
                assert(run_table(old_rows).contains_key(id));
                lemma_run_index(before, id);
                let j = run_index(before, id);
                assert(now[j].id@ == id);
            }
        }
    }
}

// ---------------------------------------------------------------------------
// Rows as JSON

/// A value of a row.
pub enum Cell {
    Null,
    Integer(i64),
    /// A floating point number, in its JSON form.
    Real(serde_json::Value),
    Text(Vec<u8>),
    /// A blob of that many bytes.
    Blob(usize),
}

/// What a value of a row is in JSON.
pub open spec fn cell_json(cell: Cell) -> Json {
    match cell {
        Cell::Null => Json::Null,
        Cell::Integer(i) => Json::Number {
            text: crate::text::decimal_int(i as int),
            unsigned: if i >= 0 {
                Some(i as u64)
            } else {
                None
            },
        },
        Cell::Real(value) => json(value),
        Cell::Text(bytes) => Json::Text(lossy_text(bytes@)),
        Cell::Blob(size) => Json::Text("<"@ + decimal(size as nat) + " bytes blob>"@),
    }
}

/// A value of a row in JSON.
pub fn cell_value(cell: Cell) -> (r: serde_json::Value)
    ensures
        json(r) == cell_json(cell),
{
    match cell {
        Cell::Null => null(),
        Cell::Integer(i) => integer(i),
        Cell::Real(value) => value,
        Cell::Text(bytes) => string(utf8_lossy(bytes.as_slice())),
        Cell::Blob(size) => string(
            concat3("<", decimal_u128(size as u128).as_str(), " bytes blob>"),
        ),
    }
}

/// The columns of a row with its values.
pub open spec fn row_entries(names: Seq<String>, cells: Seq<Cell>) -> Seq<(Seq<char>, Json)> {
    Seq::new(cells.len(), |i: int| (names[i]@, cell_json(cells[i])))
}

/// A row as a JSON object; of two columns with one name the later one counts.
pub fn row_to_json(names: &Vec<String>, cells: Vec<Cell>) -> (r: serde_json::Value)
    requires
        names@.len() == cells@.len(),
    ensures
        json(r) == Json::Object(members(row_entries(names@, cells@))),
{
    let ghost all = cells@;
    let mut entries: Vec<(String, serde_json::Value)> = Vec::new();
    let n: usize = names.len();
    let mut i: usize = 0;
    for cell in it: cells
        invariant
            it.seq() == all,
            i == it.index(),
            n == names@.len(),
            n == all.len(),
            entries@.len() == i,
            forall|j: int|
                0 <= j < i ==> (#[trigger] entries@[j]).0@ == names@[j]@ && json(entries@[j].1)
                    == cell_json(all[j]),
    {
        entries.push((names[i].clone(), cell_value(cell)));
        i = i + 1;
    }
    assert(json_entries(entries@) =~= row_entries(names@, all));
    object(entries)
}

/// The rows of a query as JSON objects.
pub fn rows_to_json(names: &Vec<String>, rows: Vec<Vec<Cell>>) -> (r: Vec<serde_json::Value>)
    requires
        forall|i: int| 0 <= i < rows@.len() ==> (#[trigger] rows@[i])@.len() == names@.len(),
    ensures
        r@.len() == rows@.len(),
        forall|i: int|
            0 <= i < rows@.len() ==> json(#[trigger] r@[i]) == Json::Object(
                members(row_entries(names@, rows@[i]@)),
            ),
{
    let ghost all = rows@;
    let mut out: Vec<serde_json::Value> = Vec::new();
    for row in it: rows
        invariant
            it.seq() == all,
            forall|i: int| 0 <= i < all.len() ==> (#[trigger] all[i])@.len() == names@.len(),
            out@.len() == it.index(),
            forall|i: int|
                0 <= i < it.index() ==> json(#[trigger] out@[i]) == Json::Object(
                    members(row_entries(names@, all[i]@)),
                ),
    {
        assert(row == all[it.index() as int]);
        out.push(row_to_json(names, row));
    }
    out
}

/// The column of a run that tells where an output stream was written; every stream but `stderr`
/// is the standard output.
pub fn output_column(stream: &str) -> (r: &'static str)
    ensures
        r@ == (if stream@ == "stderr"@ {
            "stderr_path"@
        } else {
            "stdout_path"@
        }),
{
    if *stream == *"stderr" {
        "stderr_path"
    } else {
        "stdout_path"
    }
}

/// The record that the row of a run holds, or why it is not JSON.
pub fn stored_run(raw: &str) -> (r: Result<serde_json::Value, String>)
    ensures
        match r {
            Ok(run) => parse_result(encode_utf8(raw@)) == Ok::<Json, Seq<char>>(json(run)),
            Err(detail) => parse_result(encode_utf8(raw@)) == Err::<Json, Seq<char>>(detail@),
        },
{
    parse(raw.as_bytes())
}

/// A run and its LLM calls as one JSON object.
pub fn run_detail(run: serde_json::Value, calls: Vec<serde_json::Value>) -> (r: serde_json::Value)
    ensures
        json(r).field("run"@) == Some(json(run)),
        json(r).field("llm_calls"@) == Some(
            Json::Array(calls@.map_values(|call: serde_json::Value| json(call))),
        ),
        forall|name: Seq<char>|
            json(r).field(name) is Some ==> name == "run"@ || name == "llm_calls"@,
{
    proof {
        reveal_strlit("run");
        reveal_strlit("llm_calls");
    }
    let mut entries: Vec<(String, serde_json::Value)> = Vec::new();
    entries.push(("run".to_owned(), run));
    let list = array(calls);
    entries.push(("llm_calls".to_owned(), list));
    proof {
        let all = json_entries(entries@);
        assert(all =~= seq![("run"@, json(run)), ("llm_calls"@, json(list))]);
        assert(all.drop_last() =~= seq![("run"@, json(run))]);
        assert(all.drop_last().drop_last() =~= seq![]);
        reveal_with_fuel(members, 3);
        assert("run"@.len() != "llm_calls"@.len());
    }
    object(entries)
}

// ---------------------------------------------------------------------------
// What the rows are

/// The row of a run has what is recorded of the run, column by column, and a row for every one of
/// its evals, in order.
pub proof fn row_holds_the_run(row: RunRow, run: RunRecord, raw: String)
    requires
        is_run_row(row, run, raw),
    ensures
        row.id == run.id && row.task == run.task && row.agent == run.agent,
        row.status == run.status && row.exit_code == run.exit_code,
        row.started_at == run.started_at && row.ended_at == run.ended_at,
        row.duration_ms == run.duration_ms as i64,
        row.repo == run.repo && row.source_precision == run.source_precision,
        row.git_is_repo == run.git.is_git_repo && row.git_base_commit == run.git.base_commit,
        row.git_dirty_before == run.git.dirty_before && row.git_dirty_after == run.git.dirty_after,
        row.llm_error_calls == run.llm_error_calls as i64,
        row.eval_count == run.evals@.len() as i64,
        row.eval_status@ == eval_outcome(run.evals@),
        row.stdout_path == run.stdout_path && row.stderr_path == run.stderr_path,
        row.stdout_preview == run.stdout_preview && row.stderr_preview == run.stderr_preview,
        row.raw == raw,
        row.evals@.len() == run.evals@.len(),
        forall|i: int|
            0 <= i < run.evals@.len() ==> {
                let eval = run.evals@[i];
                &&& (#[trigger] row.evals@[i]).idx == i as i64
                &&& row.evals@[i].command == eval.command && row.evals@[i].status == eval.status
                &&& row.evals@[i].exit_code == eval.exit_code
                &&& row.evals@[i].duration_ms == eval.duration_ms as i64
                &&& row.evals@[i].stdout_preview == eval.stdout_preview
                &&& row.evals@[i].stderr_preview == eval.stderr_preview
            },
{
    assert forall|i: int| 0 <= i < run.evals@.len() implies is_eval_row(
        #[trigger] row.evals@[i],
        run.evals@[i],
        i,
    ) by {}
}

/// The row of a call has what the line says of the call, column by column: its id or else the place
/// of the line, and nothing for what the line does not say.
pub proof fn row_holds_the_call(row: CallRow, call: Json, fallback: Seq<char>, metrics: Json)
    requires
        is_call_row(row, call, fallback),
        call.field("metrics"@) == Some(metrics),
    ensures
        match call.field("id"@) {
            Some(Json::Text(id)) => row.id@ == id,
            _ => row.id@ == fallback,
        },
        match call.field("run_id"@) {
            Some(Json::Text(text)) => row.run_id matches Some(s) && s@ == text,
            _ => row.run_id is None,
        },
        match call.field("timestamp"@) {
            Some(Json::Text(text)) => row.timestamp matches Some(s) && s@ == text,
            _ => row.timestamp is None,
        },
        match call.field("endpoint"@) {
            Some(Json::Text(text)) => row.endpoint matches Some(s) && s@ == text,
            _ => row.endpoint is None,
        },
        match call.field("model"@) {
            Some(Json::Text(text)) => row.model matches Some(s) && s@ == text,
            _ => row.model is None,
        },
        match call.field("prompt"@) {
            Some(Json::Text(text)) => row.prompt matches Some(s) && s@ == text,
            _ => row.prompt is None,
        },
        match call.field("source_precision"@) {
            Some(Json::Text(text)) => row.source_precision matches Some(s) && s@ == text,
            _ => row.source_precision is None,
        },
        match call.field("upstream_base"@) {
            Some(Json::Text(text)) => row.upstream_base matches Some(s) && s@ == text,
            _ => row.upstream_base is None,
        },
        row.request_stream == boolean_of(call.field("request_stream"@)),
        match unsigned_of(call.field("status"@)) {
            Some(n) => row.status == Some(n as i64),
            None => row.status is None,
        },
        match unsigned_of(call.field("duration_ms"@)) {
            Some(n) => row.duration_ms == Some(n as i64),
            None => row.duration_ms is None,
        },
        match unsigned_of(metrics.field("input_tokens"@)) {
            Some(n) => row.input_tokens == Some(n as i64),
            None => row.input_tokens is None,
        },
        match unsigned_of(metrics.field("output_tokens"@)) {
            Some(n) => row.output_tokens == Some(n as i64),
            None => row.output_tokens is None,
        },
        match unsigned_of(metrics.field("total_tokens"@)) {
            Some(n) => row.total_tokens == Some(n as i64),
            None => row.total_tokens is None,
        },
        match unsigned_of(metrics.field("cached_tokens"@)) {
            Some(n) => row.cached_tokens == Some(n as i64),
            None => row.cached_tokens is None,
        },
        match unsigned_of(metrics.field("reasoning_tokens"@)) {
            Some(n) => row.reasoning_tokens == Some(n as i64),
            None => row.reasoning_tokens is None,
        },
        match unsigned_of(metrics.field("ttft_ms"@)) {
            Some(n) => row.ttft_ms == Some(n as i64),
            None => row.ttft_ms is None,
        },
        match number_in(metrics.field("cost_usd"@)) {
            Some(text) => row.cost_usd matches Some(s) && s@ == text,
            None => row.cost_usd is None,
        },
        match number_in(metrics.field("output_tokens_per_second"@)) {
            Some(text) => row.output_tokens_per_second matches Some(s) && s@ == text,
            None => row.output_tokens_per_second is None,
        },
        match call.field("request_body"@) {
            Some(body) => if body is Null {
                row.request_body is None
            } else {
                row.request_body matches Some(s) && s@ == rendered(body)
            },
            None => row.request_body is None,
        },
        match call.field("response_body"@) {
            Some(body) => if body is Null {
                row.response_body is None
            } else {
                row.response_body matches Some(s) && s@ == rendered(body)
            },
            None => row.response_body is None,
        },
{
}

/// A synchronisation writes a row for every new event and for every new call, in order, whether
/// one of the files or both have something new; it keeps the places where the next scans begin, and
/// reports how many rows it wrote.
pub proof fn everything_new_is_written(
    plan: SyncPlan,
    path: Seq<char>,
    events: Option<EventBatch>,
    calls: Option<&Scan>,
    i: int,
)
    requires
        is_plan(plan, path, events, calls),
    ensures
        plan.report.db_path@ == path,
        match events {
            Some(batch) => {
                &&& plan.runs@.len() == batch.runs@.len()
                &&& plan.report.runs_upserted == batch.runs@.len()
                &&& plan.events_offset == Some(batch.end as i64)
                &&& 0 <= i < batch.runs@.len() ==> is_run_row(
                    plan.runs@[i],
                    batch.runs@[i].0,
                    batch.runs@[i].1,
                )
            },
            None => {
                &&& plan.runs@.len() == 0
                &&& plan.report.runs_upserted == 0
                &&& plan.events_offset is None
            },
        },
        match calls {
            Some(scan) => {
                &&& plan.calls@.len() == scan.lines@.len()
                &&& plan.report.llm_calls_upserted == scan.lines@.len()
                &&& match scan.end {
                    Some(end) => plan.calls_offset == Some(end as i64),
                    None => plan.calls_offset is None,
                }
                &&& 0 <= i < scan.lines@.len() ==> is_row_of_line(
                    plan.calls@[i],
                    (scan.lines@[i].text@, scan.lines@[i].offset as int),
                )
            },
            None => {
                &&& plan.calls@.len() == 0
                &&& plan.report.llm_calls_upserted == 0
                &&& plan.calls_offset is None
            },
        },
{
    if let Some(scan) = calls {
        if 0 <= i < scan.lines@.len() {
            assert(is_row_of_line(plan.calls@[i], scan@.lines[i]));
        }
    }
    if let Some(batch) = events {
        if 0 <= i < batch.runs@.len() {
            assert(is_run_row(plan.runs@[i], batch.runs@[i].0, batch.runs@[i].1));
        }
    }
}

/// A line of the file is the row of its call, and the call that says no id goes by the place where
/// its line begins.
pub proof fn line_is_the_row_of_its_call(row: CallRow, text: Seq<char>, offset: nat)
    ensures
        is_row_of_line(row, (text, offset as int)) <==> (match parse_result(encode_utf8(text)) {
            Ok(call) => is_call_row(row, call, "offset-"@ + decimal(offset)),
            Err(_) => false,
        }),
{
}

/// New calls can be written exactly where every one of their lines is JSON and the file is text to
/// its end.
pub proof fn calls_are_written_where_all_are_read(scan: &Scan)
    ensures
        calls_are_readable(Some(scan)) <==> scan.end is Some && forall|i: int|
            0 <= i < scan.lines@.len() ==> parse_result(
                encode_utf8((#[trigger] scan.lines@[i]).text@),
            ) is Ok,
        calls_are_readable(None),
{
    let lines = scan@.lines;
    assert(forall|i: int|
        0 <= i < lines.len() ==> #[trigger] lines[i] == (
            scan.lines@[i].text@,
            scan.lines@[i].offset as int,
        ));
    if calls_are_readable(Some(scan)) {
        assert forall|i: int| 0 <= i < scan.lines@.len() implies parse_result(
            encode_utf8((#[trigger] scan.lines@[i]).text@),
        ) is Ok by {
            assert(parsed(encode_utf8(lines[i].0)) is Some);
        }
    }
    if scan.end is Some && forall|i: int|
        0 <= i < scan.lines@.len() ==> parse_result(
            encode_utf8((#[trigger] scan.lines@[i]).text@),
        ) is Ok {
        assert forall|i: int| 0 <= i < lines.len() implies parsed(
            encode_utf8((#[trigger] lines[i]).0),
        ) is Some by {
            assert(parse_result(encode_utf8(scan.lines@[i].text@)) is Ok);
        }
    }
}

/// What is told of lines that cannot be read is what is told of the first of them.
pub proof fn first_unreadable_line_is_told(
    lines: Seq<(Seq<char>, int)>,
    i: int,
    detail: Seq<char>,
)
    requires
        0 <= i < lines.len(),
        parse_result(encode_utf8(lines[i].0)) is Err,
        forall|j: int|
            0 <= j < i ==> parse_result(encode_utf8((#[trigger] lines[j]).0)) is Ok,
    ensures
        tells_first_bad(lines, detail) <==> parse_result(encode_utf8(lines[i].0)) == Err::<
            Json,
            Seq<char>,
        >(detail),
{
    if tells_first_bad(lines, detail) {
        let k = choose|k: int| #[trigger] is_first_bad(lines, k, detail);
        if k < i {
            assert(parse_result(encode_utf8(lines[k].0)) is Ok);
        }
        if i < k {
            assert(parsed(encode_utf8(lines[i].0)) is Some);
        }
    }
    if parse_result(encode_utf8(lines[i].0)) == Err::<Json, Seq<char>>(detail) {
        assert forall|j: int| 0 <= j < i implies parsed(
            encode_utf8((#[trigger] lines[j]).0),
        ) is Some by {
            assert(parse_result(encode_utf8(lines[j].0)) is Ok);
        }
        assert(is_first_bad(lines, i, detail));
    }
}

/// What each value of a row is in JSON.
pub proof fn cells_are_shown_as_they_are(
    i: i64,
    bytes: Vec<u8>,
    size: usize,
    fraction: serde_json::Value,
)
    ensures
        cell_json(Cell::Null) is Null,
        cell_json(Cell::Integer(i)) == (Json::Number {
            text: crate::text::decimal_int(i as int),
            unsigned: if i >= 0 {
                Some(i as u64)
            } else {
                None
            },
        }),
        cell_json(Cell::Real(fraction)) == json(fraction),
        cell_json(Cell::Text(bytes)) == Json::Text(lossy_text(bytes@)),
        cell_json(Cell::Blob(size)) == Json::Text(
            "<"@ + decimal(size as nat) + " bytes blob>"@,
        ),
{
}

/// A row has each of its values under the name of its column, and nothing under another name.
pub proof fn row_shows_its_columns(names: Seq<String>, cells: Seq<Cell>, i: int, other: Seq<char>)
    requires
        names.len() == cells.len(),
        0 <= i < cells.len(),
        forall|j: int| i < j < names.len() ==> (#[trigger] names[j])@ != names[i]@,
    ensures
        Json::Object(members(row_entries(names, cells))).field(names[i]@) == Some(
            cell_json(cells[i]),
        ),
        (forall|j: int| 0 <= j < names.len() ==> (#[trigger] names[j])@ != other) ==> Json::Object(
            members(row_entries(names, cells)),
        ).field(other) is None,
{
    let entries = row_entries(names, cells);
    assert(entries[i] == (names[i]@, cell_json(cells[i])));
    assert forall|j: int| i < j < entries.len() implies (#[trigger] entries[j]).0
        != entries[i].0 by {
        assert(names[j]@ != names[i]@);
    }
    if forall|j: int| 0 <= j < names.len() ==> (#[trigger] names[j])@ != other {
        assert forall|j: int| 0 <= j < entries.len() implies (#[trigger] entries[j]).0 != other by {
            assert(names[j]@ != other);
        }
    }
    crate::json::later_members_stand(entries, i, other);
}

/// The row of a call whose line has no metrics has none.
pub proof fn row_without_metrics(row: CallRow, call: Json, fallback: Seq<char>)
    requires
        is_call_row(row, call, fallback),
        call.field("metrics"@) is None,
    ensures
        row.input_tokens is None && row.output_tokens is None && row.total_tokens is None,
        row.cached_tokens is None && row.reasoning_tokens is None && row.ttft_ms is None,
        row.cost_usd is None && row.output_tokens_per_second is None,
{
}

/// The index stands in the ledger.
pub proof fn index_stands_in_the_ledger(root: Seq<char>, windows: bool)
    ensures
        db_path_of(root, windows) == below(
            below(root, ".agentledger"@, windows),
            "ledger.db"@,
            windows,
        ),
{
}

} // verus!

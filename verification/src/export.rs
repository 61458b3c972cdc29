//! The export of a ledger.
use crate::error::LedgerError;
use crate::layout::{below, join_path, ledger_dir, ledger_dir_of};
use crate::record::{eval_outcome, eval_status, RunRecord};
use crate::text::{concat3, contains_char, decimal, decimal_i64, decimal_int, decimal_u128, joined, nothing_to_replace, replace, replaced, views};
use vstd::prelude::*;
use vstd::string::*;

verus! {

// ---------------------------------------------------------------------------
// Fields

/// Whether a field cannot stand bare in a CSV row.
pub open spec fn needs_quotes(value: Seq<char>) -> bool {
    value.contains(',') || value.contains('"') || value.contains('\n')
}

/// A field as a CSV row shows it.
pub open spec fn escaped(value: Seq<char>) -> Seq<char> {
    if needs_quotes(value) {
        "\""@ + replaced(value, "\""@, "\"\""@) + "\""@
    } else {
        value
    }
}

/// A field as a CSV row shows it: in quotes, with its own quotes doubled, where it holds a comma,
/// a quote or a line break.
pub fn csv_escape(value: &str) -> (r: String)
    ensures
        r@ == escaped(value@),
{
    if contains_char(value, ',') || contains_char(value, '"') || contains_char(value, '\n') {
        proof {
            reveal_strlit("\"");
        }
        let doubled = replace(value, "\"", "\"\"");
        concat3("\"", doubled.as_str(), "\"")
    } else {
        value.to_owned()
    }
}

/// What a reader takes for a field in quotes, from behind the opening quote on, and what follows
/// the closing one.
pub open spec fn read_quoted(s: Seq<char>) -> (Seq<char>, Seq<char>)
    decreases s.len(),
{
    if s.len() == 0 {
        (seq![], seq![])
    } else if s[0] != '"' {
        let (field, rest) = read_quoted(s.drop_first());
        (seq![s[0]] + field, rest)
    } else if s.len() > 1 && s[1] == '"' {
        let (field, rest) = read_quoted(s.skip(2));
        (seq!['"'] + field, rest)
    } else {
        (seq![], s.drop_first())
    }
}

/// What a reader takes for a bare field, and what follows it.
pub open spec fn read_bare(s: Seq<char>) -> (Seq<char>, Seq<char>)
    decreases s.len(),
{
    if s.len() == 0 || s[0] == ',' || s[0] == '\n' {
        (seq![], s)
    } else {
        let (field, rest) = read_bare(s.drop_first());
        (seq![s[0]] + field, rest)
    }
}

/// What a reader takes for the first field of a row, and what follows it.
pub open spec fn read_field(s: Seq<char>) -> (Seq<char>, Seq<char>) {
    if s.len() > 0 && s[0] == '"' {
        read_quoted(s.drop_first())
    } else {
        read_bare(s)
    }
}

/// Whether a text stands behind a field: a comma, or the end of the row.
pub open spec fn ends_field(rest: Seq<char>) -> bool {
    rest.len() > 0 && (rest[0] == ',' || rest[0] == '\n')
}

/// A field is read back from a CSV row as it was written.
pub proof fn field_reads_back(value: Seq<char>, rest: Seq<char>)
    requires
        ends_field(rest),
    ensures
        read_field(escaped(value) + rest) == (value, rest),
{
    if needs_quotes(value) {
        reveal_strlit("\"");
        let body = replaced(value, "\""@, "\"\""@);
        lemma_quoted(value, rest);
        assert((escaped(value) + rest).drop_first() =~= body + (seq!['"'] + rest));
    } else {
        lemma_bare(value, rest);
        assert(value.len() > 0 ==> value.contains(value[0]));
        assert(value.len() == 0 ==> value + rest =~= rest);
    }
}

proof fn lemma_quoted(value: Seq<char>, rest: Seq<char>)
    requires
        ends_field(rest),
    ensures
        read_quoted(replaced(value, "\""@, "\"\""@) + (seq!['"'] + rest)) == (value, rest),
    decreases value.len(),
{
    reveal_strlit("\"");
    reveal_strlit("\"\"");
    let tail = seq!['"'] + rest;
    let body = replaced(value, "\""@, "\"\""@);
    if value.len() == 0 {
        assert(body + tail =~= tail);
        assert(tail.drop_first() =~= rest);
    } else {
        let next = value.drop_first();
        lemma_quoted(next, rest);
        assert(value.skip(1) =~= next);
        assert(value =~= seq![value[0]] + next);
        assert(value.subrange(0, 1) =~= seq![value[0]]);
        let next_body = replaced(next, "\""@, "\"\""@);
        if value[0] == '"' {
            assert(value.subrange(0, 1) =~= "\""@);
            assert(body =~= "\"\""@ + next_body);
            assert((body + tail).skip(2) =~= next_body + tail);
        } else {
            assert(value.subrange(0, 1)[0] != "\""@[0]);
            assert(body =~= seq![value[0]] + next_body);
            assert((body + tail).drop_first() =~= next_body + tail);
        }
    }
}

proof fn lemma_bare(value: Seq<char>, rest: Seq<char>)
    requires
        ends_field(rest),
        !needs_quotes(value),
    ensures
        read_bare(value + rest) == (value, rest),
    decreases value.len(),
{
    if value.len() == 0 {
        assert(value + rest =~= rest);
    } else {
        let next = value.drop_first();
        assert forall|c: char| next.contains(c) implies value.contains(c) by {
            let i = next.index_of(c);
            assert(value[i + 1] == c);
        }
        lemma_bare(next, rest);
        assert(value.contains(value[0]));
        assert((value + rest).drop_first() =~= next + rest);
        assert(value =~= seq![value[0]] + next);
    }
}

/// What follows a field is no longer than the text that it was read from.
pub proof fn lemma_field_shrinks(s: Seq<char>)
    ensures
        read_field(s).1.len() <= s.len(),
{
    if s.len() > 0 && s[0] == '"' {
        lemma_quoted_shrinks(s.drop_first());
    } else {
        lemma_bare_shrinks(s);
    }
}

proof fn lemma_quoted_shrinks(s: Seq<char>)
    ensures
        read_quoted(s).1.len() <= s.len(),
    decreases s.len(),
{
    if s.len() > 0 {
        lemma_quoted_shrinks(s.drop_first());
        if s.len() > 1 {
            lemma_quoted_shrinks(s.skip(2));
        }
    }
}

proof fn lemma_bare_shrinks(s: Seq<char>)
    ensures
        read_bare(s).1.len() <= s.len(),
    decreases s.len(),
{
    if s.len() > 0 {
        lemma_bare_shrinks(s.drop_first());
    }
}

// ---------------------------------------------------------------------------
// Rows

/// A row of fields, with the line break that ends it.
pub open spec fn row_text(fields: Seq<Seq<char>>) -> Seq<char>
    decreases fields.len(),
{
    if fields.len() == 0 {
        seq!['\n']
    } else if fields.len() == 1 {
        escaped(fields[0]) + seq!['\n']
    } else {
        escaped(fields[0]) + (seq![','] + row_text(fields.drop_first()))
    }
}

/// What a reader takes for the first row, and what follows it.
pub open spec fn read_row(s: Seq<char>) -> (Seq<Seq<char>>, Seq<char>)
    decreases s.len(),
{
    let (field, rest) = read_field(s);
    if rest.len() > 0 && rest[0] == ',' {
        proof {
            lemma_field_shrinks(s);
        }
        let (fields, after) = read_row(rest.drop_first());
        (seq![field] + fields, after)
    } else if rest.len() > 0 {
        (seq![field], rest.drop_first())
    } else {
        (seq![field], rest)
    }
}

/// A row is read back as it was written.
pub proof fn row_reads_back(fields: Seq<Seq<char>>, rest: Seq<char>)
    requires
        fields.len() > 0,
    ensures
        read_row(row_text(fields) + rest) == (fields, rest),
    decreases fields.len(),
{
    let all = row_text(fields) + rest;
    if fields.len() == 1 {
        let tail = seq!['\n'] + rest;
        field_reads_back(fields[0], tail);
        assert(all =~= escaped(fields[0]) + tail);
        assert(tail.drop_first() =~= rest);
        assert(fields =~= seq![fields[0]]);
    } else {
        let next = fields.drop_first();
        let tail = seq![','] + row_text(next) + rest;
        field_reads_back(fields[0], tail);
        row_reads_back(next, rest);
        assert(all =~= escaped(fields[0]) + tail);
        assert(tail.drop_first() =~= row_text(next) + rest);
        assert(fields =~= seq![fields[0]] + next);
    }
}

// ---------------------------------------------------------------------------
// The table of the runs

/// The names of the columns.
pub open spec fn csv_columns() -> Seq<Seq<char>> {
    seq![
        "id"@,
        "task"@,
        "agent"@,
        "status"@,
        "duration_ms"@,
        "exit_code"@,
        "eval_status"@,
        "started_at"@,
        "repo"@,
    ]
}

/// An exit code in decimal, and nothing for a command that a signal ended.
pub open spec fn code_text(code: Option<i32>) -> Seq<char> {
    match code {
        Some(c) => decimal_int(c as int),
        None => seq![],
    }
}

/// The fields of a run.
pub open spec fn csv_fields(run: RunRecord) -> Seq<Seq<char>> {
    seq![
        run.id@,
        run.task@,
        run.agent@,
        run.status@,
        decimal(run.duration_ms as nat),
        code_text(run.exit_code),
        eval_outcome(run.evals@),
        run.started_at@,
        run.repo@,
    ]
}

/// The rows of a list of runs.
pub open spec fn csv_rows(runs: Seq<RunRecord>) -> Seq<char>
    decreases runs.len(),
{
    if runs.len() == 0 {
        seq![]
    } else {
        csv_rows(runs.drop_last()) + row_text(csv_fields(runs.last()))
    }
}

/// The table of a list of runs.
pub open spec fn csv_table(runs: Seq<RunRecord>) -> Seq<char> {
    row_text(csv_columns()) + csv_rows(runs)
}

proof fn lemma_header()
    ensures
        row_text(csv_columns())
            == "id,task,agent,status,duration_ms,exit_code,eval_status,started_at,repo\n"@,
{
    reveal_strlit("id,task,agent,status,duration_ms,exit_code,eval_status,started_at,repo\n");
    reveal_strlit("id");
    reveal_strlit("task");
    reveal_strlit("agent");
    reveal_strlit("status");
    reveal_strlit("duration_ms");
    reveal_strlit("exit_code");
    reveal_strlit("eval_status");
    reveal_strlit("started_at");
    reveal_strlit("repo");
    reveal_with_fuel(row_text, 10);
    assert(row_text(csv_columns())
        =~= "id,task,agent,status,duration_ms,exit_code,eval_status,started_at,repo\n"@);
}

/// The row of a list of fields, with the line break that ends it.
pub fn csv_row(fields: &Vec<String>) -> (r: String)
    ensures
        r@ == row_text(views(fields@)),
{
    let ghost all = views(fields@);
    let mut out = String::new();
    assert(all.skip(0) =~= all);
    assert(out@ + row_text(all) =~= row_text(all));
    let n: usize = fields.len();
    for i in 0..n
        invariant
            n == fields@.len(),
            all == views(fields@),
            i < n ==> out@ + row_text(all.skip(i as int)) == row_text(all),
            i == n ==> out@ + seq!['\n'] == row_text(all),
    {
        let ghost before = out@;
        let ghost rest = all.skip(i as int);
        assert(rest[0] == fields@[i as int]@);
        assert(rest.drop_first() =~= all.skip(i + 1));
        out.append(csv_escape(fields[i].as_str()).as_str());
        if i + 1 < n {
            out.push(',');
            assert(out@ + row_text(all.skip(i + 1)) =~= before + row_text(rest));
        } else {
            assert(out@ + seq!['\n'] =~= before + row_text(rest));
        }
    }
    out.push('\n');
    assert(out@ =~= row_text(all));
    out
}

/// The fields of a run.
fn fields_of(run: &RunRecord) -> (r: Vec<String>)
    ensures
        views(r@) == csv_fields(*run),
{
    let code = match run.exit_code {
        Some(code) => decimal_i64(code as i64),
        None => String::new(),
    };
    let r = vec![
        run.id.clone(),
        run.task.clone(),
        run.agent.clone(),
        run.status.clone(),
        decimal_u128(run.duration_ms),
        code,
        eval_status(&run.evals).to_owned(),
        run.started_at.clone(),
        run.repo.clone(),
    ];
    assert(views(r@) =~= csv_fields(*run));
    r
}

/// The table of a list of runs in CSV: a header, and a row for each run in order.
pub fn csv_text(runs: &Vec<RunRecord>) -> (r: String)
    ensures
        r@ == csv_table(runs@),
        "id,task,agent,status,duration_ms,exit_code,eval_status,started_at,repo\n"@.is_prefix_of(
            r@,
        ),
{
    proof {
        lemma_header();
    }
    let mut out = "id,task,agent,status,duration_ms,exit_code,eval_status,started_at,repo\n".to_owned();
    assert(csv_rows(runs@.take(0)) =~= seq![]);
    for i in 0..runs.len()
        invariant
            out@ == row_text(csv_columns()) + csv_rows(runs@.take(i as int)),
    {
        assert(runs@.take(i + 1).drop_last() =~= runs@.take(i as int));
        let ghost before = out@;
        out.append(csv_row(&fields_of(&runs[i])).as_str());
        assert(out@ =~= row_text(csv_columns()) + csv_rows(runs@.take(i + 1)));
    }
    assert(runs@.take(runs@.len() as int) =~= runs@);
    out
}

/// What a reader takes for the rows of a table.
pub open spec fn read_table(s: Seq<char>) -> Seq<Seq<Seq<char>>>
    decreases s.len(),
{
    if s.len() == 0 {
        seq![]
    } else {
        let (row, rest) = read_row(s);
        if rest.len() < s.len() {
            seq![row] + read_table(rest)
        } else {
            seq![row]
        }
    }
}

proof fn lemma_row_first(fields: Seq<Seq<char>>, rest: Seq<char>)
    requires
        fields.len() > 0,
    ensures
        read_table(row_text(fields) + rest) == seq![fields] + read_table(rest),
{
    row_reads_back(fields, rest);
    assert(row_text(fields).len() > 0);
}

proof fn lemma_rows_read_back(runs: Seq<RunRecord>, rest: Seq<char>)
    ensures
        read_table(csv_rows(runs) + rest) == runs.map_values(|run: RunRecord| csv_fields(run))
            + read_table(rest),
    decreases runs.len(),
{
    let rows = runs.map_values(|run: RunRecord| csv_fields(run));
    if runs.len() == 0 {
        assert(csv_rows(runs) + rest =~= rest);
        assert(rows + read_table(rest) =~= read_table(rest));
    } else {
        let last = csv_fields(runs.last());
        let before = runs.drop_last();
        lemma_row_first(last, rest);
        lemma_rows_read_back(before, row_text(last) + rest);
        assert(csv_rows(runs) + rest =~= csv_rows(before) + (row_text(last) + rest));
        assert(rows + read_table(rest) =~= before.map_values(|run: RunRecord| csv_fields(run)) + (
        seq![last] + read_table(rest)));
    }
}

/// The table of a list of runs is read back as its columns and the fields of each run, in order.
pub proof fn table_reads_back(runs: Seq<RunRecord>)
    ensures
        read_table(csv_table(runs)) == seq![csv_columns()] + runs.map_values(
            |run: RunRecord| csv_fields(run),
        ),
{
    lemma_row_first(csv_columns(), csv_rows(runs));
    lemma_rows_read_back(runs, seq![]);
    assert(csv_rows(runs) + seq![] =~= csv_rows(runs));
    let rows = runs.map_values(|run: RunRecord| csv_fields(run));
    assert(rows + read_table(seq![]) =~= rows);
}

// ---------------------------------------------------------------------------
// The command

/// A format that a ledger can be exported in.
#[derive(Debug, Clone, Copy, PartialEq, Eq)]
pub enum ExportFormat {
    Jsonl,
    Csv,
}

/// What a name of a format stands for.
pub open spec fn format_named(format: Seq<char>) -> Option<ExportFormat> {
    if format == "jsonl"@ {
        Some(ExportFormat::Jsonl)
    } else if format == "csv"@ {
        Some(ExportFormat::Csv)
    } else {
        None
    }
}

/// Why a ledger cannot be exported in a format.
pub open spec fn is_format_error(err: LedgerError, format: Seq<char>) -> bool {
    if format == "parquet"@ {
        err matches LedgerError::Unsupported(m) && m@
            == "parquet export is planned for the analytics extra; use jsonl or csv in the MVP"@
    } else if format == "otlp"@ {
        err matches LedgerError::Unsupported(m) && m@
            == "OTLP export is planned after OpenTelemetry span capture lands"@
    } else {
        err matches LedgerError::Config(m) && m@ == "unsupported export format '"@ + format
            + "', expected jsonl, csv, parquet, or otlp"@
    }
}

/// The format of an export, by its name.
pub fn export(format: &str) -> (r: Result<ExportFormat, LedgerError>)
    ensures
        match r {
            Ok(f) => format_named(format@) == Some(f),
            Err(err) => format_named(format@) is None && is_format_error(err, format@),
        },
{
    proof {
        reveal_strlit("jsonl");
        reveal_strlit("csv");
        reveal_strlit("parquet");
        reveal_strlit("otlp");
    }
    if *format == *"jsonl" {
        Ok(ExportFormat::Jsonl)
    } else if *format == *"csv" {
        Ok(ExportFormat::Csv)
    } else if *format == *"parquet" {
        Err(
            LedgerError::Unsupported(
                "parquet export is planned for the analytics extra; use jsonl or csv in the MVP".to_owned(),
            ),
        )
    } else if *format == *"otlp" {
        Err(
            LedgerError::Unsupported(
                "OTLP export is planned after OpenTelemetry span capture lands".to_owned(),
            ),
        )
    } else {
        Err(
            LedgerError::Config(
                concat3(
                    "unsupported export format '",
                    format,
                    "', expected jsonl, csv, parquet, or otlp",
                ),
            ),
        )
    }
}

/// The file that an export goes to: the one that was asked for, else one of the ledger.
pub open spec fn target_of(
    output: Option<&str>,
    root: Seq<char>,
    name: Seq<char>,
    windows: bool,
) -> Seq<char> {
    match output {
        Some(path) => path@,
        None => below(ledger_dir_of(root, windows), name, windows),
    }
}

fn target(output: Option<&str>, root: &str, name: &str, windows: bool) -> (r: String)
    ensures
        r@ == target_of(output, root@, name@, windows),
{
    match output {
        Some(path) => path.to_owned(),
        None => join_path(ledger_dir(root, windows).as_str(), name, windows),
    }
}

/// A file to copy, where to, and what is told then.
#[derive(Debug, PartialEq, Eq)]
pub struct JsonlExport {
    pub source: String,
    pub target: String,
    pub message: String,
}

/// The export of the events as they stand; there must be a ledger.
pub fn export_jsonl(output: Option<&str>, root: &str, exists: bool, windows: bool) -> (r: Result<
    JsonlExport,
    LedgerError,
>)
    ensures
        ({
            let source = below(ledger_dir_of(root@, windows), "events.ndjson"@, windows);
            let goal = target_of(output, root@, "export.jsonl"@, windows);
            match r {
                Ok(e) => exists && e.source@ == source && e.target@ == goal && e.message@
                    == "Exported JSONL to "@ + goal,
                Err(err) => !exists && (err matches LedgerError::Storage(m) && m@
                    == "ledger does not exist at "@ + source),
            }
        }),
{
    let source = join_path(ledger_dir(root, windows).as_str(), "events.ndjson", windows);
    if !exists {
        let mut message = "ledger does not exist at ".to_owned();
        message.append(source.as_str());
        return Err(LedgerError::Storage(message));
    }
    let target = target(output, root, "export.jsonl", windows);
    let mut message = "Exported JSONL to ".to_owned();
    message.append(target.as_str());
    Ok(JsonlExport { source, target, message })
}

/// A file to write, and what is told then.
#[derive(Debug, PartialEq, Eq)]
pub struct CsvExport {
    pub target: String,
    pub content: String,
    pub message: String,
}

/// The export of the runs as a table.
pub fn export_csv(
    output: Option<&str>,
    root: &str,
    runs: &Vec<RunRecord>,
    windows: bool,
) -> (r: CsvExport)
    ensures
        r.target@ == target_of(output, root@, "runs.csv"@, windows),
        r.content@ == csv_table(runs@),
        r.message@ == "Exported CSV to "@ + r.target@,
{
    let target = target(output, root, "runs.csv", windows);
    let content = csv_text(runs);
    let mut message = "Exported CSV to ".to_owned();
    message.append(target.as_str());
    CsvExport { target, content, message }
}

// ---------------------------------------------------------------------------
// What a table is

/// A field stands in a row as it is, unless it has a comma, a quote or a line break: then it stands
/// in quotes, with each of its own quotes doubled.
pub proof fn fields_are_quoted_where_needed(value: Seq<char>)
    ensures
        !value.contains(',') && !value.contains('"') && !value.contains('\n') ==> escaped(value)
            == value,
        value.contains(',') || value.contains('"') || value.contains('\n') ==> escaped(value)
            == seq!['"'] + replaced(value, seq!['"'], seq!['"', '"']) + seq!['"'],
        (value.contains(',') || value.contains('\n')) && !value.contains('"') ==> escaped(value)
            == seq!['"'] + value + seq!['"'],
{
    reveal_strlit("\"");
    reveal_strlit("\"\"");
    assert("\""@ =~= seq!['"']);
    assert("\"\""@ =~= seq!['"', '"']);
    if !value.contains('"') {
        assert forall|j: int| 0 <= j <= value.len() - seq!['"'].len() implies #[trigger] value.subrange(
            j,
            j + seq!['"'].len(),
        ) != seq!['"'] by {
            assert(value.subrange(j, j + seq!['"'].len())[0] == value[j]);
            assert(value.contains(value[j]));
        }
        nothing_to_replace(value, seq!['"'], seq!['"', '"']);
    }
}

/// A row is its fields with commas between them and a line break at its end.
pub proof fn row_is_its_fields(fields: Seq<Seq<char>>)
    ensures
        row_text(fields) == joined(
            fields.map_values(|field: Seq<char>| escaped(field)),
            seq![','],
        ) + seq!['\n'],
    decreases fields.len(),
{
    let shown = fields.map_values(|field: Seq<char>| escaped(field));
    if fields.len() == 0 {
        assert(joined(shown, seq![',']) + seq!['\n'] =~= seq!['\n']);
    } else if fields.len() > 1 {
        let next = fields.drop_first();
        let rest = next.map_values(|field: Seq<char>| escaped(field));
        row_is_its_fields(next);
        lemma_joined_first(shown, seq![',']);
        assert(shown.drop_first() =~= rest);
        assert(escaped(fields[0]) + (seq![','] + (joined(rest, seq![',']) + seq!['\n']))
            =~= escaped(fields[0]) + seq![','] + joined(rest, seq![',']) + seq!['\n']);
    }
}

proof fn lemma_joined_first(list: Seq<Seq<char>>, sep: Seq<char>)
    requires
        list.len() > 1,
    ensures
        joined(list, sep) == list[0] + sep + joined(list.drop_first(), sep),
    decreases list.len(),
{
    let rest = list.drop_first();
    if list.len() > 2 {
        lemma_joined_first(list.drop_last(), sep);
        assert(list.drop_last().drop_first() =~= rest.drop_last());
        assert(rest.last() == list.last());
        assert(joined(list, sep) =~= list[0] + sep + joined(rest, sep));
    } else {
        assert(list.drop_last() =~= seq![list[0]]);
        assert(rest =~= seq![list[1]]);
        assert(joined(list.drop_last(), sep) == list[0]);
        assert(joined(rest, sep) == list[1]);
    }
}

/// A table begins with the names of its columns, and has a row for every run, whatever the run is:
/// one more run is one more row at the end.
pub proof fn every_run_has_a_row(runs: Seq<RunRecord>, run: RunRecord)
    ensures
        csv_table(Seq::<RunRecord>::empty())
            == "id,task,agent,status,duration_ms,exit_code,eval_status,started_at,repo\n"@,
        csv_table(runs.push(run)) == csv_table(runs) + row_text(csv_fields(run)),
{
    lemma_header();
    let none = Seq::<RunRecord>::empty();
    assert(csv_table(none) =~= row_text(csv_columns()));
    assert(runs.push(run).drop_last() =~= runs);
    assert(csv_table(runs.push(run)) =~= csv_table(runs) + row_text(csv_fields(run)));
}

/// The row of a run has its id, task, agent and status, its duration, its exit code if it has one,
/// the word for its evals, when it began and where.
pub proof fn row_tells_the_run(run: RunRecord)
    ensures
        csv_fields(run).len() == 9,
        csv_fields(run)[0] == run.id@,
        csv_fields(run)[1] == run.task@,
        csv_fields(run)[2] == run.agent@,
        csv_fields(run)[3] == run.status@,
        csv_fields(run)[4] == decimal(run.duration_ms as nat),
        csv_fields(run)[5] == (match run.exit_code {
            Some(code) => decimal_int(code as int),
            None => Seq::<char>::empty(),
        }),
        csv_fields(run)[6] == eval_outcome(run.evals@),
        csv_fields(run)[7] == run.started_at@,
        csv_fields(run)[8] == run.repo@,
{
}

/// A ledger is exported as JSONL or as CSV; every other format is refused, and the two that are
/// planned are told to be.
pub proof fn formats_are_told_by_their_names(err: LedgerError, format: Seq<char>)
    ensures
        format_named("jsonl"@) == Some(ExportFormat::Jsonl),
        format_named("csv"@) == Some(ExportFormat::Csv),
        format != "jsonl"@ && format != "csv"@ ==> format_named(format) is None,
        is_format_error(err, "parquet"@) ==> err is Unsupported && err.detail()
            == "parquet export is planned for the analytics extra; use jsonl or csv in the MVP"@,
        is_format_error(err, "otlp"@) ==> err is Unsupported && err.detail()
            == "OTLP export is planned after OpenTelemetry span capture lands"@,
        format != "parquet"@ && format != "otlp"@ && is_format_error(err, format) ==> err is Config
            && err.detail() == "unsupported export format '"@ + format
            + "', expected jsonl, csv, parquet, or otlp"@,
{
    reveal_strlit("jsonl");
    reveal_strlit("csv");
    reveal_strlit("parquet");
    reveal_strlit("otlp");
    assert("jsonl"@.len() == 5);
    assert("csv"@.len() == 3);
    assert("parquet"@.len() == 7);
    assert("otlp"@.len() == 4);
}

/// An export goes to the file that is asked for, and else to one of the ledger.
pub proof fn export_goes_where_it_is_sent(
    path: &str,
    root: Seq<char>,
    name: Seq<char>,
    windows: bool,
)
    ensures
        target_of(Some(path), root, name, windows) == path@,
        target_of(None, root, name, windows) == below(
            below(root, ".agentledger"@, windows),
            name,
            windows,
        ),
{
}

} // verus!

//! The append-only ledger: a chain of events, each of which records one version of a run.
use crate::capture::{are_eval_records, eval_records, every_eval_command_counts, CommandOutcome};
use crate::error::LedgerError;
use crate::ident::is_lower_hex;
use crate::json::{integer, json, json_entries, members, null, object, render, rendered, string, Json};
use crate::record::{all_passed, evals_passed, outcome, outcome_word, RunRecord, SCHEMA_VERSION};
use crate::text::{concat3, decimal, decimal_int, view_option};
use vstd::prelude::*;
use vstd::string::*;
use vstd::utf8::encode_utf8;

verus! {

/// One line of the ledger.
#[derive(Debug, Clone, PartialEq, Eq)]
pub struct LedgerEvent {
    pub record_type: String,
    pub schema_version: u32,
    pub previous_hash: Option<String>,
    pub hash: String,
    pub run: RunRecord,
}

// ---------------------------------------------------------------------------
// The hash chain

/// The BLAKE3 hash of bytes in hexadecimal.
pub uninterp spec fn blake3_hex(bytes: Seq<u8>) -> Seq<char>;

/// `blake3::hash` and `blake3::Hash::to_hex`: the hash of the bytes as 64 hexadecimal digits in
/// lower case.
#[verifier::external_body]
pub(crate) fn hash_hex(bytes: &[u8]) -> (r: String)
    ensures
        r@ == blake3_hex(bytes@),
        r@.len() == 64,
        forall|i: int| 0 <= i < r@.len() ==> is_lower_hex(#[trigger] r@[i]),
{
    blake3::hash(bytes).to_hex().to_string()
}

/// What the hash of an event covers: everything in the event but the hash.
pub open spec fn payload(previous_hash: Option<Seq<char>>, run: Json) -> Json {
    Json::Object(
        map![
            "record_type"@ => Json::Text("run"@),
            "schema_version"@ => (Json::Number {
                text: decimal(SCHEMA_VERSION as nat),
                unsigned: Some(SCHEMA_VERSION as u64),
            }),
            "previous_hash"@ => match previous_hash {
                Some(hash) => Json::Text(hash),
                None => Json::Null,
            },
            "run"@ => run,
        ],
    )
}

/// The hash of the event that records `run` behind the event with the hash `previous_hash`.
pub open spec fn event_hash(previous_hash: Option<Seq<char>>, run: Json) -> Seq<char> {
    blake3_hex(encode_utf8(rendered(payload(previous_hash, run))))
}

/// The event that records a run behind the event with the given hash. `run_json` is the run as
/// JSON.
pub fn seal_event(
    previous_hash: Option<String>,
    run: RunRecord,
    run_json: serde_json::Value,
) -> (r: LedgerEvent)
    ensures
        r.record_type@ == "run"@,
        r.schema_version == SCHEMA_VERSION,
        r.previous_hash == previous_hash,
        r.hash@ == event_hash(view_option(previous_hash), json(run_json)),
        r.hash@.len() == 64,
        r.run == run,
{
    let ghost run_model = json(run_json);
    let previous = match &previous_hash {
        Some(hash) => string(hash.clone()),
        None => null(),
    };
    let ghost previous_model = json(previous);
    let mut entries: Vec<(String, serde_json::Value)> = Vec::new();
    entries.push(("record_type".to_owned(), string("run".to_owned())));
    entries.push(("schema_version".to_owned(), integer(SCHEMA_VERSION as i64)));
    entries.push(("previous_hash".to_owned(), previous));
    entries.push(("run".to_owned(), run_json));
    proof {
        let list = json_entries(entries@);
        reveal_with_fuel(members, 5);
        assert(list.len() == 4);
        let three = list.drop_last();
        let two = three.drop_last();
        let one = two.drop_last();
        assert(list.last() == ("run"@, run_model));
        assert(three.last() == ("previous_hash"@, previous_model));
        assert(two.last() == ("schema_version"@, Json::Number {
            text: decimal_int(SCHEMA_VERSION as int),
            unsigned: Some(SCHEMA_VERSION as u64),
        }));
        assert(one.last() == ("record_type"@, Json::Text("run"@)));
        assert(one.drop_last().len() == 0);
        assert(Json::Object(members(list)) == payload(view_option(previous_hash), run_model));
    }
    let body = object(entries);
    let text = render(&body);
    let hash = hash_hex(text.as_str().as_bytes());
    LedgerEvent {
        record_type: "run".to_owned(),
        schema_version: SCHEMA_VERSION,
        previous_hash,
        hash,
        run,
    }
}

/// The hash that the next event of a ledger links to.
pub open spec fn last_hash_of(events: Seq<LedgerEvent>) -> Option<Seq<char>> {
    if events.len() == 0 {
        None
    } else {
        Some(events.last().hash@)
    }
}

/// The hash of the last event.
pub fn last_hash(events: &Vec<LedgerEvent>) -> (r: Option<String>)
    ensures
        view_option(r) == last_hash_of(events@),
{
    if events.len() == 0 {
        None
    } else {
        Some(events[events.len() - 1].hash.clone())
    }
}

/// Whether every event links to the event before it.
pub open spec fn linked(events: Seq<LedgerEvent>) -> bool {
    forall|i: int|
        0 <= i < events.len() ==> view_option((#[trigger] events[i]).previous_hash)
            == last_hash_of(events.take(i))
}

/// The event that records a run at the end of a ledger.
pub fn next_event(
    events: &Vec<LedgerEvent>,
    run: RunRecord,
    run_json: serde_json::Value,
) -> (r: LedgerEvent)
    ensures
        r.record_type@ == "run"@,
        r.schema_version == SCHEMA_VERSION,
        view_option(r.previous_hash) == last_hash_of(events@),
        r.hash@ == event_hash(last_hash_of(events@), json(run_json)),
        r.hash@.len() == 64,
        r.run == run,
        linked(events@) ==> linked(events@.push(r)),
{
    let r = seal_event(last_hash(events), run, run_json);
    proof {
        append_keeps_links(events@, r);
    }
    r
}

/// A ledger stays a chain when an event is appended that links to its last event.
pub proof fn append_keeps_links(events: Seq<LedgerEvent>, event: LedgerEvent)
    requires
        view_option(event.previous_hash) == last_hash_of(events),
    ensures
        linked(events) ==> linked(events.push(event)),
{
    if linked(events) {
        let longer = events.push(event);
        assert forall|i: int| 0 <= i < longer.len() implies view_option(
            (#[trigger] longer[i]).previous_hash,
        ) == last_hash_of(longer.take(i)) by {
            assert(longer.take(i) =~= events.take(i));
            if i < events.len() {
                assert(longer[i] == events[i]);
            } else {
                assert(events.take(i) =~= events);
            }
        }
    }
}

// ---------------------------------------------------------------------------
// The latest version of each run

/// The index of the first run with an id, or the number of runs where there is none.
pub open spec fn run_index(runs: Seq<RunRecord>, id: Seq<char>) -> int
    decreases runs.len(),
{
    if runs.len() == 0 || runs[0].id@ == id {
        0
    } else {
        1 + run_index(runs.drop_first(), id)
    }
}

/// The latest version of each run, in the order in which the runs were first recorded.
pub open spec fn latest(events: Seq<LedgerEvent>) -> Seq<RunRecord>
    decreases events.len(),
{
    if events.len() == 0 {
        seq![]
    } else {
        let before = latest(events.drop_last());
        let run = events.last().run;
        let i = run_index(before, run.id@);
        if i < before.len() {
            before.update(i, run)
        } else {
            before.push(run)
        }
    }
}

/// Where the first run with an id is.
pub proof fn lemma_run_index(runs: Seq<RunRecord>, id: Seq<char>)
    ensures
        0 <= run_index(runs, id) <= runs.len(),
        forall|j: int| 0 <= j < run_index(runs, id) ==> (#[trigger] runs[j]).id@ != id,
        run_index(runs, id) < runs.len() ==> runs[run_index(runs, id)].id@ == id,
    decreases runs.len(),
{
    if runs.len() > 0 && runs[0].id@ != id {
        let rest = runs.drop_first();
        lemma_run_index(rest, id);
        assert forall|j: int| 0 <= j < run_index(runs, id) implies (#[trigger] runs[j]).id@
            != id by {
            if j > 0 {
                assert(runs[j] == rest[j - 1]);
            }
        }
        if run_index(runs, id) < runs.len() {
            assert(rest[run_index(rest, id)] == runs[run_index(runs, id)]);
        }
    }
}

pub proof fn lemma_run_index_is(runs: Seq<RunRecord>, id: Seq<char>, i: int)
    requires
        0 <= i <= runs.len(),
        forall|j: int| 0 <= j < i ==> (#[trigger] runs[j]).id@ != id,
        i < runs.len() ==> runs[i].id@ == id,
    ensures
        run_index(runs, id) == i,
{
    lemma_run_index(runs, id);
    let k = run_index(runs, id);
    if k < i {
        assert(runs[k].id@ != id);
    }
    if i < k {
        assert(runs[i].id@ != id);
    }
}

/// The index of the first run with an id.
pub fn find_run(runs: &Vec<RunRecord>, id: &str) -> (r: Option<usize>)
    ensures
        match r {
            Some(i) => i == run_index(runs@, id@) && i < runs@.len(),
            None => run_index(runs@, id@) == runs@.len(),
        },
{
    for i in 0..runs.len()
        invariant
            forall|j: int| 0 <= j < i ==> (#[trigger] runs@[j]).id@ != id@,
    {
        if *runs[i].id.as_str() == *id {
            proof {
                lemma_run_index_is(runs@, id@, i as int);
            }
            return Some(i);
        }
    }
    proof {
        lemma_run_index_is(runs@, id@, runs@.len() as int);
    }
    None
}

/// The runs of a ledger: of each run the version that was appended last.
pub fn load_runs(events: Vec<LedgerEvent>) -> (r: Vec<RunRecord>)
    ensures
        r@ == latest(events@),
{
    let ghost all = events@;
    let mut runs: Vec<RunRecord> = Vec::new();
    for event in it: events
        invariant
            it.seq() == all,
            runs@ == latest(all.take(it.index() as int)),
    {
        proof {
            let next = all.take(it.index() + 1);
            assert(next.drop_last() =~= all.take(it.index() as int));
            assert(next.last() == event);
            lemma_run_index(runs@, event.run.id@);
        }
        match find_run(&runs, event.run.id.as_str()) {
            Some(i) => {
                runs.set(i, event.run);
            },
            None => {
                runs.push(event.run);
            },
        }
    }
    assert(all.take(all.len() as int) =~= all);
    runs
}

/// The index of the first event of a run, or the number of events where there is none.
pub open spec fn first_event(events: Seq<LedgerEvent>, id: Seq<char>) -> int
    decreases events.len(),
{
    if events.len() == 0 {
        0
    } else {
        let before = first_event(events.drop_last(), id);
        if before < events.len() - 1 || events.last().run.id@ == id {
            before
        } else {
            events.len() as int
        }
    }
}

/// Whether `run` is what the last event with its id records.
pub open spec fn is_latest_version(events: Seq<LedgerEvent>, run: RunRecord) -> bool {
    exists|k: int|
        #![trigger events[k]]
        0 <= k < events.len() && events[k].run == run && forall|m: int|
            k < m < events.len() ==> (#[trigger] events[m]).run.id@ != run.id@
}

/// A run is listed once: no two of the runs of a ledger have one id.
pub proof fn runs_are_distinct(events: Seq<LedgerEvent>)
    ensures
        forall|i: int, j: int|
            0 <= i < j < latest(events).len() ==> (#[trigger] latest(events)[i]).id@ != (
            #[trigger] latest(events)[j]).id@,
    decreases events.len(),
{
    if events.len() > 0 {
        let before = latest(events.drop_last());
        runs_are_distinct(events.drop_last());
        let id = events.last().run.id@;
        lemma_run_index(before, id);
        let k = run_index(before, id);
        let now = latest(events);
        assert forall|i: int, j: int| 0 <= i < j < now.len() implies (#[trigger] now[i]).id@ != (
        #[trigger] now[j]).id@ by {
            if k < before.len() {
                if i != k {
                    assert(now[i] == before[i]);
                }
                if j != k {
                    assert(now[j] == before[j]);
                }
                assert(before[i].id@ != before[j].id@);
            } else {
                assert(now[i] == before[i]);
                if j < before.len() {
                    assert(now[j] == before[j]);
                }
            }
        }
    }
}

/// The latest version wins: each listed run is what the last event with its id records.
pub proof fn latest_version_wins(events: Seq<LedgerEvent>)
    ensures
        forall|i: int|
            0 <= i < latest(events).len() ==> is_latest_version(events, #[trigger] latest(events)[i]),
    decreases events.len(),
{
    if events.len() > 0 {
        let old_events = events.drop_last();
        let before = latest(old_events);
        latest_version_wins(old_events);
        runs_are_distinct(old_events);
        let id = events.last().run.id@;
        lemma_run_index(before, id);
        let k = run_index(before, id);
        let now = latest(events);
        assert forall|i: int| 0 <= i < now.len() implies is_latest_version(
            events,
            #[trigger] now[i],
        ) by {
            if now[i] == events.last().run {
                assert(events[events.len() - 1].run == now[i]);
            } else {
                assert(now[i] == before[i]);
                assert(is_latest_version(old_events, before[i]));
                let n = choose|n: int|
                    #![trigger old_events[n]]
                    0 <= n < old_events.len() && old_events[n].run == before[i] && forall|m: int|
                        n < m < old_events.len() ==> (#[trigger] old_events[m]).run.id@
                            != before[i].id@;
                assert(events[n] == old_events[n]);
                assert forall|m: int| n < m < events.len() implies (
                #[trigger] events[m]).run.id@ != now[i].id@ by {
                    if m < old_events.len() {
                        assert(events[m] == old_events[m]);
                    } else if k < before.len() {
                        assert(i != k);
                        if i < k {
                            assert(before[i].id@ != before[k].id@);
                        } else {
                            assert(before[k].id@ != before[i].id@);
                        }
                    } else {
                        assert(before[i].id@ != id);
                    }
                }
            }
        }
    }
}

/// Every run that the ledger records is listed.
pub proof fn every_run_is_listed(events: Seq<LedgerEvent>, k: int)
    requires
        0 <= k < events.len(),
    ensures
        run_index(latest(events), events[k].run.id@) < latest(events).len(),
    decreases events.len(),
{
    let before = latest(events.drop_last());
    let now = latest(events);
    let id = events[k].run.id@;
    let last = events.last().run;
    lemma_run_index(before, last.id@);
    lemma_run_index(now, id);
    let at = run_index(before, last.id@);
    if k == events.len() - 1 {
        assert(now[at] == last);
        if run_index(now, id) >= now.len() {
            assert(now[at].id@ != id);
        }
    } else {
        assert(events.drop_last()[k] == events[k]);
        every_run_is_listed(events.drop_last(), k);
        lemma_run_index(before, id);
        let i = run_index(before, id);
        assert(now[i].id@ == id);
        if run_index(now, id) >= now.len() {
            assert(now[i].id@ != id);
        }
    }
}

/// The runs are listed in the order of their first events.
pub proof fn runs_keep_their_order(events: Seq<LedgerEvent>)
    ensures
        forall|i: int, j: int|
            0 <= i < j < latest(events).len() ==> first_event(
                events,
                (#[trigger] latest(events)[i]).id@,
            ) < first_event(events, (#[trigger] latest(events)[j]).id@),
        forall|i: int|
            0 <= i < latest(events).len() ==> first_event(
                events,
                (#[trigger] latest(events)[i]).id@,
            ) < events.len(),
    decreases events.len(),
{
    if events.len() > 0 {
        let old_events = events.drop_last();
        let before = latest(old_events);
        let now = latest(events);
        runs_keep_their_order(old_events);
        let last = events.last().run;
        lemma_run_index(before, last.id@);
        let k = run_index(before, last.id@);
        assert forall|i: int| 0 <= i < now.len() implies first_event(
            events,
            (#[trigger] now[i]).id@,
        ) == (if i < before.len() {
            first_event(old_events, before[i].id@)
        } else {
            events.len() - 1
        }) by {
            if i < before.len() {
                assert(now[i].id@ == before[i].id@);
                assert(first_event(old_events, before[i].id@) < old_events.len());
            } else {
                assert(now[i] == last);
                if first_event(old_events, last.id@) < old_events.len() {
                    first_event_is_event(old_events, last.id@);
                    let n = first_event(old_events, last.id@);
                    every_run_is_listed(old_events, n);
                }
                lemma_first_event_bound(old_events, last.id@);
            }
        }
        assert forall|i: int, j: int| 0 <= i < j < now.len() implies first_event(
            events,
            (#[trigger] now[i]).id@,
        ) < first_event(events, (#[trigger] now[j]).id@) by {
            if j < before.len() {
                assert(first_event(old_events, before[i].id@) < first_event(
                    old_events,
                    before[j].id@,
                ));
            } else {
                assert(first_event(old_events, before[i].id@) < old_events.len());
            }
        }
    }
}

proof fn lemma_first_event_bound(events: Seq<LedgerEvent>, id: Seq<char>)
    ensures
        0 <= first_event(events, id) <= events.len(),
    decreases events.len(),
{
    if events.len() > 0 {
        lemma_first_event_bound(events.drop_last(), id);
    }
}

/// The first event of a run is an event of that run.
pub proof fn first_event_is_event(events: Seq<LedgerEvent>, id: Seq<char>)
    requires
        first_event(events, id) < events.len(),
    ensures
        0 <= first_event(events, id),
        events[first_event(events, id)].run.id@ == id,
        forall|j: int| 0 <= j < first_event(events, id) ==> (#[trigger] events[j]).run.id@ != id,
    decreases events.len(),
{
    lemma_first_event_bound(events, id);
    let old_events = events.drop_last();
    lemma_first_event_bound(old_events, id);
    let n = first_event(old_events, id);
    if n < old_events.len() {
        first_event_is_event(old_events, id);
        assert(events[n] == old_events[n]);
        assert forall|j: int| 0 <= j < n implies (#[trigger] events[j]).run.id@ != id by {
            assert(events[j] == old_events[j]);
        }
    } else {
        lemma_no_event(old_events, id);
        assert forall|j: int| 0 <= j < n implies (#[trigger] events[j]).run.id@ != id by {
            assert(events[j] == old_events[j]);
        }
    }
}

proof fn lemma_no_event(events: Seq<LedgerEvent>, id: Seq<char>)
    requires
        first_event(events, id) == events.len(),
    ensures
        forall|j: int| 0 <= j < events.len() ==> (#[trigger] events[j]).run.id@ != id,
    decreases events.len(),
{
    if events.len() > 0 {
        let old_events = events.drop_last();
        lemma_first_event_bound(old_events, id);
        lemma_no_event(old_events, id);
        assert forall|j: int| 0 <= j < events.len() implies (#[trigger] events[j]).run.id@
            != id by {
            if j < old_events.len() {
                assert(events[j] == old_events[j]);
            }
        }
    }
}

/// A new version of a run takes the place of the old one: nothing else in the list changes.
pub proof fn new_version_replaces(events: Seq<LedgerEvent>, event: LedgerEvent)
    requires
        run_index(latest(events), event.run.id@) < latest(events).len(),
    ensures
        latest(events.push(event)) == latest(events).update(
            run_index(latest(events), event.run.id@),
            event.run,
        ),
        latest(events.push(event)).len() == latest(events).len(),
{
    assert(events.push(event).drop_last() =~= events);
    lemma_run_index(latest(events), event.run.id@);
}

/// A run that is recorded for the first time is listed behind the others.
pub proof fn new_run_is_added(events: Seq<LedgerEvent>, event: LedgerEvent)
    requires
        run_index(latest(events), event.run.id@) == latest(events).len(),
    ensures
        latest(events.push(event)) == latest(events).push(event.run),
{
    assert(events.push(event).drop_last() =~= events);
}

// ---------------------------------------------------------------------------
// Evals after the run

/// Whether there is anything to evaluate.
pub fn require_tests(tests: &Vec<String>) -> (r: Result<(), LedgerError>)
    ensures
        match r {
            Ok(_) => tests@.len() > 0,
            Err(LedgerError::Config(m)) => tests@.len() == 0 && m@
                == "pass at least one --test command"@,
            Err(_) => false,
        },
{
    if tests.len() == 0 {
        Err(LedgerError::Config("pass at least one --test command".to_owned()))
    } else {
        Ok(())
    }
}

/// The run that a later eval starts from.
pub fn run_to_evaluate(run_id: &str, runs: Vec<RunRecord>) -> (r: Result<RunRecord, LedgerError>)
    ensures
        match r {
            Ok(run) => run_index(runs@, run_id@) < runs@.len() && run == runs@[run_index(
                runs@,
                run_id@,
            )],
            Err(LedgerError::Storage(m)) => run_index(runs@, run_id@) == runs@.len() && m@
                == "run '"@ + run_id@ + "' not found in ledger"@,
            Err(_) => false,
        },
{
    match find_run(&runs, run_id) {
        Some(i) => {
            let mut runs = runs;
            Ok(runs.swap_remove(i))
        },
        None => Err(LedgerError::Storage(concat3("run '", run_id, "' not found in ledger"))),
    }
}

/// Whether the repository of a run can still be evaluated.
pub fn check_repo(repo: &str, is_dir: bool) -> (r: Result<(), LedgerError>)
    ensures
        match r {
            Ok(_) => is_dir,
            Err(LedgerError::Capture(m)) => !is_dir && m@ == "recorded repo path '"@ + repo@
                + "' no longer exists"@,
            Err(_) => false,
        },
{
    if is_dir {
        Ok(())
    } else {
        Err(
            LedgerError::Capture(concat3("recorded repo path '", repo, "' no longer exists")),
        )
    }
}

/// The run with what later tests did behind the evals it had, one eval for each test and in
/// order, and with its status anew: it passed where its command exited with zero and every eval
/// passed.
pub fn with_evals(run: RunRecord, tests: &Vec<String>, ran: &Vec<CommandOutcome>) -> (r: RunRecord)
    requires
        ran@.len() == tests@.len(),
    ensures
        r.evals@.len() == run.evals@.len() + tests@.len(),
        r.evals@.take(run.evals@.len() as int) == run.evals@,
        are_eval_records(r.evals@.skip(run.evals@.len() as int), tests@, ran@),
        r.status@ == outcome(run.exit_code == Some(0i32) && all_passed(r.evals@)),
        r.status@ == "passed"@ || r.status@ == "failed"@,
        r.status@ == "passed"@ <==> {
            &&& run.exit_code == Some(0i32)
            &&& forall|i: int|
                0 <= i < run.evals@.len() ==> (#[trigger] run.evals@[i]).status@ == "passed"@
            &&& forall|i: int| 0 <= i < ran@.len() ==> (#[trigger] ran@[i]).success
        },
        r == (RunRecord { evals: r.evals, status: r.status, ..run }),
{
    let ghost before = run.evals@;
    let mut run = run;
    let mut evals = eval_records(tests, ran);
    let ghost added = evals@;
    run.evals.append(&mut evals);
    assert(run.evals@.take(before.len() as int) =~= before);
    assert(run.evals@.skip(before.len() as int) =~= added);
    let command_passed = match run.exit_code {
        Some(code) => code == 0,
        None => false,
    };
    let passed = evals_passed(&run.evals);
    proof {
        every_eval_command_counts(added, tests@, ran@);
        reveal_strlit("passed");
        reveal_strlit("failed");
        assert("passed"@[0] != "failed"@[0]);
        let n = before.len() as int;
        if passed {
            assert forall|i: int| 0 <= i < n implies (#[trigger] before[i]).status@ == "passed"@ by {
                assert(run.evals@[i] == before[i]);
            }
            assert forall|i: int| 0 <= i < added.len() implies (#[trigger] added[i]).status@
                == "passed"@ by {
                assert(run.evals@[n + i] == added[i]);
            }
        }
        if all_passed(before) && all_passed(added) {
            assert forall|i: int| 0 <= i < run.evals@.len() implies (
            #[trigger] run.evals@[i]).status@ == "passed"@ by {
                if i < n {
                    assert(run.evals@[i] == before[i]);
                } else {
                    assert(run.evals@[i] == added[i - n]);
                }
            }
        }
    }
    run.status = outcome_word(command_passed && passed);
    run
}

// ---------------------------------------------------------------------------
// What the operations are

/// A ledger is a chain where its first event links to nothing, and every other event links to the
/// hash of the event before it.
pub proof fn chain_links_neighbours(events: Seq<LedgerEvent>)
    ensures
        linked(events) <==> {
            &&& events.len() > 0 ==> events[0].previous_hash is None
            &&& forall|i: int|
                1 <= i < events.len() ==> ((#[trigger] events[i]).previous_hash matches Some(hash)
                    && hash@ == events[i - 1].hash@)
        },
        events.len() == 0 ==> last_hash_of(events) is None,
        events.len() > 0 ==> last_hash_of(events) == Some(events[events.len() - 1].hash@),
{
    assert forall|i: int| 0 <= i < events.len() implies last_hash_of(#[trigger] events.take(i)) == (
    if i == 0 {
        None
    } else {
        Some(events[i - 1].hash@)
    }) by {}
    if linked(events) {
        if events.len() > 0 {
            assert(view_option(events[0].previous_hash) == last_hash_of(events.take(0)));
        }
        assert forall|i: int| 1 <= i < events.len() implies ((
        #[trigger] events[i]).previous_hash matches Some(hash) && hash@ == events[i - 1].hash@) by {
            assert(view_option(events[i].previous_hash) == last_hash_of(events.take(i)));
        }
    }
    if events.len() > 0 ==> events[0].previous_hash is None {
        if forall|i: int|
            1 <= i < events.len() ==> ((#[trigger] events[i]).previous_hash matches Some(hash)
                && hash@ == events[i - 1].hash@) {
            assert forall|i: int| 0 <= i < events.len() implies view_option(
                (#[trigger] events[i]).previous_hash,
            ) == last_hash_of(events.take(i)) by {
                assert(last_hash_of(events.take(i)) == (if i == 0 {
                    None
                } else {
                    Some(events[i - 1].hash@)
                }));
            }
        }
    }
}

/// The hash of an event covers the run, the hash that it links to, and nothing else that changes:
/// it is that of an object with four members.
pub proof fn hash_covers_the_event(previous_hash: Option<Seq<char>>, run: Json)
    ensures
        event_hash(previous_hash, run) == blake3_hex(
            encode_utf8(rendered(payload(previous_hash, run))),
        ),
        payload(previous_hash, run).field("run"@) == Some(run),
        payload(previous_hash, run).field("previous_hash"@) == Some(
            match previous_hash {
                Some(hash) => Json::Text(hash),
                None => Json::Null,
            },
        ),
        payload(previous_hash, run).field("record_type"@) == Some(Json::Text("run"@)),
        payload(previous_hash, run).field("schema_version"@) == Some(
            Json::Number { text: seq!['1'], unsigned: Some(1u64) },
        ),
        forall|key: Seq<char>|
            payload(previous_hash, run).field(key) is Some ==> key == "run"@ || key
                == "previous_hash"@ || key == "record_type"@ || key == "schema_version"@,
{
    reveal_strlit("run");
    reveal_strlit("previous_hash");
    reveal_strlit("record_type");
    reveal_strlit("schema_version");
    assert("run"@.len() == 3);
    assert("previous_hash"@.len() == 13);
    assert("record_type"@.len() == 11);
    assert("schema_version"@.len() == 14);
    assert(decimal(1) =~= seq!['1']);
}

/// What the runs of a ledger are, over its events alone: what the last event of each run records
/// is listed, and nothing else.
pub proof fn last_event_of_each_run_is_listed(events: Seq<LedgerEvent>)
    ensures
        forall|k: int|
            0 <= k < events.len() && (forall|m: int|
                k < m < events.len() ==> (#[trigger] events[m]).run.id@ != events[k].run.id@)
                ==> #[trigger] latest(events).contains(events[k].run),
        forall|i: int|
            0 <= i < latest(events).len() ==> exists|k: int|
                #![trigger events[k]]
                0 <= k < events.len() && events[k].run == #[trigger] latest(events)[i] && forall|
                    m: int,
                | k < m < events.len() ==> (#[trigger] events[m]).run.id@ != events[k].run.id@,
{
    latest_version_wins(events);
    assert forall|k: int|
        0 <= k < events.len() && (forall|m: int|
            k < m < events.len() ==> (#[trigger] events[m]).run.id@ != events[k].run.id@)
        implies #[trigger] latest(events).contains(events[k].run) by {
        let id = events[k].run.id@;
        every_run_is_listed(events, k);
        lemma_run_index(latest(events), id);
        let i = run_index(latest(events), id);
        let run = latest(events)[i];
        assert(is_latest_version(events, run));
        let n = choose|n: int|
            #![trigger events[n]]
            0 <= n < events.len() && events[n].run == run && forall|m: int|
                n < m < events.len() ==> (#[trigger] events[m]).run.id@ != run.id@;
        if n < k {
            assert(events[k].run.id@ != run.id@);
        }
        if k < n {
            assert(events[n].run.id@ != events[k].run.id@);
        }
        assert(latest(events)[i] == events[k].run);
    }
    assert forall|i: int| 0 <= i < latest(events).len() implies exists|k: int|
        #![trigger events[k]]
        0 <= k < events.len() && events[k].run == #[trigger] latest(events)[i] && forall|m: int|
            k < m < events.len() ==> (#[trigger] events[m]).run.id@ != events[k].run.id@ by {
        assert(is_latest_version(events, latest(events)[i]));
        let n = choose|n: int|
            #![trigger events[n]]
            0 <= n < events.len() && events[n].run == latest(events)[i] && forall|m: int|
                n < m < events.len() ==> (#[trigger] events[m]).run.id@ != latest(events)[i].id@;
        assert(events[n].run == latest(events)[i]);
    }
}

/// An event never takes a run away: what was listed stays where it was, with the same id, and only
/// the run of the event is listed with what the event records.
pub proof fn events_only_add(events: Seq<LedgerEvent>, event: LedgerEvent)
    ensures
        ({
            let before = latest(events);
            let after = latest(events.push(event));
            &&& before.len() <= after.len() <= before.len() + 1
            &&& after.contains(event.run)
            &&& forall|i: int|
                0 <= i < before.len() ==> (#[trigger] after[i]).id@ == before[i].id@
            &&& forall|i: int|
                0 <= i < before.len() && before[i].id@ != event.run.id@ ==> #[trigger] after[i]
                    == before[i]
            &&& after.len() > before.len() <==> (forall|k: int|
                0 <= k < events.len() ==> (#[trigger] events[k]).run.id@ != event.run.id@)
        }),
{
    let before = latest(events);
    let after = latest(events.push(event));
    let id = event.run.id@;
    assert(events.push(event).drop_last() =~= events);
    lemma_run_index(before, id);
    let i = run_index(before, id);
    assert(after[i] == event.run);
    if i < before.len() {
        latest_version_wins(events);
        assert(is_latest_version(events, before[i]));
        let n = choose|n: int|
            #![trigger events[n]]
            0 <= n < events.len() && events[n].run == before[i] && forall|m: int|
                n < m < events.len() ==> (#[trigger] events[m]).run.id@ != before[i].id@;
        assert(events[n].run.id@ == id);
    } else {
        assert forall|k: int| 0 <= k < events.len() implies (#[trigger] events[k]).run.id@ != id by {
            if events[k].run.id@ == id {
                every_run_is_listed(events, k);
            }
        }
    }
}

/// The run that is evaluated later is found by its id, wherever it is listed.
pub proof fn run_is_found_by_its_id(runs: Seq<RunRecord>, id: Seq<char>, i: int)
    ensures
        0 <= i < runs.len() && runs[i].id@ == id ==> 0 <= run_index(runs, id) <= i
            && runs[run_index(runs, id)].id@ == id,
        (forall|j: int| 0 <= j < runs.len() ==> (#[trigger] runs[j]).id@ != id) <==> run_index(
            runs,
            id,
        ) == runs.len(),
{
    lemma_run_index(runs, id);
    if 0 <= i < runs.len() && runs[i].id@ == id && i < run_index(runs, id) {
        assert(runs[i].id@ != id);
    }
    if run_index(runs, id) < runs.len() {
        assert(runs[run_index(runs, id)].id@ == id);
    }
}

} // verus!

//! Where the files of a ledger stand. Paths are written as the system writes them, and `windows`
//! tells whether that is Windows.
use crate::text::{chars_of, view_option};
use vstd::prelude::*;
use vstd::string::*;

verus! {

/// Whether a character separates the parts of a path. Windows has two of them.
pub open spec fn is_separator(c: char, windows: bool) -> bool {
    c == '/' || (windows && c == '\\')
}

/// Whether a path is the letter of a drive alone, which names the current directory of that drive.
pub open spec fn is_drive(dir: Seq<char>) -> bool {
    &&& dir.len() == 2
    &&& dir[1] == ':'
    &&& ('a' <= dir[0] <= 'z' || 'A' <= dir[0] <= 'Z')
}

/// A relative path below a directory, as the system writes it.
pub open spec fn below(dir: Seq<char>, name: Seq<char>, windows: bool) -> Seq<char> {
    if dir.len() == 0 || is_separator(dir.last(), windows) || (windows && is_drive(dir)) {
        dir + name
    } else if windows {
        dir.push('\\') + name
    } else {
        dir.push('/') + name
    }
}

/// The path of `name`, a relative path, below the directory `dir`.
pub fn join_path(dir: &str, name: &str, windows: bool) -> (r: String)
    ensures
        r@ == below(dir@, name@, windows),
{
    let chars = chars_of(dir);
    let n: usize = chars.len();
    let mut out = dir.to_owned();
    if n > 0 {
        let last = chars[n - 1];
        let first = chars[0];
        let letter = ('a' <= first && first <= 'z') || ('A' <= first && first <= 'Z');
        let drive = n == 2 && last == ':' && letter;
        let separated = last == '/' || (windows && last == '\\');
        if !separated && !(windows && drive) {
            out.push(if windows {
                '\\'
            } else {
                '/'
            });
        }
    }
    out.append(name);
    out
}

/// The directory of the ledger that belongs to a project.
pub open spec fn ledger_dir_of(root: Seq<char>, windows: bool) -> Seq<char> {
    below(root, ".agentledger"@, windows)
}

/// The directory of the ledger that belongs to a project.
pub fn ledger_dir(root: &str, windows: bool) -> (r: String)
    ensures
        r@ == ledger_dir_of(root@, windows),
{
    join_path(root, ".agentledger", windows)
}

/// The directory that holds what runs wrote.
pub fn runs_dir(root: &str, windows: bool) -> (r: String)
    ensures
        r@ == below(ledger_dir_of(root@, windows), "runs"@, windows),
{
    join_path(ledger_dir(root, windows).as_str(), "runs", windows)
}

/// The directory that holds what one run wrote.
pub open spec fn run_dir_of(root: Seq<char>, run_id: Seq<char>, windows: bool) -> Seq<char> {
    below(below(ledger_dir_of(root, windows), "runs"@, windows), run_id, windows)
}

/// The directory that holds what one run wrote.
pub fn run_dir(root: &str, run_id: &str, windows: bool) -> (r: String)
    ensures
        r@ == run_dir_of(root@, run_id@, windows),
{
    join_path(runs_dir(root, windows).as_str(), run_id, windows)
}

/// The file with the events of the ledger.
pub fn events_path(root: &str, windows: bool) -> (r: String)
    ensures
        r@ == below(ledger_dir_of(root@, windows), "events.ndjson"@, windows),
{
    join_path(ledger_dir(root, windows).as_str(), "events.ndjson", windows)
}

/// The file with the LLM calls.
pub fn calls_path(root: &str, windows: bool) -> (r: String)
    ensures
        r@ == below(ledger_dir_of(root@, windows), "llm_calls.ndjson"@, windows),
{
    join_path(ledger_dir(root, windows).as_str(), "llm_calls.ndjson", windows)
}

/// The configuration file.
pub fn config_path(root: &str, windows: bool) -> (r: String)
    ensures
        r@ == below(root@, "AgentLedger.toml"@, windows),
{
    join_path(root, "AgentLedger.toml", windows)
}

/// What is told after a ledger was set up.
pub fn init_message(root: &str, windows: bool) -> (r: String)
    ensures
        r@ == "Initialized AgentLedger at "@ + ledger_dir_of(root@, windows),
{
    let mut out = "Initialized AgentLedger at ".to_owned();
    out.append(ledger_dir(root, windows).as_str());
    out
}

/// What sets up a ledger: the directories to make, which only their owner may enter, the files to
/// write where there are none, and what is told then.
#[derive(Debug, PartialEq, Eq)]
pub struct InitPlan {
    pub ledger_dir: String,
    pub runs_dir: String,
    pub new_config: Option<String>,
    pub new_events: Option<String>,
    pub message: String,
}

/// What sets up the ledger of a project. A configuration and events that are there stay as they
/// are.
pub fn init(root: &str, config_exists: bool, events_exist: bool, windows: bool) -> (r: InitPlan)
    ensures
        r.ledger_dir@ == ledger_dir_of(root@, windows),
        r.runs_dir@ == below(ledger_dir_of(root@, windows), "runs"@, windows),
        view_option(r.new_config) == (if config_exists {
            None
        } else {
            Some(below(root@, "AgentLedger.toml"@, windows))
        }),
        view_option(r.new_events) == (if events_exist {
            None
        } else {
            Some(below(ledger_dir_of(root@, windows), "events.ndjson"@, windows))
        }),
        r.message@ == "Initialized AgentLedger at "@ + ledger_dir_of(root@, windows),
{
    InitPlan {
        ledger_dir: ledger_dir(root, windows),
        runs_dir: runs_dir(root, windows),
        new_config: if config_exists {
            None
        } else {
            Some(config_path(root, windows))
        },
        new_events: if events_exist {
            None
        } else {
            Some(events_path(root, windows))
        },
        message: init_message(root, windows),
    }
}

/// A path below a directory is the directory, one separator and the path. The separator is not
/// repeated where the directory ends with one, and there is none behind no directory or, on
/// Windows, behind the letter of a drive.
pub proof fn path_stands_behind_its_directory(dir: Seq<char>, name: Seq<char>)
    ensures
        below(Seq::<char>::empty(), name, false) == name,
        below(Seq::<char>::empty(), name, true) == name,
        below(dir.push('/'), name, false) == dir.push('/') + name,
        below(dir.push('/'), name, true) == dir.push('/') + name,
        below(dir.push('\\'), name, true) == dir.push('\\') + name,
        dir.len() > 0 && dir.last() != '/' ==> below(dir, name, false) == dir + seq!['/'] + name,
        dir.len() > 0 && dir.last() != '/' && dir.last() != '\\' ==> below(dir, name, true) == (
        if dir.len() == 2 && dir[1] == ':' && ('a' <= dir[0] <= 'z' || 'A' <= dir[0] <= 'Z') {
            dir + name
        } else {
            dir + seq!['\\'] + name
        }),
{
    assert(below(Seq::<char>::empty(), name, false) =~= name);
    assert(below(Seq::<char>::empty(), name, true) =~= name);
    assert(dir.push('/') + name =~= dir + seq!['/'] + name);
    assert(dir.push('\\') + name =~= dir + seq!['\\'] + name);
}

/// The ledger of a project stands in its directory `.agentledger`, and what a run wrote stands in a
/// directory of its own there, under `runs`.
pub proof fn runs_stand_in_the_ledger(root: Seq<char>, run_id: Seq<char>, windows: bool)
    ensures
        ledger_dir_of(root, windows) == below(root, ".agentledger"@, windows),
        run_dir_of(root, run_id, windows) == below(
            below(below(root, ".agentledger"@, windows), "runs"@, windows),
            run_id,
            windows,
        ),
{
}

} // verus!

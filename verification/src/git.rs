//! What the output of `git` says of a repository.
use crate::bytes::{lossy_text, preview_bytes, preview_of, utf8_lossy};
use crate::error::LedgerError;
use crate::record::GitSnapshot;
use crate::text::{after_bytes, lines, lines_of, skip_bytes, starts_with, trim, trimmed, view_option, views};
use vstd::prelude::*;

verus! {

/// The text that a `git` command wrote, or the error that it failed with.
pub fn git_output(success: bool, stdout: &[u8], stderr: &[u8]) -> (r: Result<String, LedgerError>)
    ensures
        match r {
            Ok(text) => success && text@ == lossy_text(stdout@),
            Err(LedgerError::Capture(m)) => !success && m@ == preview_of(lossy_text(stderr@)),
            Err(_) => false,
        },
{
    if !success {
        return Err(LedgerError::Capture(preview_bytes(stderr)));
    }
    Ok(utf8_lossy(stdout))
}

/// The path that a line of `git status --porcelain` names: what stands behind two letters and a
/// space.
pub open spec fn status_path(line: Seq<char>) -> Seq<char> {
    trimmed(
        match after_bytes(line, 3) {
            Some(rest) => rest,
            None => line,
        },
    )
}

/// Whether a path belongs to the ledger.
pub open spec fn is_ledger_path(path: Seq<char>) -> bool {
    ||| path == "AgentLedger.toml"@
    ||| path == ".agentledger/"@
    ||| ".agentledger/"@.is_prefix_of(path)
}

/// Whether a line of `git status --porcelain` names a file of the ledger.
pub fn is_ledger_artifact_status(line: &str) -> (r: bool)
    ensures
        r == is_ledger_path(status_path(line@)),
{
    let path = match skip_bytes(line, 3) {
        Some(rest) => trim(rest.as_str()),
        None => trim(line),
    };
    *path.as_str() == *"AgentLedger.toml" || *path.as_str() == *".agentledger/" || starts_with(
        path.as_str(),
        ".agentledger/",
    )
}

/// Whether the output of `git status --porcelain` names a file that is not of the ledger.
pub open spec fn is_dirty(status: Seq<char>) -> bool {
    exists|i: int|
        0 <= i < lines_of(status).len() && !is_ledger_path(
            status_path(#[trigger] lines_of(status)[i]),
        )
}

/// Whether the output of `git status --porcelain` names a file that is not of the ledger.
pub fn status_is_dirty(status: &str) -> (r: bool)
    ensures
        r == is_dirty(status@),
{
    let list = lines(status);
    let ghost all = lines_of(status@);
    for i in 0..list.len()
        invariant
            views(list@) == all,
            all == lines_of(status@),
            forall|j: int| 0 <= j < i ==> is_ledger_path(status_path(#[trigger] all[j])),
    {
        assert(all[i as int] == list@[i as int]@);
        if !is_ledger_artifact_status(list[i].as_str()) {
            return true;
        }
    }
    assert(all.len() == list@.len());
    false
}

/// Whether `git rev-parse --is-inside-work-tree` says yes.
pub open spec fn says_work_tree(output: Option<Seq<char>>) -> bool {
    match output {
        Some(text) => trimmed(text) == "true"@,
        None => false,
    }
}

/// Whether `git rev-parse --is-inside-work-tree` says yes.
pub fn is_work_tree(output: &Option<String>) -> (r: bool)
    ensures
        r == says_work_tree(view_option(*output)),
{
    match output {
        Some(text) => {
            let word = trim(text.as_str());
            *word.as_str() == *"true"
        },
        None => false,
    }
}

/// The state of a repository from the outputs of `git`: whether it is a work tree, its commit,
/// the status of its files, and, after a run, the summary of the changes.
pub fn git_snapshot(
    inside: &Option<String>,
    head: &Option<String>,
    status: &Option<String>,
    diffstat: Option<String>,
    after: bool,
) -> (r: GitSnapshot)
    ensures
        r.is_git_repo == says_work_tree(view_option(*inside)),
        !r.is_git_repo ==> r.base_commit is None && !r.dirty_before && r.diffstat is None,
        r.is_git_repo ==> {
            &&& view_option(r.base_commit) == (match *head {
                Some(text) => Some(trimmed(text@)),
                None => None,
            })
            &&& r.dirty_before == (match *status {
                Some(text) => is_dirty(text@),
                None => false,
            })
            &&& r.diffstat == (if after {
                diffstat
            } else {
                None
            })
        },
        r.dirty_after == r.dirty_before,
{
    if !is_work_tree(inside) {
        return GitSnapshot {
            is_git_repo: false,
            base_commit: None,
            dirty_before: false,
            dirty_after: false,
            diffstat: None,
        };
    }
    let base_commit = match head {
        Some(text) => Some(trim(text.as_str())),
        None => None,
    };
    let dirty = match status {
        Some(text) => status_is_dirty(text.as_str()),
        None => false,
    };
    GitSnapshot {
        is_git_repo: true,
        base_commit,
        dirty_before: dirty,
        dirty_after: dirty,
        diffstat: if after {
            diffstat
        } else {
            None
        },
    }
}

/// Whether a line of `git status --porcelain` names a file of the ledger is told by its path, which
/// stands behind two letters and a space: the configuration, or anything in the directory of the
/// ledger.
pub proof fn ledger_files_are_told_by_their_path(x: char, y: char, path: Seq<char>)
    requires
        x as u32 <= 127,
        y as u32 <= 127,
    ensures
        status_path(seq![x, y, ' '] + path) == trimmed(path),
        is_ledger_path(path) <==> (path == "AgentLedger.toml"@ || ".agentledger/"@.is_prefix_of(
            path,
        )),
{
    let line = seq![x, y, ' '] + path;
    reveal_with_fuel(after_bytes, 4);
    assert(line.drop_first()[0] == y);
    assert(line.drop_first().drop_first()[0] == ' ');
    assert(line.drop_first().drop_first().drop_first() =~= path);
    let dir = ".agentledger/"@;
    assert(dir.is_prefix_of(dir));
}

/// A repository is dirty as soon as one line of its status, wherever it stands, names a file that
/// is not of the ledger, and is clean where every line names one of the ledger or there is none.
pub proof fn one_file_makes_a_repository_dirty(status: Seq<char>)
    ensures
        forall|i: int|
            0 <= i < lines_of(status).len() && !is_ledger_path(
                status_path(#[trigger] lines_of(status)[i]),
            ) ==> is_dirty(status),
        (forall|i: int|
            0 <= i < lines_of(status).len() ==> is_ledger_path(
                status_path(#[trigger] lines_of(status)[i]),
            )) ==> !is_dirty(status),
        status.len() == 0 ==> !is_dirty(status),
{
}

/// A directory is in a work tree exactly where `git` says `true`, whatever white space is around
/// the word.
pub proof fn work_tree_is_told_by_true(text: Seq<char>)
    ensures
        says_work_tree(Some(text)) <==> trimmed(text) == "true"@,
        !says_work_tree(None),
{
}

} // verus!

//! The capture of one run, from the request to the record.
//!
//! A capture passes through three states. What happens between two of them (reading the
//! repository, starting the proxy, running the command) is up to the caller, who hands its
//! outcome to the next step.
use crate::bytes::{lossy_text, preview_bytes, preview_of};
use crate::error::LedgerError;
use crate::ident::{is_uuid, new_uuid};
use crate::layout::{below, join_path, ledger_dir, ledger_dir_of, run_dir, run_dir_of};
use crate::proxy::{count_error_calls, every_failed_call_is_counted, failed_calls};
use crate::record::{all_passed, evals_passed, outcome, outcome_word, EvalRecord, GitSnapshot, RunMetrics, RunRecord};
use crate::text::{concat3, copy_list, views};
use vstd::prelude::*;
use vstd::string::*;

verus! {

/// The proxy that a run is captured with.
#[derive(Debug, Clone, PartialEq, Eq)]
pub struct ProxyRunConfig {
    pub bind: String,
    pub upstream: String,
    pub api_key_env: Option<String>,
    pub record_bodies: bool,
    pub fail_on_llm_error: bool,
}

/// What is asked of a capture.
#[derive(Debug, Clone, PartialEq, Eq)]
pub struct CaptureRequest {
    pub task: String,
    pub agent: String,
    pub command: Vec<String>,
    pub eval_commands: Vec<String>,
    pub allow_dirty: bool,
    pub proxy: Option<ProxyRunConfig>,
}

impl CaptureRequest {
    /// Whether failed LLM calls make the run fail.
    pub open spec fn fails_on_llm_error(self) -> bool {
        match self.proxy {
            Some(config) => config.fail_on_llm_error,
            None => false,
        }
    }
}

/// What a command did.
#[derive(Debug, Clone, PartialEq, Eq)]
pub struct CommandOutcome {
    pub success: bool,
    pub exit_code: Option<i32>,
    pub stdout: Vec<u8>,
    pub stderr: Vec<u8>,
    pub duration_ms: u128,
}

/// The command to run, where, and what its environment has besides that of the caller.
#[derive(Debug, Clone, PartialEq, Eq)]
pub struct Launch {
    pub command: Vec<String>,
    pub dir: String,
    pub env: Vec<(String, String)>,
}

/// A capture whose request has been accepted.
pub struct Begun {
    request: CaptureRequest,
}

/// A capture whose repository has been accepted.
pub struct Accepted {
    request: CaptureRequest,
    repo: String,
    windows: bool,
    git: GitSnapshot,
    run_id: String,
}

/// A capture whose command is running.
pub struct Running {
    request: CaptureRequest,
    repo: String,
    windows: bool,
    git: GitSnapshot,
    run_id: String,
    started_at: String,
}

impl Begun {
    pub closed spec fn request(self) -> CaptureRequest {
        self.request
    }

    #[verifier::type_invariant]
    closed spec fn has_a_command(self) -> bool {
        self.request.command@.len() > 0
    }
}

impl Accepted {
    pub closed spec fn request(self) -> CaptureRequest {
        self.request
    }

    pub closed spec fn repo(self) -> Seq<char> {
        self.repo@
    }

    pub closed spec fn windows(self) -> bool {
        self.windows
    }

    pub closed spec fn git(self) -> GitSnapshot {
        self.git
    }

    pub closed spec fn run_id(self) -> Seq<char> {
        self.run_id@
    }

    #[verifier::type_invariant]
    closed spec fn may_run(self) -> bool {
        &&& self.request.command@.len() > 0
        &&& self.git.dirty_before ==> self.request.allow_dirty
    }
}

impl Running {
    pub closed spec fn request(self) -> CaptureRequest {
        self.request
    }

    pub closed spec fn repo(self) -> Seq<char> {
        self.repo@
    }

    pub closed spec fn windows(self) -> bool {
        self.windows
    }

    pub closed spec fn git(self) -> GitSnapshot {
        self.git
    }

    pub closed spec fn run_id(self) -> Seq<char> {
        self.run_id@
    }

    pub closed spec fn started_at(self) -> Seq<char> {
        self.started_at@
    }

    #[verifier::type_invariant]
    closed spec fn may_run(self) -> bool {
        &&& self.request.command@.len() > 0
        &&& self.git.dirty_before ==> self.request.allow_dirty
    }
}

/// The start of a capture: a command is needed.
pub fn begin(request: CaptureRequest) -> (r: Result<Begun, LedgerError>)
    ensures
        match r {
            Ok(begun) => request.command@.len() > 0 && begun.request() == request,
            Err(LedgerError::Config(m)) => request.command@.len() == 0 && m@
                == "run command cannot be empty"@,
            Err(_) => false,
        },
{
    if request.command.len() == 0 {
        return Err(LedgerError::Config("run command cannot be empty".to_owned()));
    }
    Ok(Begun { request })
}

/// The error for a repository whose path cannot be resolved.
pub fn repo_error(detail: &str) -> (r: LedgerError)
    ensures
        r matches LedgerError::Config(m) && m@ == "cannot resolve repo path: "@ + detail@,
{
    let mut message = "cannot resolve repo path: ".to_owned();
    message.append(detail);
    LedgerError::Config(message)
}

impl Begun {
    /// The command that is to be captured is never empty.
    pub fn command(&self) -> (r: &Vec<String>)
        ensures
            *r == self.request().command,
            r@.len() > 0,
    {
        proof {
            use_type_invariant(&*self);
        }
        &self.request.command
    }

    /// The capture as the run `run_id`, unless the repository is dirty and may not be. Its paths
    /// are written as the system writes them, which is Windows or not.
    pub fn accept_as(
        self,
        repo: String,
        windows: bool,
        git: GitSnapshot,
        run_id: String,
    ) -> (r: Result<Accepted, LedgerError>)
        ensures
            match r {
                Ok(accepted) => {
                    &&& git.dirty_before ==> self.request().allow_dirty
                    &&& accepted.request() == self.request()
                    &&& accepted.repo() == repo@
                    &&& accepted.windows() == windows
                    &&& accepted.git() == git
                    &&& accepted.run_id() == run_id@
                },
                Err(LedgerError::Capture(m)) => {
                    &&& git.dirty_before && !self.request().allow_dirty
                    &&& m@ == "repository is dirty; commit changes or pass --allow-dirty"@
                },
                Err(_) => false,
            },
    {
        proof {
            use_type_invariant(&self);
        }
        if git.dirty_before && !self.request.allow_dirty {
            return Err(
                LedgerError::Capture(
                    "repository is dirty; commit changes or pass --allow-dirty".to_owned(),
                ),
            );
        }
        Ok(Accepted { request: self.request, repo, windows, git, run_id })
    }

    /// The capture as a run with a fresh id, unless the repository is dirty and may not be. Its
    /// paths are written as the system writes them, which is Windows or not.
    pub fn accept(self, repo: String, windows: bool, git: GitSnapshot) -> (r: Result<
        Accepted,
        LedgerError,
    >)
        ensures
            match r {
                Ok(accepted) => {
                    &&& git.dirty_before ==> self.request().allow_dirty
                    &&& accepted.request() == self.request()
                    &&& accepted.repo() == repo@
                    &&& accepted.windows() == windows
                    &&& accepted.git() == git
                    &&& is_uuid(accepted.run_id())
                },
                Err(LedgerError::Capture(m)) => {
                    &&& git.dirty_before && !self.request().allow_dirty
                    &&& m@ == "repository is dirty; commit changes or pass --allow-dirty"@
                },
                Err(_) => false,
            },
    {
        let run_id = new_uuid();
        self.accept_as(repo, windows, git, run_id)
    }
}

/// The view of a list of environment variables.
pub open spec fn env_views(list: Seq<(String, String)>) -> Seq<(Seq<char>, Seq<char>)> {
    list.map_values(|entry: (String, String)| (entry.0@, entry.1@))
}

/// What the environment of a captured command tells it of its run.
pub open spec fn run_env(run_id: Seq<char>, ledger: Seq<char>) -> Seq<(Seq<char>, Seq<char>)> {
    seq![
        ("AGENTLEDGER_RUN_ID"@, run_id),
        ("AGENTLEDGER_ROOT"@, ledger),
        ("AGENTLEDGER_PROXY_RUN_HEADER"@, "x-agentledger-run-id: "@ + run_id),
    ]
}

/// What the environment of a captured command tells it of the proxy at `url`.
pub open spec fn proxy_env(url: Seq<char>, stand_in_key: bool) -> Seq<(Seq<char>, Seq<char>)> {
    let urls = seq![
        ("AGENTLEDGER_PROXY_URL"@, url),
        ("OPENAI_BASE_URL"@, url),
        ("OPENAI_API_BASE"@, url),
    ];
    if stand_in_key {
        urls.push(("OPENAI_API_KEY"@, "agentledger-proxy"@))
    } else {
        urls
    }
}

/// A captured command finds the id of its run in its environment, and the header that names the
/// run to a proxy, whatever else its environment has.
pub proof fn command_knows_its_run(
    run_id: Seq<char>,
    ledger: Seq<char>,
    more: Seq<(Seq<char>, Seq<char>)>,
)
    ensures
        (run_env(run_id, ledger) + more).contains(("AGENTLEDGER_RUN_ID"@, run_id)),
        (run_env(run_id, ledger) + more).contains(("AGENTLEDGER_ROOT"@, ledger)),
        (run_env(run_id, ledger) + more).contains(
            ("AGENTLEDGER_PROXY_RUN_HEADER"@, "x-agentledger-run-id: "@ + run_id),
        ),
{
    let env = run_env(run_id, ledger) + more;
    assert(env[0] == ("AGENTLEDGER_RUN_ID"@, run_id));
    assert(env[1] == ("AGENTLEDGER_ROOT"@, ledger));
    assert(env[2] == ("AGENTLEDGER_PROXY_RUN_HEADER"@, "x-agentledger-run-id: "@ + run_id));
}

/// Whether the command gets a stand-in for the API key: the proxy has a key of its own, or the
/// caller has none.
pub open spec fn needs_stand_in_key(proxy: Option<ProxyRunConfig>, openai_key_set: bool) -> bool {
    (proxy is Some && proxy->0.api_key_env is Some) || !openai_key_set
}

impl Accepted {
    /// The id of the run.
    pub fn id(&self) -> (r: &String)
        ensures
            r@ == self.run_id(),
    {
        &self.run_id
    }

    /// The proxy that the run asks for.
    pub fn proxy(&self) -> (r: &Option<ProxyRunConfig>)
        ensures
            *r == self.request().proxy,
    {
        &self.request.proxy
    }

    /// The directory that is to hold what the run writes.
    pub fn output_dir(&self) -> (r: String)
        ensures
            r@ == run_dir_of(self.repo(), self.run_id(), self.windows()),
    {
        run_dir(self.repo.as_str(), self.run_id.as_str(), self.windows)
    }

    /// The launch of the command at the time `started_at`. `proxy_url` is where the proxy that
    /// was started for the run listens, if the run asks for one, and `openai_key_set` tells
    /// whether the caller's own environment has an API key.
    pub fn launch(
        self,
        proxy_url: Option<String>,
        openai_key_set: bool,
        started_at: String,
    ) -> (r: (Running, Launch))
        requires
            proxy_url is Some <==> self.request().proxy is Some,
        ensures
            r.0.request() == self.request(),
            r.0.repo() == self.repo(),
            r.0.windows() == self.windows(),
            r.0.git() == self.git(),
            r.0.run_id() == self.run_id(),
            r.0.started_at() == started_at@,
            r.1.command@ == self.request().command@,
            r.1.command@.len() > 0,
            r.1.dir@ == self.repo(),
            env_views(r.1.env@) == run_env(self.run_id(), ledger_dir_of(self.repo(), self.windows())) + (
            if self.request().proxy is Some {
                proxy_env(
                    proxy_url->0@,
                    needs_stand_in_key(self.request().proxy, openai_key_set),
                )
            } else {
                Seq::empty()
            }),
            self.git().dirty_before ==> self.request().allow_dirty,
    {
        proof {
            use_type_invariant(&self);
        }
        let ledger = ledger_dir(self.repo.as_str(), self.windows);
        let mut env: Vec<(String, String)> = Vec::new();
        env.push(("AGENTLEDGER_RUN_ID".to_owned(), self.run_id.clone()));
        env.push(("AGENTLEDGER_ROOT".to_owned(), ledger));
        let mut header = "x-agentledger-run-id: ".to_owned();
        header.append(self.run_id.as_str());
        env.push(("AGENTLEDGER_PROXY_RUN_HEADER".to_owned(), header));
        let ghost base = run_env(self.run_id@, ledger_dir_of(self.repo@, self.windows));
        assert(env_views(env@) =~= base);
        match &proxy_url {
            Some(url) => {
                env.push(("AGENTLEDGER_PROXY_URL".to_owned(), url.clone()));
                env.push(("OPENAI_BASE_URL".to_owned(), url.clone()));
                env.push(("OPENAI_API_BASE".to_owned(), url.clone()));
                let own_key = match &self.request.proxy {
                    Some(config) => config.api_key_env.is_some(),
                    None => false,
                };
                if own_key || !openai_key_set {
                    env.push(("OPENAI_API_KEY".to_owned(), "agentledger-proxy".to_owned()));
                    assert(env_views(env@) =~= base + proxy_env(url@, true));
                } else {
                    assert(env_views(env@) =~= base + proxy_env(url@, false));
                }
            },
            None => {
                assert(env_views(env@) =~= base + Seq::empty());
            },
        }
        let command = copy_list(&self.request.command);
        let dir = self.repo.clone();
        (
            Running {
                request: self.request,
                repo: self.repo,
                windows: self.windows,
                git: self.git,
                run_id: self.run_id,
                started_at,
            },
            Launch { command, dir, env },
        )
    }
}

/// A list of texts as Rust's debug format writes it.
pub uninterp spec fn debug_text(list: Seq<Seq<char>>) -> Seq<char>;

/// The `Debug` form of a vector of strings, a function of the strings.
#[verifier::external_body]
fn debug_list(list: &Vec<String>) -> (r: String)
    ensures
        r@ == debug_text(views(list@)),
{
    format!("{:?}", list)
}

/// The error for a command that could not be started.
pub fn launch_error(command: &Vec<String>, detail: &str) -> (r: LedgerError)
    ensures
        r matches LedgerError::Capture(m) && m@ == "failed to run "@ + debug_text(views(command@))
            + ": "@ + detail@,
{
    let shown = debug_list(command);
    let mut message = concat3("failed to run ", shown.as_str(), ": ");
    message.append(detail);
    LedgerError::Capture(message)
}

/// The error for an eval that could not be started.
pub fn eval_error(command: &str, detail: &str) -> (r: LedgerError)
    ensures
        r matches LedgerError::Capture(m) && m@ == "failed to run eval '"@ + command@ + "': "@
            + detail@,
{
    let mut message = concat3("failed to run eval '", command, "': ");
    message.append(detail);
    LedgerError::Capture(message)
}

/// The program and the arguments that run a command in the shell of the system.
pub fn shell_command(command: &str, windows: bool) -> (r: Vec<String>)
    ensures
        views(r@) == (if windows {
            seq!["cmd"@, "/C"@, command@]
        } else {
            seq!["sh"@, "-lc"@, command@]
        }),
{
    let (program, flag) = if windows {
        ("cmd", "/C")
    } else {
        ("sh", "-lc")
    };
    let r = vec![program.to_owned(), flag.to_owned(), command.to_owned()];
    assert(views(r@) =~= seq![program@, flag@, command@]);
    r
}

/// Whether `r` is the record of an eval command that ran.
pub open spec fn is_eval_record(r: EvalRecord, command: String, ran: CommandOutcome) -> bool {
    &&& r.command == command
    &&& r.exit_code == ran.exit_code
    &&& r.duration_ms == ran.duration_ms
    &&& r.status@ == outcome(ran.success)
    &&& r.stdout_preview@ == preview_of(lossy_text(ran.stdout@))
    &&& r.stderr_preview@ == preview_of(lossy_text(ran.stderr@))
}

/// Whether `evals` are the records of eval commands that ran, one for each command and in order.
pub open spec fn are_eval_records(
    evals: Seq<EvalRecord>,
    commands: Seq<String>,
    ran: Seq<CommandOutcome>,
) -> bool {
    &&& evals.len() == commands.len()
    &&& forall|i: int|
        0 <= i < evals.len() ==> is_eval_record(#[trigger] evals[i], commands[i], ran[i])
}

/// The record of an eval command that ran.
pub fn eval_record(command: String, ran: &CommandOutcome) -> (r: EvalRecord)
    ensures
        is_eval_record(r, command, *ran),
{
    EvalRecord {
        command,
        exit_code: ran.exit_code,
        duration_ms: ran.duration_ms,
        status: outcome_word(ran.success),
        stdout_preview: preview_bytes(ran.stdout.as_slice()),
        stderr_preview: preview_bytes(ran.stderr.as_slice()),
    }
}

/// The records of eval commands that ran, one for each command and in order.
pub fn eval_records(commands: &Vec<String>, ran: &Vec<CommandOutcome>) -> (r: Vec<EvalRecord>)
    requires
        ran@.len() == commands@.len(),
    ensures
        are_eval_records(r@, commands@, ran@),
{
    let mut evals: Vec<EvalRecord> = Vec::new();
    let n: usize = commands.len();
    for i in 0..n
        invariant
            n == commands@.len(),
            n == ran@.len(),
            evals@.len() == i,
            forall|j: int|
                0 <= j < i ==> is_eval_record(#[trigger] evals@[j], commands@[j], ran@[j]),
    {
        evals.push(eval_record(commands[i].clone(), &ran[i]));
    }
    evals
}

/// The number of failed LLM calls of a run: those of its proxy, and none without a proxy.
pub open spec fn llm_errors_of(proxy: Option<ProxyRunConfig>, answers: Seq<u16>) -> nat {
    if proxy is Some {
        failed_calls(answers)
    } else {
        0
    }
}

/// Whether a run passed: its command succeeded, every eval passed, and, where failed LLM calls
/// count, there were none.
pub open spec fn run_passed(
    success: bool,
    evals: Seq<EvalRecord>,
    fail_on_llm_error: bool,
    llm_error_calls: u64,
) -> bool {
    success && all_passed(evals) && !(fail_on_llm_error && llm_error_calls > 0)
}

impl Running {
    /// The eval commands of the run.
    pub fn eval_commands(&self) -> (r: &Vec<String>)
        ensures
            *r == self.request().eval_commands,
    {
        &self.request.eval_commands
    }

    /// The file that is to hold the standard output of the run.
    pub fn stdout_path(&self) -> (r: String)
        ensures
            r@ == below(
                run_dir_of(self.repo(), self.run_id(), self.windows()),
                "stdout.txt"@,
                self.windows(),
            ),
    {
        let dir = run_dir(self.repo.as_str(), self.run_id.as_str(), self.windows);
        join_path(dir.as_str(), "stdout.txt", self.windows)
    }

    /// The file that is to hold the standard error of the run.
    pub fn stderr_path(&self) -> (r: String)
        ensures
            r@ == below(
                run_dir_of(self.repo(), self.run_id(), self.windows()),
                "stderr.txt"@,
                self.windows(),
            ),
    {
        let dir = run_dir(self.repo.as_str(), self.run_id.as_str(), self.windows);
        join_path(dir.as_str(), "stderr.txt", self.windows)
    }

    /// The record of the run, once its command and its evals have ended. `evals_ran` is what its
    /// eval commands did, in order, and `answers` are the statuses with which its proxy answered
    /// the LLM calls of the run.
    pub fn finish(
        self,
        ran: &CommandOutcome,
        ended_at: String,
        git_after: GitSnapshot,
        evals_ran: &Vec<CommandOutcome>,
        answers: &Vec<u16>,
    ) -> (r: RunRecord)
        requires
            evals_ran@.len() == self.request().eval_commands@.len(),
        ensures
            r.id@ == self.run_id(),
            r.task == self.request().task,
            r.agent == self.request().agent,
            r.command == self.request().command,
            r.repo@ == self.repo(),
            r.started_at@ == self.started_at(),
            r.ended_at == ended_at,
            r.duration_ms == ran.duration_ms,
            r.exit_code == ran.exit_code,
            r.status@ == outcome(
                run_passed(
                    ran.success,
                    r.evals@,
                    self.request().fails_on_llm_error(),
                    r.llm_error_calls,
                ),
            ),
            r.source_precision@ == "observed"@,
            r.stdout_path@ == below(
                run_dir_of(self.repo(), self.run_id(), self.windows()),
                "stdout.txt"@,
                self.windows(),
            ),
            r.stderr_path@ == below(
                run_dir_of(self.repo(), self.run_id(), self.windows()),
                "stderr.txt"@,
                self.windows(),
            ),
            r.stdout_preview@ == preview_of(lossy_text(ran.stdout@)),
            r.stderr_preview@ == preview_of(lossy_text(ran.stderr@)),
            r.git == (GitSnapshot {
                dirty_after: git_after.dirty_after,
                diffstat: git_after.diffstat,
                ..self.git()
            }),
            are_eval_records(r.evals@, self.request().eval_commands@, evals_ran@),
            r.evals@.len() == self.request().eval_commands@.len(),
            forall|i: int|
                0 <= i < r.evals@.len() ==> {
                    &&& (#[trigger] r.evals@[i]).command == self.request().eval_commands@[i]
                    &&& r.evals@[i].exit_code == evals_ran@[i].exit_code
                    &&& r.evals@[i].duration_ms == evals_ran@[i].duration_ms
                    &&& r.evals@[i].status@ == (if evals_ran@[i].success {
                        "passed"@
                    } else {
                        "failed"@
                    })
                },
            r.status@ == "passed"@ || r.status@ == "failed"@,
            r.status@ == "passed"@ <==> {
                &&& ran.success
                &&& forall|i: int| 0 <= i < evals_ran@.len() ==> (#[trigger] evals_ran@[i]).success
                &&& match self.request().proxy {
                    Some(config) => config.fail_on_llm_error ==> (forall|i: int|
                        0 <= i < answers@.len() ==> #[trigger] answers@[i] < 400),
                    None => true,
                }
            },
            self.request().proxy is None ==> r.llm_error_calls == 0,
            self.request().proxy is Some ==> r.llm_error_calls == answers@.filter(
                |status: u16| status >= 400,
            ).len(),
            r.metrics.llm_metrics_precision@ == "unknown"@,
            r.metrics.knows_nothing(),
            r.llm_error_calls == llm_errors_of(self.request().proxy, answers@),
            r.command@.len() > 0,
            r.git.dirty_before ==> self.request().allow_dirty,
    {
        proof {
            use_type_invariant(&self);
        }
        let stdout_path = self.stdout_path();
        let stderr_path = self.stderr_path();
        let evals = eval_records(&self.request.eval_commands, evals_ran);
        let (fail_on_llm_error, llm_error_calls) = match &self.request.proxy {
            Some(config) => (config.fail_on_llm_error, count_error_calls(answers)),
            None => (false, 0),
        };
        let llm_failed = fail_on_llm_error && llm_error_calls > 0;
        let status = outcome_word(ran.success && evals_passed(&evals) && !llm_failed);
        proof {
            every_eval_command_counts(evals@, self.request.eval_commands@, evals_ran@);
            every_failed_call_is_counted(answers@);
            lemma_outcomes_differ();
        }
        RunRecord {
            id: self.run_id,
            task: self.request.task,
            agent: self.request.agent,
            command: self.request.command,
            repo: self.repo,
            started_at: self.started_at,
            ended_at,
            duration_ms: ran.duration_ms,
            exit_code: ran.exit_code,
            status,
            source_precision: "observed".to_owned(),
            stdout_path,
            stderr_path,
            stdout_preview: preview_bytes(ran.stdout.as_slice()),
            stderr_preview: preview_bytes(ran.stderr.as_slice()),
            git: GitSnapshot {
                is_git_repo: self.git.is_git_repo,
                base_commit: self.git.base_commit,
                dirty_before: self.git.dirty_before,
                dirty_after: git_after.dirty_after,
                diffstat: git_after.diffstat,
            },
            evals,
            metrics: RunMetrics::unknown("unknown"),
            llm_error_calls,
        }
    }
}

// ---------------------------------------------------------------------------
// What the operations are

proof fn lemma_outcomes_differ()
    ensures
        "passed"@ != "failed"@,
{
    reveal_strlit("passed");
    reveal_strlit("failed");
    assert("passed"@[0] != "failed"@[0]);
}

/// Every eval command has an eval of its own, which passed exactly where the command succeeded;
/// all evals passed exactly where every one of the commands succeeded, wherever it stands.
pub proof fn every_eval_command_counts(
    evals: Seq<EvalRecord>,
    commands: Seq<String>,
    ran: Seq<CommandOutcome>,
)
    requires
        are_eval_records(evals, commands, ran),
        ran.len() == commands.len(),
    ensures
        evals.len() == ran.len(),
        forall|i: int|
            0 <= i < ran.len() ==> {
                &&& (#[trigger] evals[i]).command == commands[i]
                &&& evals[i].exit_code == ran[i].exit_code
                &&& evals[i].duration_ms == ran[i].duration_ms
                &&& ran[i].success ==> evals[i].status@ == "passed"@
                &&& !ran[i].success ==> evals[i].status@ == "failed"@
                &&& evals[i].stdout_preview@ == preview_of(lossy_text(ran[i].stdout@))
                &&& evals[i].stderr_preview@ == preview_of(lossy_text(ran[i].stderr@))
            },
        all_passed(evals) <==> (forall|i: int|
            0 <= i < ran.len() ==> (#[trigger] ran[i]).success),
{
    lemma_outcomes_differ();
    assert forall|i: int| 0 <= i < ran.len() implies is_eval_record(
        #[trigger] evals[i],
        commands[i],
        ran[i],
    ) by {}
    if all_passed(evals) {
        assert forall|i: int| 0 <= i < ran.len() implies (#[trigger] ran[i]).success by {
            assert(evals[i].status@ == "passed"@);
        }
    }
    if forall|i: int| 0 <= i < ran.len() ==> (#[trigger] ran[i]).success {
        assert forall|i: int| 0 <= i < evals.len() implies (#[trigger] evals[i]).status@
            == "passed"@ by {
            assert(ran[i].success);
        }
    }
}

/// A run passes where its command succeeded, every one of its eval commands did, and no failed LLM
/// call counts; one eval command that failed, wherever it stands, makes it fail, and so does a
/// command that failed, or a failed call where they count.
pub proof fn run_passes_where_everything_does(
    success: bool,
    evals: Seq<EvalRecord>,
    commands: Seq<String>,
    ran: Seq<CommandOutcome>,
    fail_on_llm_error: bool,
    llm_error_calls: u64,
)
    requires
        are_eval_records(evals, commands, ran),
        ran.len() == commands.len(),
    ensures
        ({
            let word = outcome(run_passed(success, evals, fail_on_llm_error, llm_error_calls));
            &&& !success ==> word == "failed"@
            &&& forall|i: int|
                0 <= i < ran.len() && !(#[trigger] ran[i]).success ==> word == "failed"@
            &&& fail_on_llm_error && llm_error_calls > 0 ==> word == "failed"@
            &&& success && (forall|i: int|
                0 <= i < ran.len() ==> (#[trigger] ran[i]).success) && (!fail_on_llm_error
                || llm_error_calls == 0) ==> word == "passed"@
        }),
{
    every_eval_command_counts(evals, commands, ran);
}

/// The failed LLM calls of a run are those that its proxy answered with a status of four hundred
/// or more; without a proxy there are none, and none that could make the run fail.
pub proof fn failed_calls_are_those_of_the_proxy(request: CaptureRequest, answers: Seq<u16>)
    ensures
        request.proxy is None ==> llm_errors_of(request.proxy, answers) == 0
            && !request.fails_on_llm_error(),
        request.proxy matches Some(config) ==> llm_errors_of(request.proxy, answers)
            == answers.filter(|status: u16| status >= 400).len() && request.fails_on_llm_error()
            == config.fail_on_llm_error,
{
    every_failed_call_is_counted(answers);
}

/// What a command finds in its environment, name by name: always its run and the ledger, and where
/// there is a proxy also the address of the proxy under the names that clients read, and a key that
/// stands in for one where the caller has none or the proxy has its own.
pub proof fn environment_of_a_command(
    run_id: Seq<char>,
    ledger: Seq<char>,
    url: Seq<char>,
    config: ProxyRunConfig,
)
    ensures
        run_env(run_id, ledger) == seq![
            ("AGENTLEDGER_RUN_ID"@, run_id),
            ("AGENTLEDGER_ROOT"@, ledger),
            ("AGENTLEDGER_PROXY_RUN_HEADER"@, "x-agentledger-run-id: "@ + run_id),
        ],
        proxy_env(url, false) == seq![
            ("AGENTLEDGER_PROXY_URL"@, url),
            ("OPENAI_BASE_URL"@, url),
            ("OPENAI_API_BASE"@, url),
        ],
        proxy_env(url, true) == seq![
            ("AGENTLEDGER_PROXY_URL"@, url),
            ("OPENAI_BASE_URL"@, url),
            ("OPENAI_API_BASE"@, url),
            ("OPENAI_API_KEY"@, "agentledger-proxy"@),
        ],
        needs_stand_in_key(Some(config), false),
        needs_stand_in_key(Some(config), true) <==> config.api_key_env is Some,
{
    assert(proxy_env(url, true) =~= seq![
        ("AGENTLEDGER_PROXY_URL"@, url),
        ("OPENAI_BASE_URL"@, url),
        ("OPENAI_API_BASE"@, url),
        ("OPENAI_API_KEY"@, "agentledger-proxy"@),
    ]);
}

/// The variables of an environment are seen one by one.
pub proof fn variables_are_seen(list: Seq<(String, String)>)
    ensures
        env_views(list).len() == list.len(),
        forall|i: int|
            0 <= i < list.len() ==> #[trigger] env_views(list)[i] == (list[i].0@, list[i].1@),
{
}

} // verus!

//! The commands, as far as they decide something themselves.
use crate::capture::ProxyRunConfig;
use crate::error::LedgerError;
use crate::text::concat3;
use vstd::prelude::*;
use vstd::string::*;

verus! {

/// The directory that a command works on where none is named.
pub fn root_or_default(root: Option<String>) -> (r: String)
    ensures
        match root {
            Some(path) => r == path,
            None => r@ == "."@,
        },
{
    match root {
        Some(path) => path,
        None => ".".to_owned(),
    }
}

/// The proxy that a run asks for: one, where a provider is named, and with the defaults for what
/// is not said.
pub fn proxy_run_config(
    upstream: Option<String>,
    bind: Option<String>,
    api_key_env: Option<String>,
    record_bodies: Option<bool>,
    fail_on_llm_error: Option<bool>,
) -> (r: Option<ProxyRunConfig>)
    ensures
        match upstream {
            Some(url) => r matches Some(config) && {
                &&& config.upstream == url
                &&& match bind {
                    Some(address) => config.bind == address,
                    None => config.bind@ == "127.0.0.1:0"@,
                }
                &&& config.api_key_env == api_key_env
                &&& config.record_bodies == (record_bodies == Some(true))
                &&& config.fail_on_llm_error == (fail_on_llm_error == Some(true))
            },
            None => r is None,
        },
{
    match upstream {
        Some(upstream) => Some(
            ProxyRunConfig {
                bind: match bind {
                    Some(address) => address,
                    None => "127.0.0.1:0".to_owned(),
                },
                upstream,
                api_key_env,
                record_bodies: match record_bodies {
                    Some(record) => record,
                    None => false,
                },
                fail_on_llm_error: match fail_on_llm_error {
                    Some(fail) => fail,
                    None => false,
                },
            },
        ),
        None => None,
    }
}

/// The error for a replay, which there is none of yet.
pub fn replay_error(run_id: &str, mode: &str) -> (r: LedgerError)
    ensures
        r matches LedgerError::Unsupported(m) && m@ == "replay mode '"@ + mode@ + "' for run '"@
            + run_id@ + "' is planned after proxy capture"@,
{
    let mut message = concat3("replay mode '", mode, "' for run '");
    message.append(run_id);
    message.append("' is planned after proxy capture");
    LedgerError::Unsupported(message)
}

/// The providers that are known, one in each line.
pub fn provider_list() -> (r: &'static str)
    ensures
        r@ == "openrouter\nollama\nvllm\nlm-studio\nopenai-compatible"@,
{
    "openrouter\nollama\nvllm\nlm-studio\nopenai-compatible"
}

/// The agents that are known, one in each line.
pub fn agent_list() -> (r: &'static str)
    ensures
        r@ == "codex\nclaude-code\nopencode\ncustom"@,
{
    "codex\nclaude-code\nopencode\ncustom"
}

/// The commands of the agents that are known, one in each line and in the order of their names.
/// The last agent, which is for other commands, has none.
pub fn agent_commands() -> (r: &'static str)
    ensures
        r@ == "codex\nclaude\nopencode"@,
{
    "codex\nclaude\nopencode"
}

/// How a command line that failed ends: what is told, and its exit code.
pub fn failure(err: &LedgerError) -> (r: (String, i32))
    ensures
        r.0@ == "error: "@ + (err.prefix() + err.detail()),
        r.1 == 1,
{
    let mut line = "error: ".to_owned();
    line.append(err.message().as_str());
    (line, 1)
}

} // verus!

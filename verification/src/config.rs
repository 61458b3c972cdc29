//! The configuration of a project.
use crate::commands::{agent_commands, agent_list};
use crate::text::{lemma_first_line, lines, lines_of, text_view, view_option, views};
use vstd::prelude::*;

verus! {

/// Where the ledger stands.
#[derive(Debug, Clone, PartialEq, Eq)]
pub struct StorageConfig {
    pub root: String,
}

/// What is kept, and which environment variables are never shown.
#[derive(Debug, Clone, PartialEq, Eq)]
pub struct PrivacyConfig {
    pub capture_prompts: bool,
    pub capture_diffs: bool,
    pub redact_env: Vec<String>,
}

/// How the proxy listens and what it records.
#[derive(Debug, Clone, PartialEq, Eq)]
pub struct ProxyConfig {
    pub enabled: bool,
    pub bind: String,
    pub record_bodies: bool,
    pub allowed_hosts: Vec<String>,
}

/// An agent under its name.
#[derive(Debug, Clone, PartialEq, Eq)]
pub struct AgentConfig {
    pub name: String,
    pub command: Vec<String>,
    pub env: Vec<(String, String)>,
}

/// A provider under its name.
#[derive(Debug, Clone, PartialEq, Eq)]
pub struct ProviderConfig {
    pub name: String,
    pub kind: String,
    pub base_url: Option<String>,
    pub api_key_env: Option<String>,
    pub context_window: Option<u64>,
}

/// The configuration of a project, with each agent and each provider under a name of its own.
#[derive(Debug, Clone, PartialEq, Eq)]
pub struct AgentLedgerConfig {
    pub storage: StorageConfig,
    pub privacy: PrivacyConfig,
    pub proxy: ProxyConfig,
    pub agents: Vec<AgentConfig>,
    pub providers: Vec<ProviderConfig>,
}

/// The names and commands of the agents of a new project; the last is for other commands.
pub open spec fn default_agents() -> Seq<(Seq<char>, Seq<Seq<char>>)> {
    let known = "codex\nclaude-code\nopencode\ncustom"@;
    seq![
        ("codex"@, seq!["codex"@]),
        (known.subrange(6, 17), seq![known.subrange(6, 12)]),
        ("opencode"@, seq!["opencode"@]),
        ("custom"@, seq![]),
    ]
}

proof fn lemma_known_agents()
    ensures
        lines_of("codex\nclaude-code\nopencode\ncustom"@) == seq![
            "codex"@,
            "codex\nclaude-code\nopencode\ncustom"@.subrange(6, 17),
            "opencode"@,
            "custom"@,
        ],
{
    reveal_strlit("codex\nclaude-code\nopencode\ncustom");
    reveal_strlit("codex");
    reveal_strlit("opencode");
    reveal_strlit("custom");
    let s = "codex\nclaude-code\nopencode\ncustom"@;
    lemma_first_line(s, 5);
    assert(s.take(5) =~= "codex"@);
    let s2 = s.skip(6);
    lemma_first_line(s2, 11);
    assert(s2.take(11) =~= s.subrange(6, 17));
    let s3 = s2.skip(12);
    lemma_first_line(s3, 8);
    assert(s3.take(8) =~= "opencode"@);
    let s4 = s3.skip(9);
    lemma_first_line(s4, 6);
    assert(s4 =~= "custom"@);
    assert(lines_of(s) =~= seq!["codex"@, s.subrange(6, 17), "opencode"@, "custom"@]);
}

proof fn lemma_known_commands()
    ensures
        lines_of("codex\nclaude\nopencode"@) == seq![
            "codex"@,
            "codex\nclaude-code\nopencode\ncustom"@.subrange(6, 12),
            "opencode"@,
        ],
{
    reveal_strlit("codex\nclaude-code\nopencode\ncustom");
    reveal_strlit("codex\nclaude\nopencode");
    reveal_strlit("codex");
    reveal_strlit("opencode");
    let s = "codex\nclaude\nopencode"@;
    let bin = "codex\nclaude-code\nopencode\ncustom"@.subrange(6, 12);
    lemma_first_line(s, 5);
    assert(s.take(5) =~= "codex"@);
    let s2 = s.skip(6);
    lemma_first_line(s2, 6);
    assert(s2.take(6) =~= bin);
    let s3 = s2.skip(7);
    lemma_first_line(s3, 8);
    assert(s3 =~= "opencode"@);
    assert(lines_of(s) =~= seq!["codex"@, bin, "opencode"@]);
}

/// Each agent and each provider of a new project has a name of its own.
pub proof fn default_names_are_distinct()
    ensures
        forall|i: int, j: int|
            0 <= i < j < default_agents().len() ==> (#[trigger] default_agents()[i]).0 != (
            #[trigger] default_agents()[j]).0,
        forall|i: int, j: int|
            0 <= i < j < default_providers().len() ==> (#[trigger] default_providers()[i]).0 != (
            #[trigger] default_providers()[j]).0,
{
    reveal_strlit("codex\nclaude-code\nopencode\ncustom");
    reveal_strlit("codex");
    reveal_strlit("opencode");
    reveal_strlit("custom");
    reveal_strlit("lm-studio");
    reveal_strlit("ollama");
    reveal_strlit("openai-compatible");
    reveal_strlit("openrouter");
    reveal_strlit("vllm");
    let agents = default_agents();
    assert(agents[0].0.len() == 5 && agents[1].0.len() == 11 && agents[2].0.len() == 8
        && agents[3].0.len() == 6);
    let providers = default_providers();
    assert(providers[0].0.len() == 9 && providers[1].0.len() == 6 && providers[2].0.len() == 17
        && providers[3].0.len() == 10 && providers[4].0.len() == 4);
}

/// The names of the providers of a new project, with their base addresses and with the
/// environment variables that hold their keys.
pub open spec fn default_providers() -> Seq<(Seq<char>, Option<Seq<char>>, Option<Seq<char>>)> {
    seq![
        ("lm-studio"@, Some("http://127.0.0.1:1234/v1"@), None),
        ("ollama"@, Some("http://127.0.0.1:11434/v1"@), None),
        ("openai-compatible"@, None, None),
        ("openrouter"@, Some("https://openrouter.ai/api/v1"@), Some("OPENROUTER_API_KEY"@)),
        ("vllm"@, Some("http://127.0.0.1:8000/v1"@), None),
    ]
}

/// Whether `agent` is an agent without an environment of its own.
pub open spec fn is_agent(agent: AgentConfig, entry: (Seq<char>, Seq<Seq<char>>)) -> bool {
    &&& agent.name@ == entry.0
    &&& views(agent.command@) == entry.1
    &&& agent.env@.len() == 0
}

/// Whether `provider` is an OpenAI-compatible provider whose context window is not known.
pub open spec fn is_provider(
    provider: ProviderConfig,
    entry: (Seq<char>, Option<Seq<char>>, Option<Seq<char>>),
) -> bool {
    &&& provider.name@ == entry.0
    &&& provider.kind@ == "openai-compatible"@
    &&& view_option(provider.base_url) == entry.1
    &&& view_option(provider.api_key_env) == entry.2
    &&& provider.context_window is None
}

fn agents_of(names: Vec<String>, bins: &Vec<String>) -> (r: Vec<AgentConfig>)
    ensures
        r@.len() == names@.len(),
        forall|i: int|
            0 <= i < names@.len() ==> is_agent(
                #[trigger] r@[i],
                (
                    names@[i]@,
                    if i < bins@.len() {
                        seq![bins@[i]@]
                    } else {
                        seq![]
                    },
                ),
            ),
{
    let ghost all = names@;
    let mut agents: Vec<AgentConfig> = Vec::new();
    for name in it: names
        invariant
            it.seq() == all,
            agents@.len() == it.index(),
            forall|i: int|
                0 <= i < it.index() ==> is_agent(
                    #[trigger] agents@[i],
                    (
                        all[i]@,
                        if i < bins@.len() {
                            seq![bins@[i]@]
                        } else {
                            seq![]
                        },
                    ),
                ),
    {
        let i: usize = agents.len();
        let mut command: Vec<String> = Vec::new();
        if i < bins.len() {
            command.push(bins[i].clone());
            assert(views(command@) =~= seq![bins@[i as int]@]);
        } else {
            assert(views(command@) =~= seq![]);
        }
        agents.push(AgentConfig { name, command, env: Vec::new() });
    }
    agents
}

fn owned(text: Option<&str>) -> (r: Option<String>)
    ensures
        view_option(r) == text_view(text),
{
    match text {
        Some(t) => Some(t.to_owned()),
        None => None,
    }
}

fn provider(name: &str, base_url: Option<&str>, api_key_env: Option<&str>) -> (r: ProviderConfig)
    ensures
        is_provider(
            r,
            (
                name@,
                text_view(base_url),
                text_view(api_key_env),
            ),
        ),
{
    ProviderConfig {
        name: name.to_owned(),
        kind: "openai-compatible".to_owned(),
        base_url: owned(base_url),
        api_key_env: owned(api_key_env),
        context_window: None,
    }
}

impl Default for AgentLedgerConfig {
    /// The configuration of a new project.
    fn default() -> (r: AgentLedgerConfig)
        ensures
            r.storage.root@ == ".agentledger"@,
            r.privacy.capture_prompts,
            r.privacy.capture_diffs,
            views(r.privacy.redact_env@) == seq![
                "API_KEY"@,
                "TOKEN"@,
                "SECRET"@,
                "PASSWORD"@,
                "AUTHORIZATION"@,
            ],
            !r.proxy.enabled,
            r.proxy.bind@ == "127.0.0.1:0"@,
            !r.proxy.record_bodies,
            views(r.proxy.allowed_hosts@) == seq!["127.0.0.1"@, "localhost"@],
            r.agents@.len() == default_agents().len(),
            forall|i: int|
                0 <= i < default_agents().len() ==> is_agent(
                    #[trigger] r.agents@[i],
                    default_agents()[i],
                ),
            r.providers@.len() == default_providers().len(),
            forall|i: int|
                0 <= i < default_providers().len() ==> is_provider(
                    #[trigger] r.providers@[i],
                    default_providers()[i],
                ),
            forall|i: int, j: int|
                0 <= i < j < r.agents@.len() ==> (#[trigger] r.agents@[i]).name@ != (
                #[trigger] r.agents@[j]).name@,
            forall|i: int, j: int|
                0 <= i < j < r.providers@.len() ==> (#[trigger] r.providers@[i]).name@ != (
                #[trigger] r.providers@[j]).name@,
    {
        let redact_env: Vec<String> = vec![
            "API_KEY".to_owned(),
            "TOKEN".to_owned(),
            "SECRET".to_owned(),
            "PASSWORD".to_owned(),
            "AUTHORIZATION".to_owned(),
        ];
        let allowed_hosts: Vec<String> = vec!["127.0.0.1".to_owned(), "localhost".to_owned()];
        let names = lines(agent_list());
        let bins = lines(agent_commands());
        proof {
            lemma_known_agents();
            lemma_known_commands();
            default_names_are_distinct();
        }
        let ghost (shown_names, shown_bins) = (views(names@), views(bins@));
        assert(shown_names.len() == 4 && shown_bins.len() == 3);
        let agents = agents_of(names, &bins);
        assert forall|i: int| 0 <= i < default_agents().len() implies is_agent(
            #[trigger] agents@[i],
            default_agents()[i],
        ) by {
            assert(shown_names[i] == names@[i]@);
            assert(i < bins@.len() ==> shown_bins[i] == bins@[i]@);
        }
        let providers: Vec<ProviderConfig> = vec![
            provider("lm-studio", Some("http://127.0.0.1:1234/v1"), None),
            provider("ollama", Some("http://127.0.0.1:11434/v1"), None),
            provider("openai-compatible", None, None),
            provider(
                "openrouter",
                Some("https://openrouter.ai/api/v1"),
                Some("OPENROUTER_API_KEY"),
            ),
            provider("vllm", Some("http://127.0.0.1:8000/v1"), None),
        ];
        assert(views(redact_env@) =~= seq![
            "API_KEY"@,
            "TOKEN"@,
            "SECRET"@,
            "PASSWORD"@,
            "AUTHORIZATION"@,
        ]);
        assert(views(allowed_hosts@) =~= seq!["127.0.0.1"@, "localhost"@]);
        assert forall|i: int, j: int| 0 <= i < j < providers@.len() implies (
        #[trigger] providers@[i]).name@ != (#[trigger] providers@[j]).name@ by {
            assert(is_provider(providers@[i], default_providers()[i]));
            assert(is_provider(providers@[j], default_providers()[j]));
        }
        AgentLedgerConfig {
            storage: StorageConfig { root: ".agentledger".to_owned() },
            privacy: PrivacyConfig { capture_prompts: true, capture_diffs: true, redact_env },
            proxy: ProxyConfig {
                enabled: false,
                bind: "127.0.0.1:0".to_owned(),
                record_bodies: false,
                allowed_hosts,
            },
            agents,
            providers,
        }
    }
}

/// What was found of the configuration of a project.
#[derive(Debug, Clone, Copy, PartialEq, Eq)]
pub enum ConfigFile {
    /// There is no configuration.
    Absent,
    /// The configuration, or what it says of prompts, cannot be read.
    Unreadable,
    /// What the configuration says of prompts, if it says anything.
    Says(Option<bool>),
}

/// Whether prompts are captured, by what was found of the configuration: unless it opts out, or
/// might.
pub fn prompts_wanted(file: ConfigFile) -> (r: bool)
    ensures
        match file {
            ConfigFile::Absent => r,
            ConfigFile::Unreadable => !r,
            ConfigFile::Says(configured) => r == (configured != Some(false)),
        },
{
    match file {
        ConfigFile::Absent => prompt_setting(None),
        ConfigFile::Unreadable => false,
        ConfigFile::Says(configured) => prompt_setting(configured),
    }
}

/// Whether prompts are captured, by what the configuration says, if it says anything.
pub fn prompt_setting(configured: Option<bool>) -> (r: bool)
    ensures
        r == (configured != Some(false)),
{
    match configured {
        Some(capture) => capture,
        None => true,
    }
}

/// The agents and providers of a new project: three agents with a command of their own and one for
/// other commands, and five providers, of which those on this machine are reached by loopback and
/// need no key.
pub proof fn new_project_knows_agents_and_providers()
    ensures
        default_agents().len() == 4,
        default_agents()[0] == ("codex"@, seq!["codex"@]),
        default_agents()[1].0 == lines_of("codex\nclaude-code\nopencode\ncustom"@)[1],
        default_agents()[1].1 == seq![lines_of("codex\nclaude\nopencode"@)[1]],
        default_agents()[2] == ("opencode"@, seq!["opencode"@]),
        default_agents()[3] == ("custom"@, Seq::<Seq<char>>::empty()),
        default_providers() == seq![
            ("lm-studio"@, Some("http://127.0.0.1:1234/v1"@), None::<Seq<char>>),
            ("ollama"@, Some("http://127.0.0.1:11434/v1"@), None),
            ("openai-compatible"@, None, None),
            ("openrouter"@, Some("https://openrouter.ai/api/v1"@), Some("OPENROUTER_API_KEY"@)),
            ("vllm"@, Some("http://127.0.0.1:8000/v1"@), None),
        ],
{
    lemma_known_agents();
    lemma_known_commands();
}

/// An agent and a provider of a new project are what their entries say, with no environment and
/// with no context window.
pub proof fn entries_tell_agents_and_providers(
    agent: AgentConfig,
    provider: ProviderConfig,
    name: Seq<char>,
    command: Seq<Seq<char>>,
    url: Option<Seq<char>>,
    key: Option<Seq<char>>,
)
    ensures
        is_agent(agent, (name, command)) ==> agent.name@ == name && agent.command@.map_values(
            |part: String| part@,
        ) == command && agent.env@.len() == 0,
        is_provider(provider, (name, url, key)) ==> {
            &&& provider.name@ == name
            &&& provider.kind@ == "openai-compatible"@
            &&& provider.context_window is None
            &&& match url {
                Some(text) => provider.base_url matches Some(s) && s@ == text,
                None => provider.base_url is None,
            }
            &&& match key {
                Some(text) => provider.api_key_env matches Some(s) && s@ == text,
                None => provider.api_key_env is None,
            }
        },
{
}

} // verus!

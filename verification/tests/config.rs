use agentledger::config::{prompt_setting, prompts_wanted, AgentLedgerConfig, ConfigFile};
use agentledger::doctor::{
    agent_doctor, command_status, doctor_report, indent, provider_doctor, version,
};

fn list(items: &[String]) -> toml::Value {
    toml::Value::Array(items.iter().map(|item| toml::Value::from(item.as_str())).collect())
}

/// A configuration as a TOML table.
fn table(config: &AgentLedgerConfig) -> toml::Table {
    let mut storage = toml::Table::new();
    storage.insert("root".to_string(), toml::Value::from(config.storage.root.as_str()));

    let mut privacy = toml::Table::new();
    privacy.insert(
        "capture_prompts".to_string(),
        toml::Value::from(config.privacy.capture_prompts),
    );
    privacy.insert("capture_diffs".to_string(), toml::Value::from(config.privacy.capture_diffs));
    privacy.insert("redact_env".to_string(), list(&config.privacy.redact_env));

    let mut proxy = toml::Table::new();
    proxy.insert("enabled".to_string(), toml::Value::from(config.proxy.enabled));
    proxy.insert("bind".to_string(), toml::Value::from(config.proxy.bind.as_str()));
    proxy.insert("record_bodies".to_string(), toml::Value::from(config.proxy.record_bodies));
    proxy.insert("allowed_hosts".to_string(), list(&config.proxy.allowed_hosts));

    let mut agents = toml::Table::new();
    for agent in &config.agents {
        let mut entry = toml::Table::new();
        entry.insert("command".to_string(), list(&agent.command));
        agents.insert(agent.name.clone(), toml::Value::Table(entry));
    }
    let mut providers = toml::Table::new();
    for provider in &config.providers {
        let mut entry = toml::Table::new();
        entry.insert("kind".to_string(), toml::Value::from(provider.kind.as_str()));
        if let Some(url) = &provider.base_url {
            entry.insert("base_url".to_string(), toml::Value::from(url.as_str()));
        }
        if let Some(name) = &provider.api_key_env {
            entry.insert("api_key_env".to_string(), toml::Value::from(name.as_str()));
        }
        providers.insert(provider.name.clone(), toml::Value::Table(entry));
    }

    let mut all = toml::Table::new();
    all.insert("storage".to_string(), toml::Value::Table(storage));
    all.insert("privacy".to_string(), toml::Value::Table(privacy));
    all.insert("proxy".to_string(), toml::Value::Table(proxy));
    all.insert("agents".to_string(), toml::Value::Table(agents));
    all.insert("providers".to_string(), toml::Value::Table(providers));
    all
}

#[test]
fn default_config_roundtrips_through_toml() {
    let config = AgentLedgerConfig::default();
    let rendered = table(&config).to_string();
    let parsed = rendered.parse::<toml::Table>().expect("parse config");
    assert_eq!(parsed["storage"]["root"].as_str(), Some(".agentledger"));
    assert_eq!(parsed["proxy"]["enabled"].as_bool(), Some(false));
    let agents = parsed["agents"].as_table().expect("agents").keys();
    let names = agents.map(|name| format!("\n{name}\n")).collect::<String>();
    assert!(names.contains("\nclaude-code\n"));
    assert_eq!(
        parsed["providers"]["ollama"]["base_url"].as_str(),
        Some("http://127.0.0.1:11434/v1")
    );
    assert_eq!(parsed, table(&config));
}

#[test]
fn new_project_knows_agents_and_providers() {
    let config = AgentLedgerConfig::default();
    let names = config.agents.iter().map(|agent| agent.name.as_str()).collect::<Vec<_>>();
    assert_eq!(names.join("\n"), "codex\nclaude-code\nopencode\ncustom");
    let commands = config.agents.iter().map(|agent| agent.command.join(" ")).collect::<Vec<_>>();
    assert_eq!(commands.join("\n"), "codex\nclaude\nopencode\n");
    assert!(config.agents.iter().all(|agent| agent.env.is_empty()));
    let providers = config
        .providers
        .iter()
        .map(|provider| (provider.name.as_str(), provider.base_url.as_deref()))
        .collect::<Vec<_>>();
    assert_eq!(
        providers,
        vec![
            ("lm-studio", Some("http://127.0.0.1:1234/v1")),
            ("ollama", Some("http://127.0.0.1:11434/v1")),
            ("openai-compatible", None),
            ("openrouter", Some("https://openrouter.ai/api/v1")),
            ("vllm", Some("http://127.0.0.1:8000/v1")),
        ]
    );
    assert_eq!(config.providers[3].api_key_env.as_deref(), Some("OPENROUTER_API_KEY"));
    assert!(config.privacy.capture_prompts);
    assert_eq!(config.privacy.redact_env.len(), 5);
    assert_eq!(config.proxy.allowed_hosts, vec!["127.0.0.1", "localhost"]);
    assert_eq!(config.proxy.bind, "127.0.0.1:0");
}

#[test]
fn prompts_are_captured_unless_opted_out() {
    assert!(prompt_setting(None));
    assert!(prompt_setting(Some(true)));
    assert!(!prompt_setting(Some(false)));
    assert!(prompts_wanted(ConfigFile::Absent));
    assert!(!prompts_wanted(ConfigFile::Unreadable));
    assert!(prompts_wanted(ConfigFile::Says(None)));
    assert!(prompts_wanted(ConfigFile::Says(Some(true))));
    assert!(!prompts_wanted(ConfigFile::Says(Some(false))));
}

#[test]
fn doctor_tells_the_state() {
    assert_eq!(version(), "0.1.0");
    assert_eq!(
        doctor_report("/p", true, "found at /usr/bin/git", "codex: not found\nx: y"),
        "AgentLedger 0.1.0\nroot: /p\nledger: present\ngit: found at /usr/bin/git\nagents:\n  codex: not found\n  x: y\nproviders:\n  openrouter: configured (OPENROUTER_API_KEY optional for live calls)\n  ollama: configured (http://127.0.0.1:11434/v1)\n  vllm: configured (http://127.0.0.1:8000/v1)\n  lm-studio: configured (http://127.0.0.1:1234/v1)\n  openai-compatible: configured (custom base URL)"
    );
    assert!(doctor_report("/p", false, "g", "a").contains("ledger: missing; run agentledger init"));
    assert_eq!(
        agent_doctor(&vec!["a".to_string(), "b".to_string(), "c".to_string()]),
        "codex: a\nclaude-code: b\nopencode: c"
    );
    assert_eq!(provider_doctor().lines().count(), 5);
}

#[test]
fn command_is_searched_in_order() {
    let candidates = vec![
        ("/a/git".to_string(), false),
        ("/b/git".to_string(), true),
        ("/c/git".to_string(), true),
    ];
    assert_eq!(command_status(Some(&candidates)), "found at /b/git");
    assert_eq!(command_status(Some(&vec![])), "not found");
    assert_eq!(command_status(None), "missing PATH");
}

#[test]
fn lines_are_indented() {
    assert_eq!(indent("a\nb\n"), "  a\n  b");
    assert_eq!(indent(""), "");
    assert_eq!(indent("a\n\nb"), "  a\n  \n  b");
}

#[test]
fn default_names_occur_once() {
    let config = AgentLedgerConfig::default();
    let mut agents = config.agents.iter().map(|agent| agent.name.as_str()).collect::<Vec<_>>();
    assert_eq!(agents.len(), 4);
    agents.sort_unstable();
    agents.dedup();
    assert_eq!(agents.len(), 4);
    let names = config.providers.iter().map(|provider| provider.name.as_str()).collect::<Vec<_>>();
    let mut once = names.clone();
    once.sort_unstable();
    once.dedup();
    assert_eq!(once.len(), names.len());
}

//! What is told of the state of an installation.
use crate::commands::agent_list;
use crate::text::{concat3, join, joined, lines, lines_of, views};
use vstd::prelude::*;
use vstd::string::*;

verus! {

/// The version of AgentLedger.
pub fn version() -> (r: &'static str)
    ensures
        r@ == "0.1.0"@,
{
    "0.1.0"
}

// ---------------------------------------------------------------------------
// Commands

/// The first of some candidates that is a file.
pub open spec fn first_file(candidates: Seq<(String, bool)>) -> Option<Seq<char>>
    decreases candidates.len(),
{
    if candidates.len() == 0 {
        None
    } else if candidates[0].1 {
        Some(candidates[0].0@)
    } else {
        first_file(candidates.drop_first())
    }
}

/// What is told of a command. The candidates are the places where the search path could have it,
/// each with whether it is a file; there are none where there is no search path.
pub fn command_status(candidates: Option<&Vec<(String, bool)>>) -> (r: String)
    ensures
        r@ == (match candidates {
            Some(list) => match first_file(list@) {
                Some(path) => "found at "@ + path,
                None => "not found"@,
            },
            None => "missing PATH"@,
        }),
{
    let list = match candidates {
        Some(list) => list,
        None => return "missing PATH".to_owned(),
    };
    let n: usize = list.len();
    assert(list@.skip(0) =~= list@);
    for i in 0..n
        invariant
            n == list@.len(),
            candidates == Some(list),
            first_file(list@) == first_file(list@.skip(i as int)),
    {
        let ghost rest = list@.skip(i as int);
        assert(rest[0] == list@[i as int]);
        assert(rest.drop_first() =~= list@.skip(i + 1));
        if list[i].1 {
            let mut out = "found at ".to_owned();
            out.append(list[i].0.as_str());
            return out;
        }
    }
    "not found".to_owned()
}

// ---------------------------------------------------------------------------
// Reports

/// Every line of a text, two columns to the right.
pub open spec fn indented(value: Seq<char>) -> Seq<char> {
    joined(lines_of(value).map_values(|line: Seq<char>| "  "@ + line), "\n"@)
}

/// Every line of a text, two columns to the right.
pub fn indent(value: &str) -> (r: String)
    ensures
        r@ == indented(value@),
{
    let all = lines(value);
    let mut out: Vec<String> = Vec::new();
    for i in 0..all.len()
        invariant
            out@.len() == i,
            forall|j: int| 0 <= j < i ==> (#[trigger] out@[j])@ == "  "@ + all@[j]@,
    {
        let mut line = "  ".to_owned();
        line.append(all[i].as_str());
        out.push(line);
    }
    assert(views(out@) =~= lines_of(value@).map_values(|line: Seq<char>| "  "@ + line)) by {
        assert(views(all@) == lines_of(value@));
        assert forall|j: int| 0 <= j < out@.len() implies views(out@)[j] == "  "@ + lines_of(
            value@,
        )[j] by {
            assert(views(all@)[j] == all@[j]@);
        }
    }
    join(&out, "\n")
}

/// What is told of the agents, each with what is told of its command.
pub open spec fn agents_told(statuses: Seq<Seq<char>>) -> Seq<char> {
    let names = lines_of("codex\nclaude-code\nopencode\ncustom"@);
    let count = if statuses.len() <= names.len() {
        statuses.len()
    } else {
        names.len()
    };
    joined(Seq::new(count, |i: int| names[i] + ": "@ + statuses[i]), "\n"@)
}

fn entry(name: &str, status: &str) -> (r: String)
    ensures
        r@ == name@ + status@,
{
    let mut out = name.to_owned();
    out.append(status);
    out
}

/// What is told of the agents; `statuses` is what is told of their commands, in order.
pub fn agent_doctor(statuses: &Vec<String>) -> (r: String)
    ensures
        r@ == agents_told(views(statuses@)),
{
    let names = lines(agent_list());
    let ghost shown = views(names@);
    let mut out: Vec<String> = Vec::new();
    let count: usize = if statuses.len() <= names.len() {
        statuses.len()
    } else {
        names.len()
    };
    for i in 0..count
        invariant
            count <= statuses@.len(),
            count <= names@.len(),
            shown == views(names@),
            out@.len() == i,
            forall|j: int|
                0 <= j < i ==> (#[trigger] out@[j])@ == shown[j] + ": "@ + statuses@[j]@,
    {
        assert(shown[i as int] == names@[i as int]@);
        out.push(concat3(names[i].as_str(), ": ", statuses[i].as_str()));
    }
    assert(views(out@) =~= Seq::new(
        count as nat,
        |i: int| shown[i] + ": "@ + views(statuses@)[i],
    ));
    join(&out, "\n")
}

/// What is told of the providers.
pub open spec fn providers_told() -> Seq<char> {
    joined(
        seq![
            "openrouter: configured (OPENROUTER_API_KEY optional for live calls)"@,
            "ollama: configured (http://127.0.0.1:11434/v1)"@,
            "vllm: configured (http://127.0.0.1:8000/v1)"@,
            "lm-studio: configured (http://127.0.0.1:1234/v1)"@,
            "openai-compatible: configured (custom base URL)"@,
        ],
        "\n"@,
    )
}

/// What is told of the providers.
pub fn provider_doctor() -> (r: String)
    ensures
        r@ == providers_told(),
{
    let out: Vec<String> = vec![
        "openrouter: configured (OPENROUTER_API_KEY optional for live calls)".to_owned(),
        "ollama: configured (http://127.0.0.1:11434/v1)".to_owned(),
        "vllm: configured (http://127.0.0.1:8000/v1)".to_owned(),
        "lm-studio: configured (http://127.0.0.1:1234/v1)".to_owned(),
        "openai-compatible: configured (custom base URL)".to_owned(),
    ];
    assert(views(out@) =~= seq![
        "openrouter: configured (OPENROUTER_API_KEY optional for live calls)"@,
        "ollama: configured (http://127.0.0.1:11434/v1)"@,
        "vllm: configured (http://127.0.0.1:8000/v1)"@,
        "lm-studio: configured (http://127.0.0.1:1234/v1)"@,
        "openai-compatible: configured (custom base URL)"@,
    ]);
    join(&out, "\n")
}

/// The report on an installation and on the ledger of a project; `agents` is what is told of the
/// agents.
pub fn doctor_report(root: &str, ledger_exists: bool, git: &str, agents: &str) -> (r: String)
    ensures
        r@ == joined(
            seq![
                "AgentLedger "@ + "0.1.0"@,
                "root: "@ + root@,
                "ledger: "@ + (if ledger_exists {
                    "present"@
                } else {
                    "missing; run agentledger init"@
                }),
                "git: "@ + git@,
                "agents:\n"@ + indented(agents@),
                "providers:\n"@ + indented(providers_told()),
            ],
            "\n"@,
        ),
{
    let ledger = if ledger_exists {
        "present"
    } else {
        "missing; run agentledger init"
    };
    let providers = provider_doctor();
    let out: Vec<String> = vec![
        entry("AgentLedger ", version()),
        entry("root: ", root),
        entry("ledger: ", ledger),
        entry("git: ", git),
        entry("agents:\n", indent(agents).as_str()),
        entry("providers:\n", indent(providers.as_str()).as_str()),
    ];
    assert(views(out@) =~= seq![
        "AgentLedger "@ + "0.1.0"@,
        "root: "@ + root@,
        "ledger: "@ + ledger@,
        "git: "@ + git@,
        "agents:\n"@ + indented(agents@),
        "providers:\n"@ + indented(providers_told()),
    ]);
    join(&out, "\n")
}

// ---------------------------------------------------------------------------
// What the reports are

/// A command is found at the first of its candidates that is a file, and nowhere where none is.
pub proof fn first_file_is_found(candidates: Seq<(String, bool)>, i: int)
    requires
        0 <= i <= candidates.len(),
        forall|j: int| 0 <= j < i ==> !(#[trigger] candidates[j]).1,
        i < candidates.len() ==> candidates[i].1,
    ensures
        first_file(candidates) == (if i < candidates.len() {
            Some(candidates[i].0@)
        } else {
            None
        }),
    decreases candidates.len(),
{
    if i > 0 {
        assert(!candidates[0].1);
        let rest = candidates.drop_first();
        assert forall|j: int| 0 <= j < i - 1 implies !(#[trigger] rest[j]).1 by {
            assert(rest[j] == candidates[j + 1]);
        }
        assert(i < candidates.len() ==> rest[i - 1] == candidates[i]);
        first_file_is_found(rest, i - 1);
    }
}

/// An indented text has the same lines, in order, each behind two spaces.
pub proof fn every_line_is_indented(value: Seq<char>, line: Seq<char>)
    ensures
        indented(value) == joined(
            lines_of(value).map_values(|l: Seq<char>| seq![' ', ' '] + l),
            seq!['\n'],
        ),
        line.len() > 0 && !line.contains('\n') ==> indented(line) == seq![' ', ' '] + line,
{
    reveal_strlit("  ");
    reveal_strlit("\n");
    assert("  "@ =~= seq![' ', ' ']);
    assert("\n"@ =~= seq!['\n']);
    assert(lines_of(value).map_values(|l: Seq<char>| seq![' ', ' '] + l) =~= lines_of(
        value,
    ).map_values(|l: Seq<char>| "  "@ + l));
    if line.len() > 0 && !line.contains('\n') {
        crate::text::line_feed_ends_a_line(line, Seq::empty());
        let one = lines_of(line).map_values(|l: Seq<char>| "  "@ + l);
        assert(one =~= seq!["  "@ + line]);
    }
}

/// Every known agent is told with its status, one in each line; an agent without a status is not
/// told.
pub proof fn agents_are_told_in_lines(statuses: Seq<Seq<char>>)
    ensures
        ({
            let names = lines_of("codex\nclaude-code\nopencode\ncustom"@);
            let count = if statuses.len() < names.len() {
                statuses.len()
            } else {
                names.len()
            };
            agents_told(statuses) == joined(
                Seq::new(count, |i: int| names[i] + ": "@ + statuses[i]),
                "\n"@,
            )
        }),
{
}

/// Every known provider is told in a line of its own.
pub proof fn providers_are_told_in_lines()
    ensures
        providers_told() == "openrouter: configured (OPENROUTER_API_KEY optional for live calls)"@
            + "\n"@ + "ollama: configured (http://127.0.0.1:11434/v1)"@ + "\n"@
            + "vllm: configured (http://127.0.0.1:8000/v1)"@ + "\n"@
            + "lm-studio: configured (http://127.0.0.1:1234/v1)"@ + "\n"@
            + "openai-compatible: configured (custom base URL)"@,
{
    let a = "openrouter: configured (OPENROUTER_API_KEY optional for live calls)"@;
    let b = "ollama: configured (http://127.0.0.1:11434/v1)"@;
    let c = "vllm: configured (http://127.0.0.1:8000/v1)"@;
    let d = "lm-studio: configured (http://127.0.0.1:1234/v1)"@;
    let e = "openai-compatible: configured (custom base URL)"@;
    let none = Seq::<Seq<char>>::empty();
    crate::text::separators_stand_between_texts(none, a, "\n"@);
    crate::text::separators_stand_between_texts(seq![a], b, "\n"@);
    crate::text::separators_stand_between_texts(seq![a, b], c, "\n"@);
    crate::text::separators_stand_between_texts(seq![a, b, c], d, "\n"@);
    crate::text::separators_stand_between_texts(seq![a, b, c, d], e, "\n"@);
    assert(seq![a].push(b) =~= seq![a, b]);
    assert(seq![a, b].push(c) =~= seq![a, b, c]);
    assert(seq![a, b, c].push(d) =~= seq![a, b, c, d]);
    assert(seq![a, b, c, d].push(e) =~= seq![a, b, c, d, e]);
}

} // verus!

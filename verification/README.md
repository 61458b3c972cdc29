# AgentLedger

AgentLedger is a local-first benchmark ledger for coding agents and OpenAI-compatible LLM
providers. It captures command runs into an append-only, hash-chained ledger, meters the LLM
calls that pass through a loopback proxy, runs benchmark matrices, and indexes everything in
SQLite for queries and a token-protected dashboard.

The project has two parts.

- `src/` is the library, written in Verus. It holds the data structures and the rules of the
  ledger, and every function in it is proved to meet its contract. It opens no file, starts no
  process and reads no socket: it takes what they gave as plain values and says what to do next.
- `app/` is the native module of the Python package and the command line around the library. It
  does the input and output, and the floating point arithmetic, that the library leaves to it.

## What is proved

| Module | What its contracts say |
| --- | --- |
| `ledger` | events are chained by their hashes; readers keep the latest version of each run, in the order in which the runs began |
| `capture` | a run without a command, or in a dirty repository without permission, is never launched; what the command finds in its environment; how often its calls failed; when a run passed |
| `bench` | every task, agent, provider and repeat is combined exactly once and in order, and has a cell however its run ended |
| `metrics`, `compare` | what the calls of a run add up to, whatever order they came in, and what a comparison shows of it |
| `export` | a CSV table is read back as it was written |
| `scan`, `index` | catching up with a file equals reading it anew; a file that shrank is read from its start; a second pass finds nothing; the index holds the latest version of every run and of every call |
| `proxy`, `forward`, `stream`, `web` | where a call goes, which headers pass, what is recorded of it; the cuts between the chunks of a stream, and its kind of line ends, do not count |
| `dashboard` | nothing is shown without the token; what is answered where something is missing |

What the library takes from other crates (`serde_json`, `blake3`, `uuid`, `time`) stands behind
small functions marked `external_body`, each with a comment that says what is taken on trust.

## Amounts

Costs and rates are kept exactly, as the texts of their numbers or as counts over a time
(`record::Amount`). They become floating point numbers only where they leave the library.

## Tests

`tests/` runs the library from outside, with the real crates linked.

# Perry Hermes agent

An agent loop in Rust, verified with Verus: a model is asked, may call tools,
reads their results and is asked again, until it has an answer.

- `src/` is the library. It computes on plain values and is verified: each
  function states what it returns or changes, and the laws that hold of
  several functions together stand as proof functions whose names begin with
  `law_`.
- `app/` is the program around it. It talks to providers, reads and writes
  files and runs commands, and asks the library what to do next.
- `tests/` runs the library on concrete values.

## Modules of the library

| Module | What it holds |
|---|---|
| `text`, `order`, `path` | strings, their order, and Unix paths as text |
| `json` | JSON values, read and written by `serde_json` |
| `message` | messages, tool calls, token usage, provider errors |
| `compaction` | a summary in place of all but the first user message |
| `context` | the compressor: pruned tool results, protected head and tail |
| `loop_engine` | the turn as a state machine, streams, events, the agent |
| `session`, `session_registry` | conversations and where they are kept |
| `prompting` | the system prompt and its blocks |
| `config` | providers, models and credentials |
| `tool`, `tool_catalog` | what tools share, and which ones there are |
| `tools` | shell, files, patches, search and skills |

A tool call has three parts. The library plans it from the arguments, the
program reads, writes or runs what the plan asks for, and the library turns
the outcome into the reply.

What the library takes from other crates (JSON, JSON schemas, time stamps, a
concurrent map) stands behind small functions whose contracts are believed,
not proved. Each names the function that it calls and what it claims of it.

# tars

An agent harness: a server that runs conversations with language models, executes the tools that
they call, and keeps sessions; a command line and a terminal UI that talk to it.

The library under `src/` holds the logic and is verified with Verus: functions state what they
return or change, and Verus proves it. Nothing is stated of what the clock shows. Of the flags and
counters that threads share (`cancel`, `shutdown`) it is stated how they are made, what is put into
them and what is read from them, and what follows for a whole history of such calls. The program
under `app/` is ordinary Rust around it: the command line, sockets, HTTP, SQLite, processes, the
terminal, and the JSON form of what crosses them.

| Module | What it holds |
|--------|---------------|
| `types`, `protocol`, `error` | messages, models, stream events, requests and responses, errors |
| `text`, `path`, `strmap`, `json`, `time` | strings, paths, string-keyed maps, JSON values, the clock |
| `paths`, `config`, `project`, `display` | where files live, providers and aliases, project roots, formatting |
| `provider`, `providers` | the registry; request bodies and stream decoding for Anthropic and OpenAI; mock and log providers |
| `sse`, `retry`, `compaction`, `agent`, `agent_trace` | line framing, backoff, context compaction, the agent loop, what holds of whole runs |
| `tools` | bash, read, write, edit, outlines, function lookup, diagnostics, and their dispatch |
| `plugin` | tools of other processes, and the worker that offers ours |
| `db`, `server`, `agent_runner`, `shutdown`, `daemon` | sessions, connections, turns, stopping, starting |
| `client`, `cli`, `tui` | the client's side, the command line, the terminal screens |

What depends on other crates goes through a few trusted items, each documented where it stands:
JSON values (`json`), decoding of bytes (`sse`), Base64 (`tools::read`), syntax trees
(`tools::tree_sitter_support`), Markdown events (`tui::markdown`), and the clock (`time`, `retry`).

Public proof functions named `law_...` state what holds of the library as a whole.

# anemoi

A local inference governance control plane: it decides which model on which
runtime serves a request (reusing hot models, promoting warm ones, cold
loading, or serving from a hot model while a large one is staged in the
background), explains every decision, plans evictions without touching
protected residents, keeps a reconciled view of what each runtime holds, and
forwards OpenAI-style chat completions to the runtime it chose.

## Layout

- `src/` — the library, verified with Verus. Every public function states what
  it returns in its contract; the laws of the library are public proof
  functions (`lemma_*`).
  - `model`, `config` — the data model, configuration lookup and validation.
  - `scheduler`, `pressure` — candidate generation, scoring and decisions,
    and the integer side of the memory pressure model.
  - `eviction`, `colocation` — eviction planning and the llama-swap colocation
    matrix.
  - `llama_swap`, `runtime` — the llama-swap event stream decoder, the mock
    runtime and the snapshots built from what runtimes report.
  - `reconcile`, `staging`, `status`, `control`, `gateway` — the daemon's
    reconciliation cache, staging queue, operator status, action plans and
    gateway routing.
  - `telemetry`, `report`, `mcp`, `env_expand` — the in-memory decision log
    and log selection, text reports, the MCP tool surface, and `${NAME}`
    expansion.
  - `guard`, `rust_source` — the source guard: Rust files read with `syn`
    and `proc-macro2`, the function summaries taken from them, and the rules
    checked on those.
  - `text`, `sorting`, `keyed`, `clock` — text helpers, stable sorting, keyed
    sequences, the clock and UUID calls, and the text form of UUIDs.
- `app/` — the program around the library: the HTTP daemon, the command line,
  runtime HTTP clients, the SQLite and JSON-lines decision logs, YAML loading,
  the floating-point pressure readings, and the source guard's walk over a
  directory.
- `tests/` — tests of the library.

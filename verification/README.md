# orca

The node agent and AI operations assistant of the orca container
orchestrator, with their decisions proved in Verus.

- `src/` is the verified library. `agent/` holds what a node decides: the
  container a workload becomes (ports, mounts, GPUs, limits, labels,
  networks), how a replacement keeps the old container until the new one
  runs, reconciliation against the master's expectations, the workload
  cache and its reports, log tails, the retry queue and backoff, token
  rotation, the network listing, registry credentials and the mesh status.
  `ai/` holds the assistant: alert planning with its grace period, the
  conversation engine, the prompts, the command parser and what each
  delivery channel says. `text.rs` and `number.rs` are the string and
  number functions the rest is proved with.
- `app/` is the program around it: Docker through bollard, the WebSocket
  channel to the master, HTTP to the model and the alert channels, SMTP,
  files, processes and clocks. It only performs what the library decides.
- `tests/` runs the library on concrete values.

Calls into other crates and into std that the library makes (the system
clock, random bytes, UUIDs, RFC 3339 times, Markdown rendering, base64,
JSON parsing and member lookup, UTF-8 decoding) go through small
functions whose contracts are trusted; each says in its doc comment what
it claims. The clock, the random source and the UUID builder are called in
forms that cannot panic; that the Markdown renderer never panics is relied
on, not shown.

WebAssembly workloads are not part of this crate: running them takes the
`wasmtime` runtime, which is not among its dependencies. Only the log
lines a Wasm instance keeps, and what a log request returns of them, are
here (`agent/wasm_logs.rs`).

# Loom

Loom is a Linux init and service manager. This crate holds its core, verified with Verus;
the programs around it (`app/`) do the input and output.

- `src/model.rs`, `src/config.rs`, `src/catalog.rs`, `src/graph.rs`: definitions, their
  checks, and the graph of services and groups.
- `src/lifecycle.rs`: the states of services as a mathematical state machine;
  `src/runtime.rs`: the engine that runs it; `src/laws.rs`: what holds of it.
- `src/protocol.rs`, `src/request.rs`, `src/dispatch.rs`, `src/query.rs`, `src/report.rs`,
  `src/response.rs`, `src/pending.rs`, `src/control.rs`: the control interface on both sides.
- `src/supervise.rs`, `src/events.rs`, `src/deadline.rs`, `src/shutdown.rs`, `src/linux.rs`:
  processes, helpers, events, deadlines, shutdown and rescue.
- `src/loader.rs`, `src/config_edit.rs`, `src/identity.rs`, `src/sage.rs`: configuration
  layers, edits that keep comments, accounts, and the compilation of Sage services.
- `src/critical.rs`: the critical path of a start.

Texts are read into values by the programs; everything that is decided about the values is
decided, and proved, in the library.

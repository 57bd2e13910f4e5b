# cc-switch (Codex desktop companion, verified core)

The decision and text logic of a desktop companion for Codex, written in Verus:
every function in `src/` carries a contract that Verus proves. The I/O around it
(files, the Codex state database, the CDP endpoint, processes, settings) lives in
`app/` and hands the library plain values.

## Layout

- `src/` — the verified library
  - `text.rs`, `json.rs`, `paths.rs`: strings, a JSON value model, application paths
  - `exit_monitor.rs`: run markers, exit events and the previous-run classification
  - `auto_launch.rs`: launch-at-login registration and reconciliation
  - `desktop.rs`, `guardian.rs`, `model_catalog.rs`: finding Codex Desktop, picking
    CDP targets, the model picker unlock and the guardian state machine
  - `history.rs`, `recent_window.rs`, `history_list.rs`: rollout parsing, thread rows,
    the balanced recent window, history listing and session detail
  - `thread_merge.rs`, `repair_plan.rs`, `visibility.rs`, `thread_store.rs`,
    `session_meta.rs`: planning and applying a history visibility repair, moving
    rollouts between provider buckets
  - `history_ops.rs`: bucket syncs, restores and their gates
  - `compiler.rs`, `projection.rs`, `migration.rs`: the MultiRouter routing compiler,
    its projection into Codex settings, and the migration from legacy routes
- `tests/` — tests against the library's public functions
- `app/` — the I/O around the library (not verified)

Outside crates the library calls (`regex`, `sha2`, `chrono`) go through small trusted
wrappers whose contracts are stated in their doc comments.

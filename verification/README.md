# dendrite

Dendrite is a Linux endpoint security platform built around a temporal
Memory Graph, incident correlation and constrained response authority. This
crate holds its logic as a library verified with Verus: all code in `src/`
is verified, its public functions state what they do in `requires`/`ensures`
contracts, and the library's central promises stand as proof functions.

## Layout

- `src/protocol/` — shared vocabulary: identifiers, observations, evidence,
  MAGI evaluations and quorum, authorisation, trust states, IPC envelopes.
- `src/memory/` — the Memory Graph: node and relationship model with
  lifecycle, linear and exact exponential decay, reinforcement; the store
  with consolidation, expiry, purging, neighbours, breadth-first traversal,
  path search and ranked threat paths; row encoding for persistence.
- `src/daemon/` — incidents and evidence with correlation, action proposals
  and their transactions, the Guard service, the core that ingests
  observations, and the IPC request dispatcher.
- `src/action.rs`, `src/guard.rs`, `src/updater.rs` — the transactional
  executor boundary, the Guard's authority rule and the update boundary.
- `src/http.rs`, `src/cli.rs`, `src/config.rs`, `src/telemetry.rs`,
  `src/text.rs` — HTTP routing and parsing, CLI parsing and rendering,
  configuration values, telemetry trackers and parsers, text helpers.
- `app/` — the programs around the library: socket and HTTP serving, SQLite
  persistence, telemetry collection from `/proc`, polling and fanotify, and
  the JSON wire types.
- `tests/` — tests of the library's behaviour on concrete values.

## Laws proved

- Compromise can remove authority but cannot create it: an untrusted Guard
  never grants authority, and no action reaches the executor under it.
- Evidence is not authority: execution needs quorum, policy and Guard.
- A quorum veto overrides any number of approvals; the quorum decision
  depends on the verdicts alone, not on their order.
- A transaction runs its stages in order; the first executor step that
  fails ends it and its error is reported; an approved safe action completes.
- Correlated evidence joins its open incident without lowering its severity.
- Revoking reinforcement lets decay resume; decay never strengthens a
  relationship over time; persistent memory is never purged.
- A saved node or relationship reads back as written; stored rows decode to
  the values they encode.
- Path search, traversal and threat-path ranking are sound and complete
  within their depth limits; a path search reports the shortest path whose
  relationship identifiers come first, and that answer is unique.

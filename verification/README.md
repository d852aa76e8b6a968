# raft_core

A Raft consensus core and its segmented log, written in Verus.

- `src/raft.rs`, `src/raft/`: the core as a deterministic state machine. `Raft::handle`
  takes an event and returns the next effect; `raft/spec.rs` states each transition,
  `raft/laws.rs` proves what holds across transitions (terms never go back, one vote
  per term, leaders need a majority, well-formedness is kept, ...). `raft/storage.rs`
  is the byte layout of the durable hard state.
- `src/log.rs`, `src/log/`: the append-only log made of segments, each a store of
  length-prefixed records and an index of fixed-width entries, with the naming of
  segment files.
- `src/codec.rs`: big-endian integer encodings.
- `app/`: the runtime around the core (tokio tasks, gRPC transport, Serf membership,
  files and memory maps), which performs the effects the core asks for.

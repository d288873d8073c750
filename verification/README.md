# fossic

Local-first event sourcing with content-addressed event identity, over a
single SQLite file. This crate holds the store's logic as a library verified
with Verus, and a thin layer of ordinary Rust around it.

## Layout

- `src/` — the verified library.
  - `types.rs` — event ids (hexadecimal form and parsing), appends, stored
    events, read queries, open options, stream/branch/snapshot records.
  - `hex.rs` — the hexadecimal alphabet and its laws (round trip, one
    canonical lowercase spelling).
  - `store.rs` — what the store decides: whether a store file may be opened,
    which appends reach subscribers, what a batch append hands back, how a
    payload is encoded before its id is derived.
  - `causation.rs`, `cross_stream.rs` — causation walks (forward, backward,
    both, by depth then timestamp) and correlation reads over an event table.
  - `reducers.rs` — folding events into a state, resuming from snapshots,
    and what taking a snapshot does.
  - `branches.rs` — the cache of resolved branch chains and its invalidation.
  - `delivery.rs` — the subscription delivery loop and pull-based cursors as
    state machines.
  - `bindings.rs`, `serialization.rs` — conversions of the values that the
    language bindings and the desktop-app layer hand in and out.
  - `msgpack.rs`, `json.rs` — the calls into `rmp_serde` and `serde_json`,
    with the contracts the library relies on.
- `app/` — file system, SQLite connections, threads and channels, serde
  derives and error text, around the decisions of `src/`. It holds the
  pieces for opening a store file, dispatching, recording degraded
  subscriptions and seeding subscriptions, not a whole store.
- `tests/` — tests of the library on concrete values.

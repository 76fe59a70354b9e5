# blazecache

A distributed in-memory cache: a size-bounded LRU store with expiry, a
compact binary wire protocol (and a JSON one for tools), consistent hashing
for picking the node that owns a key, gossip-based cluster membership, and a
write-ahead log for persistence.

## Layout

- `src/` is the library, written and proved with Verus. Every function has
  a contract over a mathematical model of its data (sequences, maps and
  spec functions), and the properties that span several functions are
  stated as proof functions (`lemma_*`): what a read finds after a write or
  a delete, round trips of the wire encodings and of the log, that a ring
  moves only the keys of a peer that leaves or comes (when the position
  that decided a key shares its hash with no other), the precedence of
  configuration sources, and others.
  - `cache/`: values and their compression, the LRU store, a buffer pool,
    and the local side of a cache group.
  - `serializers/`, `transports/`: the binary and JSON encodings of commands
    and replies, and the replies a server gives.
  - `networking/`: consistent hashing, the peer registry, the gossip state
    machine, and the reading of peers' replies.
  - `client.rs`: server selection and the reading of replies on the client.
  - `utils/`: errors, text helpers, configuration, the write-ahead log
    (its records, which commands are logged, and the order in which
    rotated logs are replayed on recovery).
  - `perf/`: the bookkeeping of the load generator.
- `app/` is the server program around the library: sockets, files, timers,
  the async runtime, the async and blocking clients, the load-test driver,
  and the serde copies of the library's types.
- `tests/` runs the library on concrete values.

Calls into outside crates (`lru`, `lz4_flex`, `fnv`, `serde_json`, `base64`,
`fastrand`, `bytes`, `num_cpus`) go through small trusted
functions whose contracts say what those crates document; each is marked
`#[verifier::external_body]` and explains what it claims.

# openkeyv

A key-value layer over many backends, written in Verus: what a store decides and computes is
stated in contracts and proved.

A store holds values under keys in named collections. A value is typed bytes; an entry is a value
with the times that its store keeps for it. Where a backend can do it, entries carry revisions, so
that a write or a deletion can be made conditional, and changes can be followed in a feed.

## Layout

- `src/` is the verified library.
  - `value/`, `entry`, `cas`: the binary forms of values, entries and entries with revisions, with
    proofs that each form reads back and that only well-formed bytes are read.
  - `utils/compound`: identities of collections and keys, framed so that no two pairs collide.
  - `store/memory`, `store/simple`, `store/null`: stores that need no server.
  - `store/postgres`, `store/mongodb`, `store/opensearch`, `store/redis`, `store/valkey`,
    `store/s3`, `store/vault`, `store/rocksdb`, `store/sqlite`: the names a backend is given, the
    requests it is sent and how its replies are judged.
  - `migration`: moving entries into a namespace.
  - `text`, `bytes`, `hex`, `ordered`: the plain parts that the others are made of.
- `tests/` runs the library.
- `app/` is the ordinary Rust around it: the connections, the clock and the asynchronous traits.

Times are milliseconds since the Unix epoch, and the time is an argument of what depends on it.
Floats are held by their bit patterns.

What the library takes on trust is little: Base64, BLAKE3, the system's randomness and clock, the
concurrent map, and a few functions of the standard library. Each stands behind a function whose
doc comment says what is relied on.

`serde_with` is named in `Cargo.toml` for its version alone: the clients of OpenSearch and MongoDB
share it, and its later versions bring in further packages that nothing here uses.

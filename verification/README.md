# closed_prefix

Closes object-key prefixes for good. A *scope* is a prefix of the form
`<root>/v1/databases/<shard>/<shard>/<database>/epochs/<ordinal>-<label>/objects/`. Once a
scope is closed, no object below it is written any more, and its objects are deleted only by
whoever shows the proof of the closing.

- `src/` is the library, proved with Verus: finding scopes, naming markers and locks, and the
  steps of reading a marker, admitting a change, closing a scope, deleting its objects and
  answering the administrative calls. The modules `*_laws` state what holds of every run.
- `app/` carries out the outside steps in a server: locks, disks, JSON and HTTP.
- `tests/` runs the library on concrete values, with a store in memory.

Two outside functions are believed rather than proved: `uuid::Uuid::parse_str`
(`src/ident.rs`) and `sha2::Sha256::digest` (`src/marker.rs`).

SHA-256 is taken from the `sha2` crate directly. The server around this library has a helper of
its own for it, `rustfs_utils::crypto::hex_sha256`, but that is part of the server's workspace,
which the library does not depend on. The digest is written in lower-case hexadecimal, which is
proved here (`hex_lower` in `src/text.rs`).

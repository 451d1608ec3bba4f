# rustcdc

Change data capture for PostgreSQL, MySQL and MariaDB: the decisions of the connectors as a verified
library, and the connections around them as ordinary Rust.

- `src/` is the library. Its functions carry contracts, and Verus proves them. The small wrappers
  around other crates are the exception: what they state of those crates is taken on trust, and
  each says so.
  - `event`, `schema`, `ddl`, `json`, `text`, `bytes`, `identifier`, `glob`, `filter`: the event
    envelope, table shapes and the vocabulary that the rest is stated in.
  - `capabilities`, `config`, `conditions`, `snapshot_request`, `error`, `poll`: what the connectors
    share.
  - `incremental`: the incremental snapshot, which interleaves chunk reads with the live stream.
  - `mysql`, `postgres`: decoding, streaming, bulk snapshots, handoff and validation of each
    connector.
  - The `laws` and `*_laws` modules state what holds across functions: what every step keeps, what
    one call undoes, what never happens. The `run` and `*_run` modules state what holds over any
    number of calls.
- `app/` performs what the library decides: it opens connections, runs queries, sleeps, and writes
  checkpoints. It hands the library plain values and carries out the actions that come back.
- `tests/` runs the library on concrete values.

The library does no I/O. A step that needs the outside world returns an action, such as reading a
chunk, polling the log or waiting, and is then told what came of it.

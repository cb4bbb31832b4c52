# pgtest_wire

The wire-protocol core of PgTest, a PostgreSQL proxy that gives every test its
own database. A client connects with the database name `template/lease-id`;
clients with the same lease ID share one database. The database name `pgtest`
reaches a control panel that answers `SELECT 1` and `SELECT pgtest_release(..)`.

`src/` holds the decisions of the proxy, proved with Verus:

- `connection`: routing by startup parameters, and the steps of a session from
  its first message to the relay.
- `postgres_upstream`: the startup message, and the upstream handshake read from
  bytes that arrive in pieces.
- `control_panel`: the SQL grammar, the simple and the extended query protocol,
  and the rows that are sent back.
- `connection_warm`: the pool of spare upstream connections. It keeps the
  accounts of idle and in-flight connections, the backoff of failed attempts,
  the round-robin scheduler, the initial warm-up and the shutdown. `laws`,
  `history` and `run` state what holds across its operations, over any row of
  them, and over a whole run of the scheduler.
- `params`, `lease`, `buffer`, `text`, `wire_listener`: what the others share.

`app/` opens sockets, runs tasks and reads clocks around the core. `tests/` runs
the core against the real `pgwire`, `bytes`, `tokio` and `tokio-retry2` crates.

What the proofs rest on without proof is marked in place: the declarations of
`BytesMut`, `PgWireError` and `io::Error`, and the small functions that call into
`pgwire`, `bytes`, `tokio` and the standard library.

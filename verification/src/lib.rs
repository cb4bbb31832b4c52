//! Wire-protocol core of PgTest, a PostgreSQL proxy that hands out isolated
//! test databases.
//!
//! The crate holds the decisions of the proxy: which database a client is
//! routed to, what the control panel accepts, how an upstream handshake is
//! read, and how spare upstream connections are accounted for. Sockets, tasks
//! and clocks stay with the caller.
pub mod buffer;
pub mod connection;
pub mod connection_warm;
pub mod control_panel;
pub mod lease;
pub mod params;
pub mod postgres_upstream;
pub mod text;
pub mod wire_listener;

[package]
name = "pgtest_wire"
version = "0.1.0"
edition = "2021"
publish = false

[dependencies]
async-trait = "0.1"
bytes = "1"
futures = "0.3"
pgwire = { version = "*", default-features = false, features = ["server-api"] }
thiserror = "*"
tokio = { version = "1", features = ["full"] }
tokio-util = { version = "0.7", features = ["codec", "rt"] }
tracing = "0.1"

[dev-dependencies]
tokio-retry2 = "*"

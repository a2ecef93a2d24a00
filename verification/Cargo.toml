[package]
name = "fedimint_observer"
version = "0.1.0"
edition = "2021"
publish = false

[dependencies]
anyhow = "1"
esplora-client = { version = "0.11", default-features = false, features = ["async-https"] }
fedimint-api-client = "=0.6.2"
fedimint-core = "=0.6.2"
fedimint-ln-common = "=0.6.2"
fedimint-mint-common = "=0.6.2"
fedimint-wallet-common = "=0.6.2"
futures = "0.3"
hex = "=0.4.3"
serde = { version = "1", features = ["derive"] }
serde_json = "1"
sqlx = { version = "0.7", default-features = false, features = ["any", "postgres", "sqlite", "runtime-tokio"] }
tokio = { version = "1", features = ["macros", "net", "rt-multi-thread", "sync", "time"] }
tracing = { version = "0.1", features = ["log"] }

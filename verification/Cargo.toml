[package]
name = "scupt_fuzzy"
version = "0.1.0"
edition = "2021"
publish = false

[dependencies]
arbitrary = "1"
scc = "2"
scupt-util = "*"
tokio = { version = "1", features = ["full"] }
rusqlite = { version = "*", features = ["bundled"] }
serde = { version = "1", features = ["derive"] }
serde_json = "1"
tracing = "0.1"
bincode = "2"

[package]
name = "perry-hermes-agent"
version = "0.1.0"
edition = "2021"
publish = false

[dependencies]
anyhow = "1"
async-trait = "0.1"
chrono = { version = "0.4", default-features = false, features = ["clock", "std"] }
dashmap = "6"
futures = { version = "0.3", default-features = false, features = ["std"] }
jsonschema = { version = "*", default-features = false }
serde = { version = "1", features = ["derive"] }
serde_json = "1"
thiserror = "*"
tokio = { version = "1", features = ["fs", "io-util", "macros", "process", "rt", "sync", "time"] }
tokio-util = "0.7"
toml = "*"
tracing = { version = "0.1", default-features = false, features = ["std"] }

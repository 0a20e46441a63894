[package]
name = "nexa-core"
version = "0.1.0"
edition = "2021"
publish = false

[dependencies]
async-trait = "0.1"
chrono = { version = "0.4", features = ["serde"] }
futures = "0.3"
regex = "1"
serde = { version = "1", features = ["derive"] }
serde_json = "1"
serde_yaml = "0.9"
thiserror = "1"
tokio = { version = "1", features = ["sync", "rt", "time", "macros"] }
tracing = "0.1"
uuid = { version = "1", features = ["v4", "serde"] }

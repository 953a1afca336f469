[package]
name = "effisuite_logic"
version = "0.1.0"
edition = "2021"
publish = false

[dependencies]
serde = { version = "=1.0.229", features = ["derive"] }
serde_json = "=1.0.154"
tokio = { version = "=1.54.1", features = ["fs", "sync", "rt", "macros", "process", "time", "io-util"] }
thiserror = "=1.0.69"
chrono = "=0.4.45"
uuid = { version = "=1.29.0", features = ["v4"] }
dirs = "=5.0.1"
async-trait = "=0.1.92"
futures = "=0.3.34"
tracing = "=0.1.44"
reqwest = { version = "=0.12.28", default-features = false, features = ["json"] }
rig-core = "=0.40.0"

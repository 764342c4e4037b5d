[package]
name = "chat_module"
version = "0.1.0"
edition = "2021"
publish = false

[dependencies]
base64 = "0.22"
tracing-subscriber = { version = "0.3", features = ["env-filter", "fmt", "registry"] }
tracing = "0.1"
tracing-core = "0.1"
chrono = "0.4"
serde = { version = "1", features = ["derive"] }
serde_json = "1"
anyhow = "1"
thiserror = "2"
crossbeam-channel = "0.5"
tokio = { version = "1", features = ["full"] }
axum = "0.8"
tower-http = { version = "0.6", features = ["trace"] }
reqwest = { version = "0.12", default-features = false, features = ["blocking", "json"] }
rusqlite = { version = "*", features = ["bundled"] }
rusqlite_migration = "*"

[package]
name = "hybrid-exchange"
version = "0.1.0"
edition = "2021"
publish = false

[dependencies]
alloy = { version = "1", default-features = false, features = ["std", "signer-local", "sol-types"] }
axum = { version = "0.8", features = ["ws"] }
bincode = "1"
clap = { version = "4", features = ["derive", "env"] }
eyre = "0.6"
hex = "0.4"
rand = "0.9"
rusqlite = { version = "*", features = ["bundled"] }
serde = { version = "1", features = ["derive"] }
serde_json = "1"
tokio = { version = "1", features = ["full"] }
tokio-stream = "0.1"
tower-http = { version = "0.6", features = ["trace"] }
tracing = "0.1"
tracing-subscriber = { version = "0.3", features = ["env-filter"] }

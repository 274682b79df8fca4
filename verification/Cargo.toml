[package]
name = "backend"
version = "0.1.0"
edition = "2021"
publish = false

[dependencies]
aleo-rust = "*"
anyhow = "1"
axum = "0.7"
bincode = "1.3"
clap = { version = "4", features = ["derive"] }
once_cell = "1"
rocksdb = "0.21"
serde = { version = "1", features = ["derive"] }
snarkvm = "0.16"
snarkvm-ledger = "0.16"
tokio = { version = "1", features = ["full"] }
tower-http = { version = "0.5", features = ["cors"] }
tracing = "0.1"
tracing-subscriber = "0.3"
ureq = { version = "2", features = ["json"] }

[package]
name = "legal_learn"
version = "0.1.0"
edition = "2021"
publish = false

[dependencies]
anyhow = "1"
burn-dataset = { version = "0.20", default-features = false }
chrono = "0.4"
clap = { version = "4", features = ["derive"] }
rusqlite = { version = "*", features = ["bundled"] }
serde = { version = "1", features = ["derive"] }
serde_json = "1"
sqlite-vec = "0.1"
tokenizers = { version = "0.22", default-features = false, features = ["fancy-regex"] }
tracing = "0.1"
tracing-subscriber = { version = "0.3", features = ["env-filter"] }

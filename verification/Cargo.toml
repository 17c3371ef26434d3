[package]
name = "ttt"
version = "0.1.0"
edition = "2021"
publish = false

[dependencies]
ahash = "0.8"
dashmap = "6"
lru = "0.12"
num_cpus = "=1.17.0"
serde = { version = "=1.0.229", features = ["derive"] }
serde_json = "=1.0.154"
thiserror = "=1.0.69"

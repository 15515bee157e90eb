[package]
name = "ianvs"
version = "0.1.0"
edition = "2021"
publish = false

[dependencies]
anyhow = "1"
atomic-write-file = "*"
chrono = { version = "0.4", features = ["serde"] }
envy = "0.4"
futures = "0.3"
git2 = { version = "*", default-features = false }
procfs = "*"
serde = { version = "1", features = ["derive"] }
serde_json = "1"
serenity = "0.12"
tokio = { version = "1", features = ["full"] }
tokio-stream = "0.1"
tracing = "0.1"

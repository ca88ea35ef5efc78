[package]
name = "lean_ctx"
version = "0.1.0"
edition = "2021"
publish = false

[dependencies]
serde = { version = "1", features = ["derive"] }
serde_json = "1"
clap = "4"
anyhow = "1"
tracing = "0.1"
tokio = { version = "1", features = ["sync"] }
ureq = "3"

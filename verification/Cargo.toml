[package]
name = "workflow_core"
version = "0.1.0"
edition = "2021"
publish = false

[dependencies]
anyhow = "1"
clap = { version = "4", features = ["derive"] }
serde_json = "1"
signal-hook = "0.3"
tracing = "0.1"
tracing-subscriber = "0.3"

[package]
name = "chainindex"
version = "0.1.0"
edition = "2021"
publish = false

[dependencies]
serde_json = "*"
serde = { version = "*", features = ["derive"] }
rusqlite = { version = "*", features = ["bundled"] }
signal-hook = "*"
tracing = "*"
tracing-subscriber = "*"

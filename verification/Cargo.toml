[package]
name = "taimi"
version = "0.1.0"
edition = "2021"
publish = false

[dependencies]
anyhow = "=1.0.104"
glam = { version = "=0.34.1", features = ["serde"] }
glob = "=0.3.4"
log = "=0.4.34"
serde = { version = "=1.0.229", features = ["derive"] }
serde_jsonrc = "=0.1.0"
tokio = { version = "=1.54.1", features = ["rt", "sync", "time", "macros"] }

[package]
name = "socketioxide"
version = "0.1.0"
edition = "2021"
publish = false

[dependencies]
engineioxide = "=0.3.0"
futures = "=0.3.34"
serde = { version = "=1.0.229", features = ["derive"] }
serde_json = "=1.0.154"
tokio = { version = "=1.54.1", features = ["sync", "time", "rt", "macros"] }
tracing = "=0.1.44"

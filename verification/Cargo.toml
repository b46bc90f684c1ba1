[package]
name = "updown_bot"
version = "0.1.0"
edition = "2021"
publish = false

[dependencies]
rust_decimal = "1"
time = { version = "0.3", features = ["std"] }
serde_json = "1"
serde = { version = "1", features = ["derive"] }
anyhow = "1"
thiserror = "2"
tracing = "0.1"
flate2 = "1"
tokio = { version = "1", features = ["rt", "sync", "time", "macros", "signal"] }
reqwest = { version = "0.12", default-features = false, features = ["json"] }

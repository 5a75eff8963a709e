[package]
name = "rustbouncer"
version = "0.1.0"
edition = "2021"
publish = false

[dependencies]
anyhow = "1"
bytes = "1"
tokio = { version = "1", features = ["net", "io-util", "sync", "rt-multi-thread", "macros"] }
tracing = "0.1"
tracing-subscriber = "0.3"

[package]
name = "alert_layer"
version = "0.1.0"
edition = "2021"
publish = false

[dependencies]
sha2 = "*"
tracing = "*"
tracing-subscriber = "*"
tokio = { version = "*", features = ["rt", "rt-multi-thread", "sync", "time", "macros"] }
parking_lot = "*"
reqwest = { version = "*", default-features = false }

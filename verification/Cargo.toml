[package]
name = "nats_session"
version = "0.1.0"
edition = "2021"
publish = false

[dependencies]
async-nats = "*"
tokio = { version = "*", features = ["rt-multi-thread", "sync", "time"] }
futures-util = "*"
bytes = "*"

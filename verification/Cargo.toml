[package]
name = "mini_actor"
version = "0.2.0"
edition = "2021"
publish = false

[dependencies]
tokio = { version = "1", features = ["rt", "rt-multi-thread", "sync", "time"] }
dashmap = "5.5"

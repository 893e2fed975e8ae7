[package]
name = "scanny"
version = "0.1.0"
edition = "2021"
publish = false

[dependencies]
futures = "0.3"
tokio = { version = "1", features = ["net", "rt", "rt-multi-thread", "time"] }

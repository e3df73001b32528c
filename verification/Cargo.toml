[package]
name = "diameter_client"
version = "0.1.0"
edition = "2021"
publish = false

[dependencies]
tokio = { version = "1", features = ["rt", "rt-multi-thread", "net", "sync", "io-util", "time", "macros"] }
log = "0.4"

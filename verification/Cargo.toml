[package]
name = "lexspan"
version = "0.1.0"
edition = "2021"
publish = false

[dependencies]
chrono = "*"
futures = "*"
tokio = { version = "*", features = ["rt", "time", "macros"] }

[package]
name = "mini_http"
version = "0.1.0"
edition = "2021"
publish = false

[dependencies]
itertools = "0.13"
tokio = { version = "1", features = ["rt-multi-thread", "macros"] }

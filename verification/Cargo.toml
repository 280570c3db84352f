[package]
name = "lime_bit"
version = "0.1.0"
edition = "2021"
publish = false

[dependencies]
gosh-dl = "*"
anyhow = "1"
tokio = { version = "1", features = ["rt-multi-thread", "macros", "sync", "time", "fs"] }
tracing = "0.1"
tracing-subscriber = { version = "0.3", features = ["env-filter", "fmt"] }

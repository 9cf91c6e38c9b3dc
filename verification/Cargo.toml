[package]
name = "rustopus"
version = "0.1.0"
edition = "2021"
publish = false

[dependencies]
bytes = "1"
governor = "0.10"
http = "1"
rand = "0.9"
reqwest = { version = "0.13", default-features = false }
thiserror = "2"
tokio = { version = "1", features = ["macros", "rt", "sync", "time"] }
tracing = "0.1"

[package]
name = "hydrant"
version = "0.1.0"
edition = "2021"
publish = false

[dependencies]
anyhow = "*"
heed = "*"
hex = "*"
page_size = "*"
pallas = "*"
thiserror = "*"
tokio = { version = "*", features = ["rt-multi-thread", "macros", "signal", "sync", "time"] }
tracing = "*"
tracing-subscriber = "*"

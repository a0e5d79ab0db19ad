[package]
name = "port_scan"
version = "0.1.0"
edition = "2021"
publish = false

[dependencies]
number_range = "*"
anyhow = "1"
clap = { version = "4", features = ["derive"] }
tokio = { version = "1", features = ["net", "time", "rt-multi-thread", "macros"] }
tracing = "0.1"
tracing-subscriber = { version = "0.3", features = ["chrono"] }

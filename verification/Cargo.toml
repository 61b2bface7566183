[package]
name = "project_finder"
version = "0.1.0"
edition = "2021"
publish = false

[dependencies]
regex = "1"
which = "*"
anyhow = "1"
clap = { version = "4", features = ["derive"] }
futures = "0.3"
thiserror = "*"
tokio = { version = "1", features = ["fs", "io-util", "macros", "process", "rt-multi-thread", "sync"] }
tracing = "0.1"
tracing-subscriber = "0.3"

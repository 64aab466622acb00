[package]
name = "crawler"
version = "0.1.0"
edition = "2021"
publish = false

[dependencies]
anyhow = "*"
async-channel = "*"
clap = { version = "*", features = ["derive"] }
dashmap = "*"
reqwest = { version = "*", default-features = false }
scraper = "*"
serde_json = "*"
tokio = { version = "*", features = ["macros", "rt-multi-thread", "signal", "time"] }
tokio-utils = "*"
tracing = "*"
tracing-subscriber = "*"
url = "*"

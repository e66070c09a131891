[package]
name = "html2md"
version = "0.1.0"
edition = "2021"
publish = false

[dependencies]
scraper = "=0.29.0"
regex = "=1.13.1"
url = "=2.5.8"
serde_json = "=1.0.154"
clap = { version = "=4.6.7", features = ["derive", "env"] }
tokio = { version = "=1.54.1", features = ["rt-multi-thread", "macros", "time", "sync"] }
reqwest = "=0.13.5"
headless_chrome = { version = "=1.0.22", default-features = false, features = ["offline"] }
anyhow = "=1.0.104"
thiserror = "=2.0.21"

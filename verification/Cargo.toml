[package]
name = "webb"
version = "0.1.0"
edition = "2021"
publish = false

[dependencies]
crossterm = "*"
ctrlc = "3"
lazy_static = "1"
log = "0.4"
pretty_env_logger = "0.4"
reqwest = "0.12"
scraper = "*"
serde = { version = "1", features = ["derive"] }
serde_yaml = "0.9"
tokio = { version = "1", features = ["rt-multi-thread", "sync"] }

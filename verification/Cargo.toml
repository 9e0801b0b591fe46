[package]
name = "redis_tui"
version = "0.1.0"
edition = "2021"
publish = false

[dependencies]
anyhow = "*"
clap = { version = "*", features = ["derive"] }
crossterm = "*"
ratatui = "*"
redis = "*"
rustfft = "*"
serde_json = "*"

[package]
name = "stock_cli"
version = "0.1.0"
edition = "2021"
publish = false

[dependencies]
anyhow = "1"
chrono = "0.4"
crossterm = "0.28"
ratatui = "0.29"
tokio = { version = "1", features = ["rt", "rt-multi-thread", "time", "macros"] }
unicode-width = "0.2"

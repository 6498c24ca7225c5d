[package]
name = "parket"
version = "0.1.0"
edition = "2021"
publish = false

[dependencies]
anyhow = "1"
arrow = { version = "*", default-features = false }
parquet = "*"
clap = { version = "4", features = ["derive"] }
crossterm = "*"
ratatui = "*"

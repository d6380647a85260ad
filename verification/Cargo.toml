[package]
name = "devkit"
version = "0.1.0"
edition = "2021"
publish = false

[dependencies]
anyhow = "1"
clap = { version = "4", features = ["derive"] }
colored = "*"
crossterm = "0.28"
ratatui = "0.29"
serde = { version = "1", features = ["derive"] }

[package]
name = "tasklist"
version = "0.1.0"
edition = "2021"
publish = false

[dependencies]
anyhow = "1"
crossterm = "*"
ratatui = "*"

[dev-dependencies]
serde_json = "1"

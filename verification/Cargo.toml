[package]
name = "ttd_v2"
version = "0.1.0"
edition = "2021"
publish = false

[dependencies]
chrono = "*"
crossterm = "*"
ratatui = "*"
tui-input = "*"

[dev-dependencies]
serde_json = "*"

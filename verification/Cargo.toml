[package]
name = "auth_client"
version = "0.1.0"
edition = "2021"
publish = false

[dependencies]
crossterm = "*"
portable-pty = "*"
ratatui = { version = "*", features = ["unstable-rendered-line-info"] }

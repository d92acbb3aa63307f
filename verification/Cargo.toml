[package]
name = "zenith"
version = "0.1.0"
edition = "2021"
publish = false

[dependencies]
anyhow = "1"
crossterm = "0.26"
libc = "0.2"
ratatui = "0.20"
tokio = { version = "1", features = ["full"] }

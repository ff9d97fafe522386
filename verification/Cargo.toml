[package]
name = "downloader"
version = "0.1.0"
edition = "2021"
publish = false

[dependencies]
hex = "=0.4.3"
sha2 = "=0.10.9"
libc = "=0.2.191"
serde = { version = "=1.0.229", features = ["derive"] }
serde_json = "=1.0.154"
serde_yaml = "=0.9.34"
ureq = "=3.5.1"
crossterm = "=0.28.1"
ratatui = "=0.29.0"

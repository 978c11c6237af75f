[package]
name = "poneglyph"
version = "0.1.0"
edition = "2021"
publish = false

[dependencies]
anyhow = "=1.0.104"
clap = { version = "=4.6.7", features = ["derive"] }
crossterm = "=0.29.0"
image = { version = "=0.25.10", default-features = false, features = ["png", "jpeg", "gif"] }
ratatui = "=0.30.2"
ratatui-image = { version = "=11.1.0", default-features = false, features = ["crossterm"] }
serde = { version = "=1.0.229", features = ["derive"] }
serde_json = "=1.0.154"
unicode-width = "=0.2.0"
ureq = "=2.12.1"
walkdir = "=2.5.0"

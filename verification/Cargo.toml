[package]
name = "agent_terminal"
version = "0.1.0"
edition = "2021"
publish = false

[dependencies]
anyhow = "1"
async-channel = "2"
clap = { version = "4", features = ["derive"] }
fontdb = "0.23"
image = { version = "0.25", default-features = false }
parking_lot = "0.12"
portable-pty = "0.9"
serde = { version = "1", features = ["derive"] }
serde_json = "1"
tiny_http = "0.12"
ttf-parser = "0.25"

[package]
name = "mctop"
version = "0.1.0"
edition = "2021"
publish = false

[dependencies]
anyhow = "=1.0.104"
clap = { version = "=4.6.7", features = ["derive"] }
directories = "=6.0.0"
ratatui = "=0.30.2"
rcon = { version = "=0.6.0", features = ["rt-tokio"] }
regex = "=1.13.1"
regex-syntax = "=0.8.11"
serde = { version = "=1.0.229", features = ["derive"] }
sysinfo = "=0.40.1"
tokio = { version = "=1.54.1", features = ["full"] }
toml = "=1.1.8"

[package]
name = "proxytainer"
version = "0.1.0"
edition = "2021"
publish = false

[dependencies]
anyhow = "1"
clap = { version = "4", features = ["derive"] }
docker-api = "*"
env_logger = "*"
log = "0.4"
tokio = { version = "1", features = ["full"] }

[package]
name = "ptu"
version = "0.1.0"
edition = "2021"
publish = false

[dependencies]
anyhow = "1"
clap = { version = "4", features = ["derive"] }
env_logger = "0.11"
log = "0.4"
libc = "0.2"
serde = { version = "1", features = ["derive"] }
serde_json = "1"
tabled = "0.15"

[package]
name = "micro_hermes"
version = "0.1.0"
edition = "2021"
publish = false

[dependencies]
anyhow = "=1.0.104"
aya = "=0.14.0"
clap = { version = "=4.6.7", features = ["derive"] }
env_logger = "=0.11.11"
libc = "=0.2.191"
log = "=0.4.35"
signal-hook = "=0.4.6"
tokio = { version = "=1.54.1", features = ["full"] }

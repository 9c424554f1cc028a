[package]
name = "gateway_proxy"
version = "0.1.0"
edition = "2021"
publish = false

[dependencies]
anyhow = "*"
chrono = "*"
clap = { version = "*", features = ["derive"] }
env_logger = "*"
libc = "*"
log = "*"
tokio = { version = "*", features = ["rt-multi-thread", "macros", "signal", "time", "sync"] }

[package]
name = "hmpc_rs"
version = "0.1.0"
edition = "2021"
publish = false

[dependencies]
ring = "0.17"
quinn = "0.11"
rustls = "0.23"
tokio = { version = "1", features = ["full"] }
serde = { version = "1", features = ["derive"] }
config = "0.14"
log = "0.4"
env_logger = "0.11"
clap = { version = "4", features = ["derive"] }
rcgen = "0.13"

[package]
name = "payments"
version = "0.1.0"
edition = "2021"
publish = false

[dependencies]
anyhow = "*"
csv = "*"
env_logger = "*"
log = "*"
rust_decimal = "*"
serde = { version = "*", features = ["derive"] }
structopt = "*"
thiserror = "*"

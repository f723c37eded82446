[package]
name = "chaos_dragon"
version = "0.1.0"
edition = "2021"
publish = false

[dependencies]
futures = "0.3"
hostname = "*"
log = "0.4"
pretty_env_logger = "*"
rand = "*"
time = "0.3"
tokio = { version = "1", features = ["full"] }
trust-dns-resolver = "*"

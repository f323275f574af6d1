[package]
name = "url_shortener"
version = "0.1.0"
edition = "2021"
publish = false

[dependencies]
actix-web = "4"
base62 = "2"
crc32fast = "1"
env_logger = "0.11"
log = "0.4"
rand = { version = "0.9", features = ["small_rng"] }
serde = { version = "1", features = ["derive"] }

[package]
name = "nft-generator"
version = "0.1.0"
edition = "2021"
publish = false

[dependencies]
anyhow = "1"
hex = "0.4"
image = { version = "0.24", default-features = false, features = ["png"] }
log = "0.4"
pretty_env_logger = "0.5"
rand = "0.8"
serde = { version = "1", features = ["derive"] }
serde_json = "1"
tiny-keccak = { version = "2", features = ["sha3"] }
tokio = { version = "1", features = ["fs", "macros", "rt-multi-thread", "time"] }

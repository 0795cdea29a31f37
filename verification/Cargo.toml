[package]
name = "mmr_checkpoint"
version = "0.1.0"
edition = "2021"
publish = false

[dependencies]
ckb-merkle-mountain-range = "*"
blake2 = "*"
hex = "=0.4.3"
serde = { version = "=1.0.229", features = ["derive"] }
serde_json = "=1.0.151"
reqwest = { version = "=0.12.28", default-features = false }
tokio = { version = "=1.53.2", features = ["rt-multi-thread", "macros"] }

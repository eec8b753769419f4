[package]
name = "batch_synchronizer"
version = "0.1.0"
edition = "2021"
publish = false

[dependencies]
rand = { version = "0.8", features = ["small_rng"] }
fastcrypto = "*"
tokio = { version = "1", features = ["sync", "time", "rt", "macros"] }
futures = "0.3"
anyhow = "1"
async-trait = "0.1"
tracing = "0.1"
tap = "1"

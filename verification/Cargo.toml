[package]
name = "polymarket_executor"
version = "0.1.0"
edition = "2021"
publish = false

[dependencies]
alloy = { version = "1", default-features = false, features = ["signer-local", "signers", "std"] }
anyhow = "1"
k256 = { version = "0.13", features = ["ecdsa"] }
rust_decimal = "1"
tokio = { version = "1", features = ["rt-multi-thread", "time"] }
tracing = "0.1"
tracing-subscriber = { version = "0.3", features = ["env-filter"] }

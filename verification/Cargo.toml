[package]
name = "ledger_snapshot"
version = "0.1.0"
edition = "2021"
publish = false

[dependencies]
prost = { version = "=0.12.6", default-features = false, features = ["std"] }
solana-sdk = "1.17"

[package]
name = "wallet_index"
version = "0.1.0"
edition = "2021"
publish = false

[dependencies]
bitcoin = "*"
bitcoin_hashes = "*"
bitcoincore-rpc = "*"
serde = { version = "1", features = ["derive"] }
serde_json = "1"

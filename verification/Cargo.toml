[package]
name = "blockchainlib"
version = "0.1.0"
edition = "2021"
publish = false

[dependencies]
bs58 = "0.5"
chrono = "0.4"
crypto-hash = "0.3"
hex = "0.4"
parking_lot = "0.12"
rand = "0.8"
ring = "0.17"
rocksdb = "*"
serde = { version = "1", features = ["derive"] }
serde_json = "1"
sled = "0.34"
tokio = { version = "1", features = ["net", "sync", "time", "io-util", "rt", "rt-multi-thread"] }

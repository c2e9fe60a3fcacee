[package]
name = "minimint_ln"
version = "0.1.0"
edition = "2021"
publish = false

[dependencies]
bitcoin_hashes = "*"
secp256k1 = "*"
threshold_crypto = "*"
bincode = "1"

[dev-dependencies]
rand = "0.7"

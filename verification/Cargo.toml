[package]
name = "minimint"
version = "0.1.0"
edition = "2021"
publish = false

[dependencies]
fedimint-tbs = "=0.3.3"
bls12_381 = "=0.7.1"
secp256k1 = { version = "=0.28.2", features = ["global-context"] }
bitcoin_hashes = "=0.13.0"
bincode = "=1.3.3"
serde = "=1.0.229"
rand = "=0.8.8"

[package]
name = "asset_bridge"
version = "0.1.0"
edition = "2021"
publish = false

[dependencies]
blake2 = "0.10"
sha3 = "0.10"
libsecp256k1 = "0.7"

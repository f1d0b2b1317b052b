[package]
name = "eth_receipts"
version = "0.1.0"
edition = "2021"
publish = false

[dev-dependencies]
alloy-rlp = "*"

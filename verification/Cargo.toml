[package]
name = "cost_model"
version = "0.1.0"
edition = "2021"
publish = false

[dependencies]
log = "0.4"
solana-sdk = "=1.9.0"

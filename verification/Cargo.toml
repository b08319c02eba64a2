[package]
name = "solana_privacy_pools"
version = "0.1.0"
edition = "2021"
publish = false

[dependencies]
ark-bn254 = "0.4"
ark-ff = "0.4"
pinocchio = "0.8"
solana-program = "1.18"

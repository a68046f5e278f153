[package]
name = "substrate_pallets"
version = "0.1.0"
edition = "2021"
publish = false

[dependencies]
sp-io = "=49.0.0"

[dev-dependencies]
sp-crypto-hashing = "=0.1.0"

[package]
name = "transaction_core"
version = "0.1.0"
edition = "2021"
publish = false

[dependencies]
bulletproofs = "=4.0.0"
curve25519-dalek-ng = "=4.1.1"
merlin = "=3.0.0"
rand_core = "=0.6.4"
rand = "=0.8.8"

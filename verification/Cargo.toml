[package]
name = "halo2_proofs"
version = "0.1.0"
edition = "2021"
publish = false

[dependencies]
hashbrown = "0.14"
maybe-rayon = "0.1"

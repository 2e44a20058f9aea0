[package]
name = "plonk_fold"
version = "0.1.0"
edition = "2021"
publish = false

[dependencies]
ff = "0.13"
halo2_proofs = "0.3"
rayon = "1"

[package]
name = "indifferentiable_hashing"
version = "0.1.0"
edition = "2021"
publish = false

[dependencies]
ark-bls12-377 = "0.4"
ark-bls12-381 = "0.4"
ark-ec = "0.4"
ark-ff = "0.4"
sha2 = "0.10"

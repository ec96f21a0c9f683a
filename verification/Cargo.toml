[package]
name = "sovereign_lattice"
version = "0.1.0"
edition = "2021"
publish = false

[dependencies]
bls12_381 = { version = "0.8", features = ["experimental"] }
ff = "0.13"
group = "0.13"
rand = "0.8"
sha2 = "0.9"

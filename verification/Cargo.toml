[package]
name = "polynomial"
version = "0.1.0"
edition = "2021"
publish = false

[dependencies]
ark-ec = "0.5"
ark-ff = "0.5"
ark-serialize = "0.5"
ark-std = "0.5"

[dev-dependencies]
ark-bls12-381 = "0.5"

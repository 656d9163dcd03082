[package]
name = "saver"
version = "0.1.0"
edition = "2021"
publish = false

[dependencies]
ark-ff = "=0.3.0"
ark-ec = "=0.3.0"
ark-std = "=0.3.0"
ark-serialize = { version = "=0.3.0", features = ["derive"] }
ark-bls12-381 = "=0.3.0"
ark-relations = "=0.3.0"
ark-groth16 = "=0.3.0"
dock_crypto_utils = "=0.5.0"

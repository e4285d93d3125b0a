[package]
name = "shielded_pool"
version = "0.1.0"
edition = "2021"
publish = false

[dependencies]
sha2 = "=0.11.0"
ark-bn254 = "=0.6.0"
ark-ff = "=0.6.0"
ark-ec = "=0.6.0"
ark-serialize = "=0.6.0"

[package]
name = "democratic_pq_cle"
version = "0.1.0"
edition = "2021"
publish = false

[dependencies]
binary_polynomial_mod_algebra = "*"
num = "0.4"
num-bigint = { version = "0.4", features = ["rand"] }
rand = "0.8"
rand_chacha = "0.3"
rand_core = "0.6"
sha3 = "0.10"

[dev-dependencies]
nalgebra = "0.33"

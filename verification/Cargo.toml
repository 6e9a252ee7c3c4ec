[package]
name = "canonical"
version = "0.1.0"
edition = "2021"
publish = false

[dependencies]
dusk-varint = "*"
blake2b_simd = "*"
array-init = "*"
arrayvec = "*"
arbitrary = { version = "*", features = ["derive"] }
wasmi = "*"

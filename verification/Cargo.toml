[package]
name = "hbs_lms"
version = "0.1.0"
edition = "2021"
publish = false

[dependencies]
arrayvec = "0.7"
rand = "0.8"
sha2 = "0.10"
sha3 = "0.10"
signature = "1"
tinyvec = "1"

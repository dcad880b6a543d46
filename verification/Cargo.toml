[package]
name = "pir_hint"
version = "0.1.0"
edition = "2021"
publish = false

[dependencies]
spiral-rs = "=0.2.0"
rand = "0.8"
rand_chacha = "0.3"

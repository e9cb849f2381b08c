[package]
name = "veric"
version = "0.1.0"
edition = "2021"
publish = false

[dependencies]
rkyv = { version = "=0.8.18", features = ["little_endian", "alloc"] }

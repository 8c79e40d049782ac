[package]
name = "gchdb"
version = "0.2.0"
edition = "2021"
publish = false

[dependencies]
sha3 = "0.10"
chrono = "0.4"

[package]
name = "fuzzcheck_mutators"
version = "0.1.0"
edition = "2021"
publish = false

[dependencies]
regex-syntax = "0.6"
fastrand = "1"
serde = { version = "1", features = ["derive"] }

[package]
name = "struggle_core"
version = "0.1.0"
edition = "2021"
publish = false

[dependencies]
rand = { version = "0.8", features = ["small_rng"] }
dashmap = "5"
rustc-hash = "1"
arrayvec = "0.7"

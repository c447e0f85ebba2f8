[package]
name = "zklib"
version = "0.1.0"
edition = "2021"
publish = false

[dependencies]
itertools = "0.10"
rand = "0.8"
rayon = "1"
tokio = { version = "1", features = ["rt-multi-thread", "macros"] }

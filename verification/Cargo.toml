[package]
name = "dtln_rs"
version = "0.1.0"
edition = "2021"
publish = false

[dependencies]
anyhow = "=1.0.104"
hound = "3"
neon = { version = "=1.1.2", default-features = false, features = ["napi-6"] }

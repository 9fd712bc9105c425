[package]
name = "kdf_init"
version = "0.1.0"
edition = "2021"
publish = false

[dependencies]
anyhow = "1"
rustix = { version = "0.38", features = ["fs", "mount"] }

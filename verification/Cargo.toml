[package]
name = "rust-dis"
version = "0.1.0"
edition = "2021"
publish = false

[dependencies]
regex = "1"
serde = { version = "1", features = ["derive"] }
serde_derive = "1"
serde_yaml = "0.9"
similar = "2"
tempfile = "3"

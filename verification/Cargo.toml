[package]
name = "chunkgen"
version = "0.1.0"
edition = "2021"
publish = false

[dependencies]
crossbeam-channel = "*"
rand = "*"
serde = { version = "*", features = ["derive"] }
serde_derive = "*"
vek = "*"

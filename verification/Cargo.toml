[package]
name = "bundle_search"
version = "0.1.0"
edition = "2021"
publish = false

[dependencies]
async-std = "1"
serde = { version = "1", features = ["derive"] }
serde_json = "1"
shellexpand = "*"

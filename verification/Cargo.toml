[package]
name = "klotho"
version = "0.1.0"
edition = "2021"
publish = false

[dependencies]
blake3 = "=1.8.7"
ron = "*"
serde = { version = "1", features = ["derive"] }

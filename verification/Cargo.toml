[package]
name = "atomic_kb"
version = "0.1.0"
edition = "2021"
publish = false

[dependencies]
tiktoken-rs = "*"
serde_json = "1"
reqwest = { version = "*", default-features = false }
serde = { version = "1", features = ["derive"] }
schemars = "*"

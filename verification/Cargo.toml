[package]
name = "stoffel_lobby"
version = "0.1.0"
edition = "2021"
publish = false

[dependencies]
blake3 = "1"
ed25519-dalek = "2"
hex = "0.4"
serde = { version = "1", features = ["derive"] }
serde_json = "1"

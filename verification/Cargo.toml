[package]
name = "siertrichain"
version = "0.1.0"
edition = "2021"
publish = false

[dependencies]
blake3 = "1"
ed25519-dalek = "1.0"
rand = "0.7"
bs58 = "0.5"
hex = "0.4"
chrono = "0.4"
serde = { version = "1", features = ["derive"] }
serde_json = "1"
toml = "0.8"
tiny_http = "0.12"
rusqlite = { version = "0.31", features = ["bundled"] }

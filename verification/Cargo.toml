[package]
name = "howm"
version = "0.1.0"
edition = "2021"
publish = false

[dependencies]
ciborium = "0.2"
sha2 = "0.10"
base64 = "0.22"
hex = "0.4"
rand = "0.8"
x25519-dalek = { version = "2", features = ["static_secrets"] }
dirs-next = "2"
serde = { version = "1", features = ["derive"] }
serde_json = "1"
toml = "0.8"
anyhow = "1"

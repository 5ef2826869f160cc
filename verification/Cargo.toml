[package]
name = "deckox"
version = "0.1.0"
edition = "2021"
publish = false

[dependencies]
argon2 = "*"
base64 = "*"
sha2 = "*"
hex = "*"
semver = "*"
serde = { version = "1", features = ["derive"] }
serde_json = "1"
toml = "*"
rand = "*"
chrono = "*"

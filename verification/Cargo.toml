[package]
name = "delphi_rs"
version = "0.1.0"
edition = "2021"
publish = false

[dependencies]
rand = "0.7"
sha2 = "0.9"
merkle_light = "0.4"
serde = { version = "1", features = ["derive"] }
serde_json = "1"
serde_yaml = "0.8"
toml = "0.5"
bincode = "1"
anyhow = "1"

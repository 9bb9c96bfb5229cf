[package]
name = "neo"
version = "0.0.1"
edition = "2021"
publish = false

[dependencies]
cargo-platform = "0.3"
plist = "1"
serde_json = "1"
sha2 = "0.10"
toml = "0.8"

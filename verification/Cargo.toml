[package]
name = "swift_archiver"
version = "0.1.0"
edition = "2021"
publish = false

[dependencies]
colored = "*"
curl = "*"
serde = "*"
serde_derive = "*"
toml = "*"

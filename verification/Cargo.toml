[package]
name = "cfgpp"
version = "0.1.0"
edition = "2021"
publish = false

[dependencies]
regex = "1"
serde = "1"
serde_json = "1"
serde_yaml = "0.9"
thiserror = "1"
toml = "0.8"

[package]
name = "near"
version = "0.1.0"
edition = "2021"
publish = false

[dependencies]
toml = "*"
serde = { version = "*", features = ["derive"] }
serde_json = "*"
sha2 = "*"
zip = "*"

[package]
name = "lipl"
version = "0.1.0"
edition = "2021"
publish = false

[dependencies]
bs58 = "0.5"
uuid = { version = "1", features = ["v4"] }
toml_edit = { version = "0.22", features = ["serde"] }
etag = "4"
serde = { version = "1", features = ["derive"] }
serde_json = "1"
serde_yaml = "0.9"
chrono = "0.4"

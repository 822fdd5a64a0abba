[package]
name = "serylane"
version = "0.7.7"
edition = "2021"
publish = false

[dependencies]
sha2 = "0.10"
toml_edit = "*"
uuid = { version = "1", features = ["v4"] }
serde = { version = "1", features = ["derive"] }
serde_json = "1"
serde_yaml = "0.9"
url = "2"
tempfile = "3"
thiserror = "*"
chrono = { version = "0.4", default-features = false, features = ["clock", "std"] }

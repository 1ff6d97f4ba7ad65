[package]
name = "omnidl"
version = "0.2.0"
edition = "2021"
publish = false

[dependencies]
regex = "1"
urlencoding = "2"
unicode-width = "0.2"
sha2 = "0.10"
getrandom = "0.3"
strsim = "0.11"
serde = { version = "1", features = ["derive"] }
serde_json = "1"
toml = "0.8"
chrono = "0.4"

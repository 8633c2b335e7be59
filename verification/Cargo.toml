[package]
name = "digg"
version = "0.4.0"
edition = "2021"
publish = false

[dependencies]
base64 = "0.22"
rand = "0.8"
idna = "1"
serde = { version = "1", features = ["derive"] }
serde_json = "1"
serde_yaml = "0.9"
ureq = "2"
rustls = "0.23"
webpki-roots = "0.26"

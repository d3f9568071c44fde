[package]
name = "lsd"
version = "0.1.0"
edition = "2021"
publish = false

[dependencies]
chrono = "=0.4.45"
hmac = "=0.12.1"
sha2 = "=0.10.9"
hex = "=0.4.3"
rand = "=0.8.8"
lettre = { version = "=0.11.23", default-features = false, features = ["builder"] }
serde = { version = "=1.0.229", features = ["derive"] }
serde_json = "=1.0.154"
cookie = "=0.18.2"
dashmap = "=6.2.1"
base64 = "=0.22.1"
chrono-tz = "0.10"

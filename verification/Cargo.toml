[package]
name = "flagsmith-flag-engine"
version = "0.1.0"
edition = "2021"
publish = false

[dependencies]
chrono = { version = "=0.4.45", features = ["serde"] }
md-5 = "=0.10.6"
regex = "=1.13.1"
semver = "=1.0.28"
serde = { version = "=1.0.229", features = ["derive"] }
serde_json = { version = "=1.0.154", features = ["float_roundtrip"] }
serde_json_path = "=0.7.2"
sha2 = "=0.10.9"
uuid = { version = "=1.29.0", features = ["v4"] }

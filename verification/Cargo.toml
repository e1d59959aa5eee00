[package]
name = "indradb"
version = "0.1.0"
edition = "2021"
publish = false

[dependencies]
chrono = { version = "=0.4.45", features = ["serde"] }
rand = "=0.6.5"
serde = { version = "=1.0.229", features = ["derive"] }
serde_json = "=1.0.154"
tiny_http = "0.12"
uuid = { version = "=0.7.4", features = ["v4", "serde"] }

[dev-dependencies]
regex = "=1.13.1"

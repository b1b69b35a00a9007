[package]
name = "rustling_chains"
version = "0.1.0"
edition = "2021"
publish = false

[dependencies]
chrono = "0.4"
chrono-tz = "0.9"
rand = "0.8"
bcrypt = "0.15"
serde = { version = "1", features = ["derive"] }
serde_json = "1"

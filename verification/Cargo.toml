[package]
name = "cardbox"
version = "0.1.0"
edition = "2021"
publish = false

[dependencies]
comrak = "*"
chrono = "*"
serde = { version = "*", features = ["derive"] }
serde_json = "*"

[package]
name = "requirements_core"
version = "0.1.0"
edition = "2021"
publish = false

[dependencies]
uuid = { version = "1", features = ["v4"] }
chrono = "0.4"
serde = { version = "1", features = ["derive"] }
serde_yaml = "0.9"
dirs = "5"
clap = { version = "4", features = ["derive"] }
anyhow = "1"

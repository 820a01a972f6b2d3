[package]
name = "dotman"
version = "0.1.0"
edition = "2021"
publish = false

[dependencies]
anyhow = "=1.0.104"
serde = { version = "=1.0.229", features = ["derive"] }
serde_yaml = "=0.9.34"

[dev-dependencies]
clap = "4"

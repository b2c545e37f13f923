[package]
name = "oil"
version = "0.1.0"
edition = "2021"
publish = false

[dependencies]
chrono = { version = "0.4", features = ["serde"] }
dialoguer = "0.5"
dirs = "2"
log = "0.4"
serde = { version = "1", features = ["derive"] }
serde_yaml = "0.8"
shellexpand = "2"
simplelog = "0.7"

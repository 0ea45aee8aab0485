[package]
name = "rustwtxt"
version = "0.2.0"
edition = "2021"
publish = false

[dependencies]
chrono = "0.4"
clap = "2"
colored = "1"
regex = "1"
reqwest = "0.9"
serde = { version = "1", features = ["derive"] }
serde_yaml = "0.8"
ureq = "1"

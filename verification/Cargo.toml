[package]
name = "herdr_hop"
version = "0.1.0"
edition = "2021"
publish = false

[dependencies]
anyhow = "1"
base64 = "0.22"
clap = { version = "4", features = ["derive"] }
crossterm = "*"
flate2 = "1"
serde = { version = "1", features = ["derive"] }
serde_json = "1"

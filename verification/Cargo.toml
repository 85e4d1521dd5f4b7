[package]
name = "herdr-freeze"
version = "0.1.0"
edition = "2021"
publish = false

[dependencies]
crossterm = "0.28"
interprocess = "2"
serde = { version = "1", features = ["derive"] }
serde_json = "1"

[package]
name = "edgeless"
version = "0.1.0"
edition = "2021"
publish = false

[dependencies]
uuid = { version = "1", features = ["v4"] }
rand = "0.8"
chrono = "0.4"
anyhow = "1"

[package]
name = "elevator_control"
version = "0.1.0"
edition = "2021"
publish = false

[dependencies]
rand = "0.8"
serde = { version = "1", features = ["derive"] }
serde_json = "1"
bincode = "1"
crossbeam-channel = "0.5"
anyhow = "1"

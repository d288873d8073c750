[package]
name = "fossic"
version = "0.1.0"
edition = "2021"
publish = false

[dependencies]
serde = { version = "1", features = ["derive"] }
serde_json = "1"
rmp-serde = "1"
rusqlite = { version = "*", features = ["bundled"] }
crossbeam-channel = "0.5"
parking_lot = "0.12"
shellexpand = "3"

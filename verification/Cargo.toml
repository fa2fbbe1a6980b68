[package]
name = "vectx"
version = "0.1.0"
edition = "2021"
publish = false

[dependencies]
rand = "0.8"
chrono = "0.4"
sha2 = "0.10"
flate2 = "1"
serde = { version = "1", features = ["derive"] }
serde_json = "1"
uuid = { version = "1", features = ["v4"] }
bincode = "1"
nix = { version = "0.29", features = ["process"] }
parking_lot = "0.12"

[package]
name = "afilia"
version = "0.1.0"
edition = "2021"
publish = false

[dependencies]
blake3 = "*"
rusqlite = { version = "*", features = ["bundled"] }
uuid = { version = "*", features = ["v4"] }

[dev-dependencies]
serde_json = "*"

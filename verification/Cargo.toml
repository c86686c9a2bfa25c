[package]
name = "smart_memory"
version = "0.1.0"
edition = "2021"
publish = false

[dependencies]
chrono = "*"
rusqlite = { version = "*", features = ["bundled"] }
serde = { version = "*", features = ["derive"] }
serde_json = "*"
tokenizers = "*"
uuid = { version = "*", features = ["v4"] }

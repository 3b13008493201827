[package]
name = "whispera"
version = "0.1.0"
edition = "2021"
publish = false

[dependencies]
regex = "1"
uuid = { version = "1", features = ["v4"] }
serde = { version = "1", features = ["derive"] }
serde_json = "1"
hound = "3"
chrono = "0.4"
dotenvy = "0.15"
tokio = { version = "1", features = ["rt-multi-thread", "time", "fs", "macros"] }
rusqlite = { version = "0.32", features = ["bundled"] }
reqwest = { version = "0.12", default-features = false, features = ["json", "multipart", "rustls-tls"] }
keyring = "3"

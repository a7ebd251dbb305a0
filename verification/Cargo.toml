[package]
name = "voice_memos"
version = "0.2.1"
edition = "2021"
publish = false

[dependencies]
anyhow = "1"
chrono = "0.4"
clap = { version = "4", features = ["derive"] }
dirs = "*"
rusqlite = "*"
serde = { version = "1", features = ["derive"] }
serde_json = "1"

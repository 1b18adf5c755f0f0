[package]
name = "video_player"
version = "0.1.0"
edition = "2021"
publish = false

[dependencies]
sha2 = "0.10"
serde = { version = "1", features = ["derive"] }
serde_json = "1"
chrono = "0.4"
dirs = "6"
rusqlite = { version = "0.32", features = ["bundled"] }
tauri = { version = "2", default-features = false }

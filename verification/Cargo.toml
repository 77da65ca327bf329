[package]
name = "ram_notes"
version = "0.1.0"
edition = "2021"
publish = false

[dependencies]
dirs = "*"
serde = { version = "1", features = ["derive"] }
serde_json = "1"
serde_yaml = "0.9"
tauri = { version = "2", default-features = false }

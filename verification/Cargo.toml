[package]
name = "workspace_files"
version = "0.1.0"
edition = "2021"
publish = false

[dependencies]
base64 = "0.22"
notify-debouncer-full = "*"
objc2 = "0.6"
objc2-foundation = "0.3"
objc2-web-kit = "0.3"
serde = { version = "1", features = ["derive"] }
tauri = { version = "2", default-features = false }

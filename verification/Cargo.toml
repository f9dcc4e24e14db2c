[package]
name = "log_viewer"
version = "0.1.0"
edition = "2021"
publish = false

[dependencies]
chrono = { version = "0.4", features = ["serde"] }
dirs = "*"
encoding_rs = "0.8"
grep = "0.3"
memmap2 = "0.9"
regex = "1"
rusqlite = { version = "*", features = ["bundled"] }
serde = { version = "1", features = ["derive"] }
tauri = { version = "2", default-features = false }
thiserror = "*"

[package]
name = "folder_sync"
version = "0.1.0"
edition = "2021"
publish = false

[dependencies]
tokio = { version = "1", features = ["fs", "time", "rt-multi-thread"] }
walkdir = "2"

[dev-dependencies]
tempfile = "3"

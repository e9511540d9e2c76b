[package]
name = "music_scan"
version = "0.1.0"
edition = "2021"
publish = false

[dependencies]
walkdir = "2"
serde = { version = "1", features = ["derive"] }

[dev-dependencies]
fs-err = "*"
symlink = "*"

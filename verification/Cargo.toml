[package]
name = "backup_suite"
version = "0.1.0"
edition = "2021"
publish = false

[dependencies]
sha2 = "*"
tar = "*"
flate2 = "*"
serde = { version = "*", features = ["derive"] }
serde_json = "*"
chrono = "*"
dirs = "*"
libc = "*"
walkdir = "*"

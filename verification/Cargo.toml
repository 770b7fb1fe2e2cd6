[package]
name = "linuxboy"
version = "0.1.0"
edition = "2021"
publish = false

[dependencies]
anyhow = "1"
dirs = "*"
flate2 = "1"
hex = "0.4"
libc = "0.2"
reqwest = { version = "0.12", default-features = false, features = ["blocking"] }
serde = { version = "1", features = ["derive"] }
serde_json = "1"
sha2 = "0.10"
tar = "0.4"
uuid = { version = "1", features = ["v4"] }
walkdir = "2"

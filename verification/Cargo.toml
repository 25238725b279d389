[package]
name = "yabiir"
version = "0.1.0"
edition = "2021"
publish = false

[dependencies]
ahash = "0.8"
clap = { version = "4", features = ["derive"] }
crc32fast = "1"
fs2 = "0.4"
serde_json = "1"

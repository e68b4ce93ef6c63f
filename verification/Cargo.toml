[package]
name = "dev_prune_core"
version = "1.17.0"
edition = "2021"
publish = false

[dependencies]
anyhow = "1"
chrono = { version = "0.4", features = ["serde"] }
dirs = "*"
serde = { version = "1", features = ["derive"] }
serde_json = "1"
sha2 = "*"
ureq = "*"
walkdir = "2"

[dev-dependencies]
tempfile = "3"

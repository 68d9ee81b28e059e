[package]
name = "scarab"
version = "0.1.0"
edition = "2021"
publish = false

[dependencies]
anyhow = "*"
clap = { version = "4", features = ["derive"] }
colored = "*"
flate2 = "*"
hex = "*"
serde = { version = "1", features = ["derive"] }
serde_json = "1"
sha2 = "*"
tar = "*"
ureq = "3"
zstd = "*"

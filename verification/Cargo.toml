[package]
name = "thanatos"
version = "0.1.0"
edition = "2021"
publish = false

[dependencies]
anyhow = "1"
clap = { version = "4", features = ["derive"] }
colog = "1"
crc32fast = "1"
image = { version = "0.25", default-features = false, features = ["png"] }
indicatif = "0.17"
log = "0.4"
rayon = "1"
serde = { version = "1", features = ["derive"] }
thiserror = "1"
toml = "0.8"

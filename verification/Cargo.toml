[package]
name = "flutter_wipe"
version = "0.1.0"
edition = "2021"
publish = false

[dependencies]
clap = { version = "*", features = ["derive"] }
colored = "*"
fs_extra = "*"
human_bytes = "*"
indicatif = "*"
serde_yaml = "*"
toml = "*"
walkdir = "*"

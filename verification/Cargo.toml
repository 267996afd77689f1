[package]
name = "sq"
version = "0.1.0"
edition = "2021"
publish = false

[dependencies]
anyhow = "1"
clap = { version = "4", features = ["derive"] }
comfy-table = "7"
dirs = "5"
serde = { version = "1", features = ["derive"] }
serde_json = "1"
terminal_size = "0.4"
toml = "0.8"
ureq = "2"

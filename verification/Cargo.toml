[package]
name = "rust_game"
version = "0.1.0"
edition = "2021"
publish = false

[dependencies]
anyhow = "1"
bcrypt = "0.15"
clap = { version = "4", features = ["derive"] }
colored = "2"
dirs = "5"
indicatif = "0.17"
rusqlite = { version = "0.31", features = ["bundled"] }
serde = { version = "1", features = ["derive"] }
serde_json = "1"
toml = "0.8"
wait-timeout = "0.2"
walkdir = "2"

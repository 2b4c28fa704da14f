[package]
name = "thoughts"
version = "0.1.0"
edition = "2021"
publish = false

[dependencies]
anyhow = "1"
chrono = { version = "0.4", default-features = false, features = ["std"] }
clap = { version = "4", features = ["derive"] }
crossterm = "*"
figment = { version = "0.10", features = ["toml", "env"] }
glob = "0.3"
ratatui = "*"
rusqlite = { version = "*", features = ["bundled"] }
serde = { version = "1", features = ["derive"] }
serde_yaml = "0.9"
shellexpand = "3"

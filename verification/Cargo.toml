[package]
name = "arch_package_tui"
version = "0.2.1"
edition = "2021"
publish = false

[dependencies]
dirs = "6"
anyhow = "1"
chrono = "0.4"
crossterm = "0.28"
ratatui = "0.29"
tokio = { version = "1", features = ["rt-multi-thread", "macros", "sync"] }
reqwest = { version = "0.12", default-features = false, features = ["json", "rustls-tls"] }
rusqlite = { version = "0.32", features = ["bundled"] }
serde = { version = "1", features = ["derive"] }
toml = "0.8"

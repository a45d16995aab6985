[package]
name = "anime-tui"
version = "0.1.0"
edition = "2021"
publish = false

[dependencies]
scraper = { version = "=0.20.0", features = ["deterministic"] }
regex-lite = "=0.1.9"
serde = { version = "=1.0.229", features = ["derive"] }
serde_json = "=1.0.154"
reqwest = { version = "=0.12.28", default-features = false, features = ["rustls-tls"] }
tokio = { version = "=1.54.1", features = ["macros", "rt-multi-thread"] }
ratatui = "=0.29.0"
crossterm = "=0.28.1"

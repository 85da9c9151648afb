[package]
name = "scout"
version = "0.1.0"
edition = "2021"
publish = false

[dependencies]
serde_json = "=1.0.151"
scraper = "=0.27.0"
anyhow = "=1.0.104"
crossterm = "=0.29.0"
reqwest = { version = "=0.13.5", default-features = false, features = ["cookies", "json"] }
tokio = { version = "=1.53.2", features = ["macros", "rt-multi-thread"] }

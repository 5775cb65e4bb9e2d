[package]
name = "google_play_scraper_rs"
version = "0.1.0"
edition = "2021"
publish = false

[dependencies]
regex = "1"
scraper = "*"
serde = { version = "1", features = ["derive"] }
serde_json = "1"
thiserror = "*"
urlencoding = "2"
reqwest = { version = "0.12", default-features = false, features = ["rustls-tls", "cookies"] }

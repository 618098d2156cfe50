[package]
name = "fitgirl_downloader"
version = "0.1.0"
edition = "2021"
publish = false

[dependencies]
scraper = "=0.29.0"
http = "=1.5.0"
tokio = { version = "=1.54.1", features = ["full"] }
futures-util = "=0.3.34"
serde = { version = "=1.0.229", features = ["derive"] }
wreq = { version = "=0.15.3", features = ["stream"] }
wreq-util = "=0.1.0"
url = "=2.5.8"

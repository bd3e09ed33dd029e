[package]
name = "goal_bot"
version = "0.1.0"
edition = "2021"
publish = false

[dependencies]
base64 = "=0.23.1"
chrono = "=0.4.45"
dotenv = "=0.15.0"
env_logger = "=0.11.11"
futures-util = "=0.3.34"
headless_chrome = "=1.0.22"
html-escape = "=0.2.15"
jsonpath-rust = "=1.0.12"
log = "=0.4.35"
rand = "=0.8.8"
regex = "=1.13.1"
reqwest = { version = "=0.13.5", features = ["json"] }
roux = "=2.3.0"
roux-stream = "=0.2.0"
scraper = "=0.29.0"
serde = { version = "=1.0.229", features = ["derive"] }
serde_json = "=1.0.154"
takecell = "=0.1.1"
teloxide = "=0.17.0"
tokio = { version = "=1.54.1", features = ["full"] }
tokio-retry = "=0.3.2"
url = "=2.5.8"

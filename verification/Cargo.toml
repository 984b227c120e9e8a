[package]
name = "ph_quakes"
version = "0.1.0"
edition = "2021"
publish = false

[dependencies]
chrono = "0.4"
scraper = "*"
serde = { version = "1", features = ["derive"] }
serde_derive = "1"
serde_json = "1"
actix = "*"
actix-web = "*"
actix-web-actors = "*"
actix-rt = "*"
awc = { version = "*", features = ["openssl"] }
openssl = "0.10"
askama = "*"
dotenv = "0.15"
env_logger = "*"
log = "0.4"

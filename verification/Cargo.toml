[package]
name = "api_proxy"
version = "0.1.0"
edition = "2021"
publish = false

[dependencies]
regex = "1"
url = "2"
percent-encoding = "2"
scraper = "0.20"
actix-web = { version = "4", features = ["rustls-0_23"] }
actix-http = "3"
actix-rt = "2"
actix-ws = "0.3"
awc = "3"
bytestring = "1"
futures = "0.3"
tokio = { version = "1", features = ["macros", "rt"] }
serde = { version = "1", features = ["derive"] }
serde_json = "1"
toml = "0.8"
thiserror = "1"
log = "0.4"
env_logger = "0.11"
rcgen = "0.13"
rustls = { version = "0.23", default-features = false, features = ["ring", "std", "logging", "tls12"] }
rustls-pemfile = "2"

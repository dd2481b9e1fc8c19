[package]
name = "unleash_proxy"
version = "0.1.0"
edition = "2021"
publish = false

[dependencies]
unleash-api-client = "=0.6.0"
url = "=2.5.8"
ipaddress = "=0.1.3"
chrono = "=0.4.45"
serde = { version = "=1.0.229", features = ["derive"] }
serde_json = "=1.0.154"
hyper = { version = "=0.14.32", features = ["server", "http1", "tcp"] }
tokio = { version = "=1.54.1", features = ["macros", "rt-multi-thread"] }
futures = "=0.3.34"
futures-timer = "=3.0.4"
http-types = "=2.12.0"
anyhow = "=1.0.104"
log = "=0.4.35"
env_logger = "=0.11.11"
enum-map = "=1.1.1"

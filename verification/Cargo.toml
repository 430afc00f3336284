[package]
name = "uptimemaster"
version = "0.1.0"
edition = "2021"
publish = false

[dependencies]
regex = "=1.13.1"
x509-parser = "=0.18.1"
axum = "=0.8.9"
clap = { version = "=4.6.7", features = ["derive"] }
hickory-resolver = { version = "=0.25.2", features = ["tls-aws-lc-rs", "https-aws-lc-rs"] }
notify = "=8.2.1"
pnet_base = "=0.35.0"
pnet_datalink = "=0.35.0"
prometheus-client = "=0.25.2"
rand = "=0.10.3"
reqwest = { version = "=0.12.28", default-features = false, features = ["rustls-tls"] }
rustls = "=0.23.46"
rustls-pki-types = "=1.15.1"
serde = { version = "=1.0.229", features = ["derive"] }
surge-ping = "=0.9.1"
tokio = { version = "=1.54.1", features = ["full"] }
tokio-rustls = "=0.26.6"
toml = "=1.1.8"
tracing = "=0.1.44"
tracing-subscriber = { version = "=0.3.23", features = ["env-filter", "fmt"] }
uuid = { version = "=1.29.0", features = ["v4"] }
webpki-roots = "=1.0.10"

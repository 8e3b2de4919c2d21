[package]
name = "gateway"
version = "0.1.0"
edition = "2021"
publish = false

[dependencies]
hyper = { version = "=0.14.32", features = ["full"] }
hyper-rustls = { version = "=0.24.2", default-features = false, features = ["webpki-tokio", "http1", "tls12"] }
tokio = { version = "=1.54.1", features = ["full"] }
clap = { version = "=4.6.7", features = ["env"] }
dotenvy = "=0.15.7"
futures-lite = "=2.6.1"
log = "=0.4.34"
pretty_env_logger = "=0.5.0"
serde_json = "1"

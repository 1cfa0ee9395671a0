[package]
name = "cdk_mint"
version = "0.1.0"
edition = "2021"
publish = false

[dependencies]
anyhow = "=1.0.104"
axum = "=0.7.9"
bip39 = "=2.2.2"
bitcoin = "=0.32.102"
clap = { version = "=4.6.7", features = ["derive"] }
home = "=0.5.12"
lightning-invoice = "=0.33.3"
serde = { version = "=1.0.229", features = ["derive"] }
serde_json = "=1.0.154"
tokio = { version = "=1.54.1", features = ["full"] }
tower = "=0.5.3"
tower-http = { version = "=0.6.11", features = ["compression-gzip", "decompression-gzip", "trace"] }
tracing = "=0.1.44"
tracing-subscriber = { version = "=0.3.23", features = ["env-filter"] }
uuid = { version = "=1.29.0", features = ["v4"] }

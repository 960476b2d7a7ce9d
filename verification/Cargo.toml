[package]
name = "backtest"
version = "0.1.0"
edition = "2021"
publish = false

[dependencies]
bincode = "=1.3.3"
chrono = "=0.4.45"
kalshi-rs = "=0.2.2"
regex = "=1.13.1"
serde = { version = "=1.0.229", features = ["derive"] }
serde_json = "=1.0.154"
statrs = "=0.19.1"

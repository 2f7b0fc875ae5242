[package]
name = "hop"
version = "0.1.0"
edition = "2021"
publish = false

[dependencies]
serde = { version = "=1.0.229", features = ["derive"] }
ciborium = "=0.2.2"
bytes = "=1.12.1"
tokio = { version = "=1.54.1", features = ["full"] }
tokio-util = { version = "=0.7.20", features = ["codec", "rt"] }
futures = "=0.3.34"
arc-swap = "=1.9.3"
toml = "=0.8.23"
thiserror = "=1.0.69"
tracing = "=0.1.44"
x11rb = { version = "=0.13.2", features = ["xtest"] }
crossbeam-channel = "=0.5.17"

[package]
name = "host_config"
version = "0.1.0"
edition = "2021"
publish = false

[dependencies]
regex = "1"
tokio = { version = "1", features = ["fs", "io-util"] }
futures = "0.3"

[package]
name = "weather_ku"
version = "0.1.0"
edition = "2021"
publish = false

[dependencies]
indexmap = "2"
serde_json = "1"
chrono = "0.4"
http-body-util = "0.1"
hyper = { version = "1", features = ["full"] }
hyper-util = { version = "0.1", features = ["full"] }
inquire = { version = "0.7", features = ["editor"] }
tokio = { version = "1", features = ["full"] }

[package]
name = "momento_ws"
version = "0.1.0"
edition = "2021"
publish = false

[dependencies]
tokio = { version = "1", features = ["rt", "sync", "net", "time", "macros"] }
futures = "0.3"
tokio-tungstenite = "*"
hyper = "*"

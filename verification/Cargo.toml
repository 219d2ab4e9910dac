[package]
name = "clickhouse"
version = "0.1.0"
edition = "2021"
publish = false

[dependencies]
hyper = { version = "=0.14.32", features = ["client", "http1", "server", "tcp"] }
serde = "=1.0.229"
tokio = { version = "=1.54.1", features = ["rt"] }
url = "=2.5.8"

[package]
name = "metrics_exporter_influx"
version = "0.1.0"
edition = "2021"
publish = false

[dependencies]
anyhow = "=1.0.104"
chrono = "=0.4.45"
metrics = "=0.21.1"
metrics-util = "0.15"
reqwest = { version = "=0.11.27", default-features = false, features = ["gzip"] }
tokio = { version = "=1.53.2", features = ["rt", "time", "sync", "macros"] }
tracing = "=0.1.44"

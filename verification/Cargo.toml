[package]
name = "csv_ingest"
version = "0.1.0"
edition = "2021"
publish = false

[dependencies]
sha2 = "*"
csv = "*"
chrono = "*"
influxdb = "*"
clap = { version = "*", features = ["derive"] }
tokio = { version = "*", features = ["rt-multi-thread", "sync", "macros"] }
walkdir = "*"
log = "*"
pretty_env_logger = "*"
anyhow = "*"

[package]
name = "projeto_rust"
version = "0.1.0"
edition = "2021"
publish = false

[dependencies]
polars = { version = "0.46", features = ["lazy", "parquet", "csv"] }
smartcore = "0.3"
chrono = "0.4"
uuid = { version = "1", features = ["v4"] }
serde_json = "1"
rand = "0.8"

[package]
name = "csv_processor"
version = "0.1.0"
edition = "2021"
publish = false

[dependencies]
csv = "1"

[dev-dependencies]
serde_json = "1"

[package]
name = "request_executor"
version = "0.1.0"
edition = "2021"
publish = false

[dependencies]
convert_case = "0.6"
reqwest = "0.11"
serde = { version = "1", features = ["derive"] }
serde_json = "1"

[package]
name = "xpath_match"
version = "0.1.0"
edition = "2021"
publish = false

[dependencies]
skyscraper = "*"
serde = { version = "1", features = ["derive"] }
serde_json = "1"
futures = "0.3"
async-std = { version = "1", features = ["attributes"] }
async_executors = { version = "*", features = ["async_std"] }
async_nursery = "*"

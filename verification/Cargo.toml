[package]
name = "keen_cache"
version = "0.1.0"
edition = "2021"
publish = false

[dependencies]
redis = "*"

[dev-dependencies]
serde_json = "*"

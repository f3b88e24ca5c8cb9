[package]
name = "evil_json"
version = "0.1.0"
edition = "2021"
publish = false

[dependencies]
serde = "=1.0.229"
ryu = "=1.0.23"

[dev-dependencies]
rand = { version = "=0.8.8", features = ["small_rng"] }

[package]
name = "gio_relay"
version = "0.1.0"
edition = "2021"
publish = false

[dependencies]
hex = "0.4"
hyper = { version = "0.14", features = ["full"] }
tokio = { version = "1", features = ["full"] }

[dev-dependencies]
serde_json = "1"

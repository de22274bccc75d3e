[package]
name = "fallen_world_launcher"
version = "0.1.0"
edition = "2021"
publish = false

[dependencies]
regex = "1"
xml-rs = "0.8"
serde = { version = "1", features = ["derive"] }
serde_json = "1"
chrono = "0.4"
dirs = "5"
uuid = { version = "1", features = ["v4"] }
zip = { version = "2", default-features = false, features = ["deflate"] }
lazy_static = "1"

[package]
name = "rust_tag_server"
version = "0.1.0"
edition = "2021"
publish = false

[dependencies]
chrono = { version = "0.4", default-features = false, features = ["std"] }
http = "1"
serde = "1"
serde_derive = "1"
serde_json = "1"

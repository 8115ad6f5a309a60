[package]
name = "rhyolite"
version = "0.1.0"
edition = "2021"
publish = false

[dependencies]
indexmap = "2"
sanitize-filename = "*"
uuid = { version = "1", features = ["v4"] }
serde = { version = "1", features = ["derive"] }
serde_json = "1"
dirs = "*"

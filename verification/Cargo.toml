[package]
name = "rpbox_core"
version = "0.1.0"
edition = "2021"
publish = false

[dependencies]
serde = { version = "1", features = ["derive"] }
serde_json = "1"
md5 = "0.7"
chrono = { version = "0.4", features = ["serde"] }
rusqlite = { version = "0.31", features = ["bundled"] }
zip = { version = "0.6", default-features = false, features = ["deflate"] }

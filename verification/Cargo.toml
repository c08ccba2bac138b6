[package]
name = "custom_theme"
version = "0.1.0"
edition = "2021"
publish = false

[dependencies]
json5 = "*"
lazy_static = "1"
serde = { version = "1", features = ["derive"] }
serde_json = "1"
thiserror = "*"
tokio = { version = "1", default-features = false, features = ["sync"] }

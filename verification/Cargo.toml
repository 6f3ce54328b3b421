[package]
name = "table_normalizer"
version = "0.1.0"
edition = "2021"
publish = false

[dependencies]
csv = "=1.4.0"
serde = { version = "=1.0.229", features = ["derive"] }
serde_json = { version = "=1.0.154", features = ["float_roundtrip", "preserve_order"] }
tauri = { version = "=2.12.5", default-features = false, features = ["wry"] }

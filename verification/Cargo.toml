[package]
name = "adequate_booru_viewer"
version = "0.1.0"
edition = "2021"
publish = false

[dependencies]
anyhow = "=1.0.104"
roaring = "*"
serde = { version = "=1.0.229", features = ["derive"] }
toml = "=1.1.8"

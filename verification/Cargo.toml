[package]
name = "espanso_settings"
version = "0.1.0"
edition = "2021"
publish = false

[dependencies]
anyhow = "1"
serde = { version = "1", features = ["derive"] }
serde_json = "1"
serde_norway = "0.9"
walkdir = "2"
zip = { version = "0.6", default-features = false, features = ["deflate"] }
atomicwrites = "0.4"
dunce = "1"
fs2 = "0.4"
log = "0.4"

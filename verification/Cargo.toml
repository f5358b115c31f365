[package]
name = "md_viewer"
version = "0.1.0"
edition = "2021"
publish = false

[dependencies]
comrak = { version = "=0.59.0", default-features = false }
serde = { version = "=1.0.229", features = ["derive"] }
serde_json = "=1.0.154"
notify = "=8.2.1"
tao = "0.32"
wry = "0.50"
gtk = "0.18"

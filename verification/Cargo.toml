[package]
name = "cdoc"
version = "0.1.0"
edition = "2021"
publish = false

[dependencies]
tera = "1"
pulldown-cmark = "0.9"
serde = { version = "1", features = ["derive"] }
serde_json = "1"
serde_yaml = "0.8"
base64 = "0.13"
anyhow = "1"

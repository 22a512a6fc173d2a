[package]
name = "komga_infra"
version = "0.1.0"
edition = "2021"
publish = false

[dependencies]
quick-xml = "=0.42.0"
sha2 = "=0.11.1"
url = "=2.5.8"
serde = { version = "=1.0.229", features = ["derive"] }
serde_json = "=1.0.154"
zip = { version = "=9.2.2", default-features = false, features = ["deflate"] }
unrar = "=0.5.8"
anyhow = "=1.0.104"
unicode-normalization = "*"

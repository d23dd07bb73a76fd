[package]
name = "bokuchi"
version = "0.1.0"
edition = "2021"
publish = false

[dependencies]
regex = "1"
sha2 = "0.10"
serde = { version = "1", features = ["derive"] }
serde_yaml = "0.9"
anyhow = "1"
lazy_static = "1"
url = "2"

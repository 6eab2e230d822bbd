[package]
name = "gdiff"
version = "0.1.0"
edition = "2021"
publish = false

[dependencies]
serde_yaml = "0.9"
url = "2"
tokio = { version = "1", default-features = false, features = ["fs"] }

[package]
name = "supercluster_archive"
version = "0.1.0"
edition = "2021"
publish = false

[dependencies]
zip = "0.6"
base64 = "0.22"
serde = { version = "1", features = ["derive"] }
serde_json = "1"

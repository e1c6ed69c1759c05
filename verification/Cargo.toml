[package]
name = "spicy"
version = "0.0.1"
edition = "2021"
publish = false

[dependencies]
anyhow = "1"
base64 = "0.22"
clap = { version = "4", features = ["derive"] }
colored = "2"
gltf = "1"
serde_json = "1"

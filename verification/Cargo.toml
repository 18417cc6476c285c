[package]
name = "tile_stitch"
version = "0.1.0"
edition = "2021"
publish = false

[dependencies]
base64 = "=0.22.1"
image = "=0.24.9"
reqwest = { version = "=0.12.28", default-features = false }
tokio = { version = "=1.53.2", features = ["rt-multi-thread"] }

[package]
name = "docvec"
version = "0.1.0"
edition = "2021"
publish = false

[dependencies]
md-5 = "=0.11.0"
rusqlite = { version = "=0.40.2", features = ["bundled"] }
sqlite-vec = "=0.1.9"
fastembed = { version = "=7.1.0", default-features = false, features = ["ort-load-dynamic", "hf-hub"] }
bytemuck = "=1.25.2"
serde_json = "=1.0.151"
walkdir = "=2.5.0"

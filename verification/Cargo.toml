[package]
name = "firefly_omni"
version = "0.1.0"
edition = "2021"
publish = false

[dependencies]
sha2 = "=0.10.9"
unicode-normalization = "=0.1.26"
serde = { version = "=1.0.229", features = ["derive"] }
serde_json = "=1.0.154"
anyhow = "=1.0.104"
rusqlite = { version = "=0.32.1", features = ["bundled"] }
encoding_rs = "=0.8.44"
ignore = "=0.4.34"
regex = "1"
quick-xml = "0.36"
zip = { version = "2", default-features = false, features = ["deflate"] }

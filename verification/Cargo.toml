[package]
name = "data_engine_columnar"
version = "0.1.0"
edition = "2021"
publish = false

[dependencies]
ahash = "0.8"
arrow = { version = "57", default-features = false }
chrono = { version = "0.4", default-features = false, features = ["clock", "std"] }
indexmap = "2"
regex = "1"
roaring = "0.11"
serde = { version = "1", features = ["derive"] }
serde_cbor = "0.11"
serde_json = "1"

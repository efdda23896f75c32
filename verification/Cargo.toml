[package]
name = "composer"
version = "0.1.0"
edition = "2021"
publish = false

[dependencies]
ahash = "0.8"
dashmap = "5"
parking_lot = "0.12"
regex = "1"
serde = { version = "1", features = ["derive"] }
smallvec = "1"
thiserror = "1"

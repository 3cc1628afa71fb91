[package]
name = "graphloom"
version = "0.1.0"
edition = "2021"
publish = false

[dependencies]
anyhow = "1"
chrono = "0.4"
dirs = "*"
dotenvy = "*"
jsonschema = { version = "*", default-features = false }
reqwest = { version = "*", default-features = false, features = ["json"] }
serde = { version = "1", features = ["derive"] }
serde_json = "1"
sha2 = "*"
tokio = { version = "1", features = ["process", "rt-multi-thread", "macros"] }
walkdir = "2"

[dev-dependencies]

[package]
name = "rtools"
version = "0.1.0"
edition = "2021"
publish = false

[dependencies]
chrono = "0.4"
reqwest = { version = "0.12", default-features = false }
serde_json = "1"
thiserror = "1"
tokio = { version = "1", features = ["net", "time", "rt-multi-thread"] }
toml = "0.8"

[package]
name = "cartoon_download"
version = "0.1.0"
edition = "2021"
publish = false

[dependencies]
chrono = { version = "0.4", default-features = false, features = ["clock", "std"] }
serde_json = "1"
serde = { version = "1", features = ["derive"] }
reqwest = { version = "0.12", default-features = false, features = ["stream"] }
futures-util = "0.3"
tokio = { version = "1", features = ["fs", "io-util", "sync", "time", "rt", "macros"] }
lazy_static = "1"
tauri = { version = "2", default-features = false }

[package]
name = "vibe_core"
version = "0.1.0"
edition = "2021"
publish = false

[dependencies]
chrono = "0.4"
eyre = "0.6"
futures-util = "0.3"
rand = "0.9"
serde = { version = "1", features = ["derive"] }
tauri = { version = "2", default-features = false }
tokio = { version = "1", features = ["sync", "macros"] }
tracing = "0.1"
url = "2"
which = "*"

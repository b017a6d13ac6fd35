[package]
name = "vstabs"
version = "0.1.0"
edition = "2021"
publish = false

[dependencies]
serde = { version = "=1.0.229", features = ["derive"] }
serde_json = "1"
tokio = { version = "=1.54.1", features = ["process", "net", "time", "rt"] }
dirs = "=7.0.0"
thiserror = "=2.0.21"
tauri = { version = "=2.12.5", default-features = false, features = ["wry"] }

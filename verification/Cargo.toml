[package]
name = "makepad_analyzer"
version = "0.1.0"
edition = "2021"
publish = false

[dependencies]
dashmap = "6"
toml = "0.8"
url = "2"
tower-lsp = "0.20"
tokio = { version = "1", features = ["full"] }
serde = { version = "1", features = ["derive"] }
serde_json = "1"
thiserror = "1"
tracing = "0.1"
tracing-subscriber = { version = "0.3", features = ["env-filter"] }
once_cell = "1"
parking_lot = "0.12"
tempfile = "3"
ansiterm = "0.12"
anyhow = "1"
walkdir = "2"
lsp-types = "0.94"
lsp-server = "0.7"

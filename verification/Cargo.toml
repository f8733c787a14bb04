[package]
name = "cargo_doc_viewer"
version = "0.1.0"
edition = "2021"
publish = false

[dependencies]
mime_guess = "2"
hyper = { version = "0.14", features = ["server", "http1", "tcp"] }
tokio = { version = "1", features = ["full"] }
tokio-util = { version = "0.7", features = ["io"] }
serde = { version = "1", features = ["derive"] }
serde_json = "1"
serde_yaml = "0.9"
dirs = "5"
dotenvy = "0.15"
once_cell = "1"

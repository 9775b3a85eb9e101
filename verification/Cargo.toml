[package]
name = "lsp_session"
version = "0.1.0"
edition = "2021"
publish = false

[dependencies]
serde_json = "*"
tokio = { version = "*", features = ["process", "io-util", "rt-multi-thread", "macros", "sync", "time"] }
lsp-types = "*"
url = "*"

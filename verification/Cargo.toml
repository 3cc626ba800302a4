[package]
name = "aether"
version = "0.1.0"
edition = "2021"
publish = false

[dependencies]
sha2 = "=0.10.9"
globset = "=0.4.21"
serde = { version = "=1.0.229", features = ["derive"] }
serde_json = "=1.0.154"
thiserror = "=1.0.69"
tokio = { version = "=1.54.1", features = ["io-util", "rt", "macros", "sync", "time", "process"] }
tree-sitter = "=0.22.6"
tree-sitter-rust = "=0.21.2"
tree-sitter-python = "=0.21.0"
tree-sitter-typescript = "=0.21.2"
tree-sitter-go = "=0.21.2"

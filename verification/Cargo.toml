[package]
name = "code_blocks"
version = "0.1.0"
edition = "2021"
publish = false

[dependencies]
anyhow = "1"
serde = { version = "1", features = ["derive"] }
serde_json = "1"
tree-sitter = "0.20"
libloading = "0.8"

[dev-dependencies]
tree-sitter-rust = "0.20"

[package]
name = "webgal_lsp"
version = "0.1.0"
edition = "2021"
publish = false

[dependencies]
lsp-types = "0.94"
serde = { version = "1", features = ["derive"] }
serde_json = "1"
